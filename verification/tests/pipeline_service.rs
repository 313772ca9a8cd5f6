use dscvr::errors::FileError;
use dscvr::pipeline::{
    finish_prepare_pdf, uses_mmap, Ingestor, Preparation, PreparedFile, BYTE_LOAD_THRESHOLD,
};
use dscvr::scanned_file::ScannedFile;
use dscvr::service::FileIndexService;

fn in_memory_service() -> FileIndexService {
    FileIndexService::new(Ingestor::open_in_memory().unwrap())
}

fn prepared(ingestor: &Ingestor, path: &str, bytes: &[u8]) -> PreparedFile {
    let file = ScannedFile { path: path.to_string() };
    match ingestor.begin_prepare(&file, &bytes.to_vec()) {
        Preparation::Done(pf) => pf,
        Preparation::NeedsPdfText(pending) => {
            let extracted =
                pdf_extract::extract_text_from_mem(bytes).map_err(|_| FileError::Extraction);
            finish_prepare_pdf(pending, extracted)
        }
    }
}

fn unreadable(path: &str) -> PreparedFile {
    PreparedFile {
        path: path.to_string(),
        size: 0,
        outcome: Err(FileError::Io),
    }
}

/// Deterministic pseudo-random printable bytes, so that the readability
/// heuristic classifies the file while its contents stay arbitrary.
fn printable_noise(len: usize) -> Vec<u8> {
    let mut state: u64 = 0x9e3779b97f4a7c15;
    let mut out = Vec::with_capacity(len);
    for _ in 0..len {
        state = state.wrapping_mul(6364136223846793005).wrapping_add(1442695040888963407);
        out.push(33 + (state >> 33) as u8 % 94);
    }
    out
}

#[test]
fn test_index_and_search_roundtrip() {
    let mut service = in_memory_service();
    let batch = vec![prepared(&service.ingestor, "/a/readme.md", b"the quick brown fox")];
    let failed = service.index_file(batch).unwrap();
    assert!(failed.is_empty());
    assert_eq!(
        service.search_file_by_contents(&"quick".to_string()),
        vec!["/a/readme.md".to_string()]
    );
}

#[test]
fn test_unicode_contents_roundtrip() {
    let mut service = in_memory_service();
    let batch = vec![prepared(
        &service.ingestor,
        "/a/greek.txt",
        "\u{3b1}\u{3b2}\u{3b3} hello".as_bytes(),
    )];
    assert!(service.index_file(batch).unwrap().is_empty());
    assert_eq!(
        service.search_file_by_contents(&"hello".to_string()),
        vec!["/a/greek.txt".to_string()]
    );
}

#[test]
fn test_duplicate_files_group_by_hash() {
    let mut service = in_memory_service();
    let contents = printable_noise(1_048_576);
    let batch = vec![
        prepared(&service.ingestor, "/a/x.bin", &contents),
        prepared(&service.ingestor, "/a/y.bin", &contents),
    ];
    assert!(service.index_file(batch).unwrap().is_empty());

    let groups = service.find_duplicated_files(None);
    assert_eq!(groups.len(), 1);
    let group = &groups[0];
    assert_eq!(group.duplicates, 2);
    assert_eq!(group.aggregated_size, 2 * 1_048_576);
    let mut paths = group.paths.clone();
    paths.sort();
    assert_eq!(paths, vec!["/a/x.bin".to_string(), "/a/y.bin".to_string()]);
    assert_eq!(group.hash.len(), 64);
    assert!(group.hash.chars().all(|c| c.is_ascii_hexdigit() && !c.is_ascii_uppercase()));
}

#[test]
fn test_duplicate_of_text_file_doubles_aggregated_size() {
    let mut service = in_memory_service();
    let contents = b"the quick brown fox";
    let batch = vec![
        prepared(&service.ingestor, "/a/readme.md", contents),
        prepared(&service.ingestor, "/b/readme.md", contents),
    ];
    assert!(service.index_file(batch).unwrap().is_empty());
    let groups = service.find_duplicated_files(None);
    assert_eq!(groups.len(), 1);
    assert_eq!(groups[0].duplicates, 2);
    assert_eq!(groups[0].aggregated_size, 2 * contents.len() as u64);
}

#[test]
fn test_unknown_file_fails_without_traces() {
    let mut service = in_memory_service();
    let mut half_binary = vec![b'a'; 8];
    half_binary.extend_from_slice(&[0u8; 8]);
    let batch = vec![prepared(&service.ingestor, "/a/unknown.xyz", &half_binary)];
    let failed = service.index_file(batch).unwrap();
    assert_eq!(failed.len(), 1);
    assert_eq!(failed[0].path, "/a/unknown.xyz");
    assert_eq!(service.ingestor.visible_doc_count(), 0);
    assert!(service.ingestor.fetch_rows().unwrap().is_empty());
    assert!(service.find_duplicated_files(None).is_empty());
}

#[test]
fn test_pdf_extraction_failure_leaves_batch_intact() {
    let mut service = in_memory_service();
    let batch = vec![
        prepared(&service.ingestor, "/a/doc.pdf", b"not a portable document at all"),
        prepared(&service.ingestor, "/a/fine.txt", b"perfectly ordinary text"),
    ];
    let failed = service.index_file(batch).unwrap();
    assert_eq!(failed.len(), 1);
    assert_eq!(failed[0].path, "/a/doc.pdf");
    // The rest of the batch committed; the failed file left nothing.
    assert_eq!(service.ingestor.visible_doc_count(), 1);
    assert_eq!(service.ingestor.fetch_rows().unwrap().len(), 1);
    assert!(service.search_file_by_contents(&"portable".to_string()).is_empty());
    assert_eq!(
        service.search_file_by_contents(&"ordinary".to_string()),
        vec!["/a/fine.txt".to_string()]
    );
}

#[test]
fn test_extraction_abort_outcome_touches_nothing() {
    // An abnormal termination inside extraction is caught at the process
    // boundary and handed to the batch as a failed outcome; such an
    // outcome must leave no index document and no metadata row behind.
    let mut ingestor = Ingestor::open_in_memory().unwrap();
    let aborted = PreparedFile {
        path: "/a/crasher.pdf".to_string(),
        size: 17,
        outcome: Err(FileError::Extraction),
    };
    let failed = ingestor.index_files(vec![aborted]).unwrap();
    assert_eq!(failed.len(), 1);
    assert_eq!(failed[0].path, "/a/crasher.pdf");
    assert_eq!(ingestor.visible_doc_count(), 0);
    assert!(ingestor.fetch_rows().unwrap().is_empty());
}

#[test]
fn test_per_file_preparation_error_kinds() {
    let ingestor = Ingestor::open_in_memory().unwrap();
    let invalid_utf8 = prepared(&ingestor, "/a/broken.txt", &[0xff, 0xfe, b'a']);
    assert_eq!(invalid_utf8.outcome.unwrap_err(), FileError::Decode);

    let unknown = prepared(&ingestor, "/a/opaque.xyz", &[0u8, 1, 2, 3]);
    assert_eq!(unknown.outcome.unwrap_err(), FileError::Classification);

    let bad_pdf = prepared(&ingestor, "/a/bad.pdf", b"no document here");
    assert_eq!(bad_pdf.outcome.unwrap_err(), FileError::Extraction);
}

#[test]
fn test_unreadable_file_lands_in_failed_list() {
    let mut ingestor = Ingestor::open_in_memory().unwrap();
    let failed = ingestor.index_files(vec![unreadable("/a/locked.txt")]).unwrap();
    assert_eq!(failed.len(), 1);
    assert_eq!(failed[0].path, "/a/locked.txt");
    assert_eq!(ingestor.visible_doc_count(), 0);
}

#[test]
fn test_failed_files_keep_submission_order() {
    let mut ingestor = Ingestor::open_in_memory().unwrap();
    let batch = vec![
        unreadable("/a/first-bad"),
        prepared(&ingestor, "/a/good.txt", b"plain text"),
        unreadable("/a/second-bad"),
        prepared(&ingestor, "/a/also-bad.xyz", &[0u8, 1, 2, 3]),
    ];
    let failed = ingestor.index_files(batch).unwrap();
    let failed_paths: Vec<String> = failed.into_iter().map(|f| f.path).collect();
    assert_eq!(
        failed_paths,
        vec![
            "/a/first-bad".to_string(),
            "/a/second-bad".to_string(),
            "/a/also-bad.xyz".to_string(),
        ]
    );
}

#[test]
fn test_reingesting_unchanged_file_keeps_row() {
    let mut ingestor = Ingestor::open_in_memory().unwrap();
    let contents = b"steady contents";
    let batch = vec![prepared(&ingestor, "/a/same.txt", contents)];
    assert!(ingestor.index_files(batch).unwrap().is_empty());
    let first_rows = ingestor.fetch_rows().unwrap();
    assert_eq!(first_rows.len(), 1);
    let first_hash = first_rows[0].hash.clone();

    let batch = vec![prepared(&ingestor, "/a/same.txt", contents)];
    assert!(ingestor.index_files(batch).unwrap().is_empty());
    let second_rows = ingestor.fetch_rows().unwrap();
    assert_eq!(second_rows.len(), 1);
    assert_eq!(second_rows[0].hash, first_hash);
    assert_eq!(second_rows[0].size, contents.len() as u64);
    assert_eq!(second_rows[0].path, "/a/same.txt");
}

#[test]
fn test_two_sequential_batches_with_search_between() {
    let mut service = in_memory_service();
    let first: Vec<PreparedFile> = (0..1000)
        .map(|i| prepared(&service.ingestor, &format!("/corpus/alpha-{}.txt", i), b"alpha term"))
        .collect();
    assert!(service.index_file(first).unwrap().is_empty());

    let between = service.search_file_by_contents(&"alpha".to_string());
    assert_eq!(between.len(), 1000);
    assert!(service.search_file_by_contents(&"beta".to_string()).is_empty());

    let second: Vec<PreparedFile> = (0..1000)
        .map(|i| prepared(&service.ingestor, &format!("/corpus/beta-{}.txt", i), b"beta term"))
        .collect();
    assert!(service.index_file(second).unwrap().is_empty());

    assert_eq!(service.search_file_by_contents(&"beta".to_string()).len(), 1000);
    assert_eq!(service.search_file_by_contents(&"alpha".to_string()).len(), 1000);
}

#[test]
fn test_bootstrap_fresh_directory_serves_empty_results() {
    let dir = tempfile::TempDir::new().unwrap();
    let index_tmp = tempfile::Builder::new().tempdir_in(dir.path()).unwrap();
    let index_dir = index_tmp.path().to_str().unwrap().to_string();
    let db_path = dir.path().join("metadata.sqlite").to_str().unwrap().to_string();

    let ingestor = Ingestor::open_at(&index_dir, &db_path).unwrap();
    assert_eq!(ingestor.visible_doc_count(), 0);
    let service = FileIndexService::new(ingestor);
    assert!(service.search_file_by_contents(&"anything".to_string()).is_empty());
    assert!(service.find_duplicated_files(None).is_empty());
}

#[test]
fn test_loader_threshold_boundary() {
    assert!(!uses_mmap(BYTE_LOAD_THRESHOLD));
    assert!(uses_mmap(BYTE_LOAD_THRESHOLD + 1));
    assert_eq!(BYTE_LOAD_THRESHOLD, 1073741824);
}

#[test]
fn test_empty_query_yields_empty_results() {
    let mut service = in_memory_service();
    let batch = vec![prepared(&service.ingestor, "/a/readme.md", b"the quick brown fox")];
    service.index_file(batch).unwrap();
    assert!(service.search_file_by_contents(&"".to_string()).is_empty());
}
