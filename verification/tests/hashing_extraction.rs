use dscvr::errors::FileError;
use dscvr::extraction::{extractor_for, ClearTextConversion, ExtractorKind, NoOpConversion};
use dscvr::hashing::{DefaultFileHash, FileHash};
use dscvr::mime::MimeType;
use dscvr::pipeline::{finish_prepare_pdf, Ingestor, PendingPdf, Preparation};
use dscvr::scanned_file::ScannedFile;

#[test]
fn test_hash_is_64_lowercase_hex() {
    let hasher = DefaultFileHash::new();
    let hash = hasher.calculate_hash(&b"some file contents".to_vec()).unwrap();
    assert_eq!(hash.len(), 64);
    assert!(hash.chars().all(|c| c.is_ascii_hexdigit() && !c.is_ascii_uppercase()));
}

#[test]
fn test_hash_of_empty_input_matches_known_digest() {
    let hasher = DefaultFileHash::new();
    let hash = hasher.calculate_hash(&Vec::new()).unwrap();
    assert_eq!(
        hash,
        "af1349b9f5f9a1a6a0404dea36dcc9499bcb25c9adc112b7cc9a93cae41f3262"
    );
}

#[test]
fn test_hash_is_deterministic_and_content_sensitive() {
    let hasher = DefaultFileHash::new();
    let a = hasher.calculate_hash(&b"alpha".to_vec()).unwrap();
    let b = hasher.calculate_hash(&b"alpha".to_vec()).unwrap();
    let c = hasher.calculate_hash(&b"beta".to_vec()).unwrap();
    assert_eq!(a, b);
    assert_ne!(a, c);
}

#[test]
fn test_scanner_hasher_reports_no_digest() {
    let hasher = FileHash::new();
    assert_eq!(hasher.calculate_hash("/a/b.txt").unwrap(), "");
}

#[test]
fn test_clear_text_decodes_utf8() {
    let conversion = ClearTextConversion::new();
    let text = conversion.convert("\u{3b1}\u{3b2}\u{3b3} hello".as_bytes()).unwrap();
    assert_eq!(text, "\u{3b1}\u{3b2}\u{3b3} hello");
}

#[test]
fn test_clear_text_rejects_invalid_utf8() {
    let conversion = ClearTextConversion::new();
    let result = conversion.convert(&[0xff, 0xfe, b'a']);
    assert_eq!(result.unwrap_err(), FileError::Decode);
}

#[test]
fn test_noop_conversion_returns_empty_text() {
    let conversion = NoOpConversion::new();
    assert_eq!(conversion.convert(&[1, 2, 3]).unwrap(), "");
}

#[test]
fn test_pdf_preparation_goes_through_the_caller() {
    // A file resolved as PDF is not extracted in-library: preparation
    // hands back a pending request carrying the authoritative hash, and
    // the caller-run extraction outcome finishes it.
    let ingestor = Ingestor::open_in_memory().unwrap();
    let file = ScannedFile { path: "/a/doc.pdf".to_string() };
    let bytes = b"this is not a portable document".to_vec();
    let pending = match ingestor.begin_prepare(&file, &bytes) {
        Preparation::NeedsPdfText(pending) => pending,
        Preparation::Done(_) => panic!("a pdf must come back pending"),
    };
    assert_eq!(pending.path, "/a/doc.pdf");
    assert_eq!(pending.size, bytes.len() as u64);
    assert_eq!(pending.hash.len(), 64);

    let extracted = pdf_extract::extract_text_from_mem(&bytes).map_err(|_| FileError::Extraction);
    let prepared = finish_prepare_pdf(pending, extracted);
    assert_eq!(prepared.outcome.unwrap_err(), FileError::Extraction);
}

#[test]
fn test_finish_prepare_pdf_keeps_the_fixed_hash() {
    let pending = PendingPdf {
        path: "/a/doc.pdf".to_string(),
        size: 9,
        hash: "0123456789012345678901234567890123456789012345678901234567890123".to_string(),
    };
    let prepared = finish_prepare_pdf(pending, Ok("running text".to_string()));
    let doc = prepared.outcome.unwrap();
    assert_eq!(doc.path, "/a/doc.pdf");
    assert_eq!(doc.contents, "running text");
    assert_eq!(
        doc.hash,
        "0123456789012345678901234567890123456789012345678901234567890123"
    );
}

#[test]
fn test_extractor_registry_covers_every_category() {
    assert_eq!(extractor_for(MimeType::TextPlain), ExtractorKind::ClearText);
    assert_eq!(extractor_for(MimeType::ApplicationPdf), ExtractorKind::Pdf);
    assert_eq!(extractor_for(MimeType::ImagePng), ExtractorKind::NoOp);
    assert_eq!(extractor_for(MimeType::ApplicationMsWord), ExtractorKind::NoOp);
    assert_eq!(extractor_for(MimeType::ImageWebp), ExtractorKind::NoOp);
    assert_eq!(extractor_for(MimeType::ApplicationRtf), ExtractorKind::NoOp);
}
