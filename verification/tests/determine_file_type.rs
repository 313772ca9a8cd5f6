use dscvr::determine_file_type::{
    DefaultDetermineFileTypeFactory, DetermineFileTypeByExtensionFactory,
    DetermineFileTypeByHumanReadability, DetermineFileTypeLibMagic,
};
use dscvr::mime::MimeType;
use dscvr::scanned_file::ScannedFile;

#[test]
fn test_if_file_name_ending_with_pdf_returns_pdf() {
    let file = ScannedFile {
        path: "/home/user/documents/important-pdf.pdf".to_string(),
    };
    let strategy_under_test = DetermineFileTypeByExtensionFactory::create();

    let result = strategy_under_test.determine(&file);

    assert!(result.is_some());
    assert_eq!(result.unwrap(), MimeType::ApplicationPdf);
}

#[test]
fn test_if_file_name_without_ending_returns_nothing() {
    let file = ScannedFile {
        path: "/home/user/.local/bin/important-script".to_string(),
    };
    let strategy_under_test = DetermineFileTypeByExtensionFactory::create();

    let result = strategy_under_test.determine(&file);

    assert!(result.is_none());
}

#[test]
fn test_extension_lookup_lowercases() {
    let file = ScannedFile {
        path: "/home/user/NOTES.TXT".to_string(),
    };
    let strategy = DetermineFileTypeByExtensionFactory::create();
    assert_eq!(strategy.determine(&file), Some(MimeType::TextPlain));
}

#[test]
fn test_dotfile_has_no_extension() {
    let strategy = DetermineFileTypeByExtensionFactory::create();
    let file = ScannedFile {
        path: "/repo/.gitignore".to_string(),
    };
    assert!(strategy.determine(&file).is_none());

    // With a stem before the dot the same suffix is an extension.
    let file = ScannedFile {
        path: "/repo/project.gitignore".to_string(),
    };
    assert_eq!(strategy.determine(&file), Some(MimeType::TextPlain));
}

#[test]
fn test_known_extensions_map_to_their_categories() {
    let strategy = DetermineFileTypeByExtensionFactory::create();
    let cases = vec![
        ("/a/b.docx", MimeType::ApplicationVndOpenxmlformatsOfficedocumentWordprocessingmlDocument),
        ("/a/b.jpeg", MimeType::ImageJpeg),
        ("/a/b.jpg", MimeType::ImageJpeg),
        ("/a/b.xlsx", MimeType::ApplicationVndOpenxmlformatsOfficedocumentSpreadsheetmlSheet),
        ("/a/b.svg", MimeType::ImageSvgXml),
        ("/a/b.rs", MimeType::TextPlain),
    ];
    for (path, expected) in cases {
        let file = ScannedFile { path: path.to_string() };
        assert_eq!(strategy.determine(&file), Some(expected));
    }
}

#[test]
fn test_readability_threshold_is_strict() {
    let strategy = DetermineFileTypeByHumanReadability::new();
    // Exactly 7 of 10 readable bytes: the fraction does not strictly
    // exceed 7/10, so the strategy passes.
    let mut bytes = vec![b'a'; 7];
    bytes.extend_from_slice(&[0u8, 0u8, 0u8]);
    assert!(strategy.determine_from_bytes(&bytes).is_none());

    // 8 of 10 exceeds the threshold.
    let mut bytes = vec![b'a'; 8];
    bytes.extend_from_slice(&[0u8, 0u8]);
    assert_eq!(strategy.determine_from_bytes(&bytes), Some(MimeType::TextPlain));
}

#[test]
fn test_empty_bytes_are_not_readable() {
    let strategy = DetermineFileTypeByHumanReadability::new();
    assert!(strategy.determine_from_bytes(&[]).is_none());
}

#[test]
fn test_magic_slot_always_passes() {
    let strategy = DetermineFileTypeLibMagic::new();
    let file = ScannedFile { path: "/a/b.png".to_string() };
    assert!(strategy.determine(&file).is_none());
}

#[test]
fn test_cascade_prefers_extension_then_readability() {
    let cascade = DefaultDetermineFileTypeFactory::create();
    // Extension wins even over unreadable bytes.
    let file = ScannedFile { path: "/a/image.png".to_string() };
    assert_eq!(cascade.determine(&file, &[0u8, 1, 2, 3]), Some(MimeType::ImagePng));

    // No extension entry, readable bytes: the heuristic decides.
    let file = ScannedFile { path: "/a/unknown.xyz".to_string() };
    assert_eq!(
        cascade.determine(&file, b"perfectly readable text"),
        Some(MimeType::TextPlain)
    );

    // No extension entry, half the bytes binary: nothing decides.
    let mut bytes = vec![b'a'; 8];
    bytes.extend_from_slice(&[0u8; 8]);
    assert!(cascade.determine(&file, &bytes).is_none());
}
