use ogham::launch::{collect_epub_open_paths, open_arg_path};
use ogham::converter::{ConversionAction, ConversionFile, ConversionRun};

#[test]
fn open_arguments_lose_quotes_and_file_scheme() {
    assert_eq!(open_arg_path("  \"/books/a.epub\" "), Some("/books/a.epub".to_string()));
    assert_eq!(open_arg_path("file:///books/b.epub"), Some("/books/b.epub".to_string()));
    assert_eq!(open_arg_path(" \"\" "), None);
}

#[test]
fn open_paths_are_kept_once_ignoring_case() {
    let paths = vec!["/A.epub".to_string(), "/b.epub".to_string(), "/a.EPUB".to_string()];
    assert_eq!(collect_epub_open_paths(&paths), vec!["/A.epub".to_string(), "/b.epub".to_string()]);
}

#[test]
fn conversion_run_reports_every_file() {
    let files = vec![
        ConversionFile { path: "/s/OEBPS/a.xhtml".to_string(), display_path: "OEBPS/a.xhtml".to_string() },
        ConversionFile { path: "/s/OEBPS/b.css".to_string(), display_path: "OEBPS/b.css".to_string() },
    ];
    let mut run = ConversionRun::new("t", files);
    let mut stages = Vec::new();
    let mut converted = Vec::new();
    let result = loop {
        match run.step() {
            ConversionAction::Progress { stage, processed_files, .. } => stages.push((stage, processed_files)),
            ConversionAction::Convert { path } => converted.push(path),
            ConversionAction::Finished(r) => break r,
        }
    };
    assert_eq!(converted, vec!["/s/OEBPS/a.xhtml".to_string(), "/s/OEBPS/b.css".to_string()]);
    assert_eq!(
        stages,
        vec![
            ("started".to_string(), 0),
            ("converting".to_string(), 1),
            ("converting".to_string(), 2),
            ("completed".to_string(), 2)
        ]
    );
    assert_eq!(result.files_converted, 2);
    assert_eq!(result.total_files, 2);
}

#[test]
fn epub_extension_is_matched_ignoring_case() {
    assert!(ogham::launch::is_epub_extension("epub"));
    assert!(ogham::launch::is_epub_extension("EPUB"));
    assert!(!ogham::launch::is_epub_extension("zip"));
    assert!(!ogham::launch::is_epub_extension("epub2"));
}

#[test]
fn zip_signature_is_the_local_file_header() {
    assert!(ogham::launch::has_zip_signature(&[0x50, 0x4B, 0x03, 0x04]));
    assert!(!ogham::launch::has_zip_signature(&[0x50, 0x4B, 0x05, 0x06]));
    assert!(!ogham::launch::has_zip_signature(&[0x50, 0x4B]));
}
