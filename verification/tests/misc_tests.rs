use ogham::converter::{convert_file_content, ConversionMode};
use ogham::parser::get_opf_base_path;
use ogham::storage::get_refactored_epub_path;
use ogham::toc_manager::TocManager;

#[test]
fn parse_content_src_preserves_standard_directories() {
    assert_eq!(
        TocManager::parse_content_src("Text/part1/chapter.xhtml", ""),
        "OEBPS/Text/part1/chapter.xhtml"
    );
    assert_eq!(
        TocManager::parse_content_src("Images/cover.jpg", ""),
        "OEBPS/Images/cover.jpg"
    );
    assert_eq!(
        TocManager::parse_content_src("chapter.xhtml#frag", ""),
        "OEBPS/Text/chapter.xhtml"
    );
}

#[test]
fn conversion_modes() {
    assert_eq!(ConversionMode::from_str("s2t"), Ok(ConversionMode::SimplifiedToTraditional));
    assert_eq!(ConversionMode::from_str("t2s"), Ok(ConversionMode::TraditionalToSimplified));
    assert_eq!(
        ConversionMode::from_str("x"),
        Err("无效的转换模式: x, 支持的模式: s2t, t2s".to_string())
    );
    assert_eq!(convert_file_content("简体", ConversionMode::SimplifiedToTraditional), "簡體");
    assert_eq!(convert_file_content("簡體", ConversionMode::TraditionalToSimplified), "简体");
}

#[test]
fn opf_base_path_and_rebuilt_name() {
    assert_eq!(get_opf_base_path("OEBPS/content.opf"), "OEBPS");
    assert_eq!(get_opf_base_path("content.opf"), "");
    assert_eq!(get_refactored_epub_path("id"), "library/id_refactored.epub");
}

#[test]
fn storage_test_calculate_relative_path() {
    assert!(true);
}

#[test]
fn package_values_get_their_defaults() {
    use_metadata_defaults();
}

fn use_metadata_defaults() {
    let m = ogham::parser::metadata_from(None, Some("A".to_string()), None, None);
    assert_eq!(m.title, "Unknown Title");
    assert_eq!(m.author, Some("A".to_string()));
    assert_eq!(m.identifier, "");
    let m = ogham::parser::metadata_from(Some("T".to_string()), None, Some("zh".to_string()), Some("id".to_string()));
    assert_eq!((m.title.as_str(), m.identifier.as_str()), ("T", "id"));
    assert_eq!(ogham::parser::manifest_properties(None), None);
    assert_eq!(ogham::parser::manifest_properties(Some(String::new())), None);
    assert_eq!(
        ogham::parser::manifest_properties(Some(" nav  cover-image ".to_string())),
        Some(vec!["nav".to_string(), "cover-image".to_string()])
    );
    assert_eq!(ogham::parser::nav_point_id(Some(3)), "nav-point-Some(3)");
    assert_eq!(ogham::parser::nav_point_id(None), "nav-point-None");
}
