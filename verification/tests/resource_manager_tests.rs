use ogham::models::FileMap;
use ogham::resource_manager::{find_standard_path, rewrite_resource_paths, rewrite_single_reference, updated_file_content};

fn map(pairs: &[(&str, &str)]) -> FileMap {
    FileMap {
        original_to_standard: pairs.iter().map(|(a, b)| (a.to_string(), b.to_string())).collect(),
        standard_to_original: pairs.iter().map(|(a, b)| (b.to_string(), a.to_string())).collect(),
    }
}

#[test]
fn test_rewrite_resource_paths() {
    let file_map = map(&[("OEBPS/Images/cover.jpg", "OEBPS/Images/cover.jpg")]);
    let html = r#"<html><body><img src="../Images/cover.jpg" /></body></html>"#;
    let result = rewrite_resource_paths(html, "OEBPS/Text", "OEBPS/Text", &file_map);
    assert!(result.contains("src=\"../Images/cover.jpg\""));
}

#[test]
fn test_rewrite_same_dir_image_ref() {
    let file_map = map(&[("cover.png", "OEBPS/Images/cover.png")]);
    let html = r#"<html><body><svg><image xlink:href="cover.png"/></svg></body></html>"#;
    let result = rewrite_resource_paths(html, "", "OEBPS/Text", &file_map);
    assert!(result.contains("xlink:href=\"../Images/cover.png\""));
}

#[test]
fn test_rewrite_chapter_href_preserves_anchor() {
    let file_map = map(&[("OEBPS/Text/chapter2.xhtml", "OEBPS/Text/chapter2.xhtml")]);
    let html = r#"<a href="chapter2.xhtml#section-2">Next</a>"#;
    let result = rewrite_resource_paths(html, "OEBPS/Text", "OEBPS/Text", &file_map);
    assert!(result.contains("href=\"chapter2.xhtml#section-2\""));
}

#[test]
fn test_rewrite_css_url_paths() {
    let file_map = map(&[("OEBPS/images/bg.png", "OEBPS/Images/bg.png")]);
    let css = r#".cover { background-image: url("../images/bg.png"); }"#;
    let result = rewrite_resource_paths(css, "OEBPS/css", "OEBPS/Styles", &file_map);
    assert!(result.contains("url(\"../Images/bg.png\")"));
}

#[test]
fn rewriting_keeps_unknown_and_external_references() {
    let file_map = map(&[("a.png", "OEBPS/Images/a.png")]);
    let html = r#"<a href="http://x.org/a.png">x</a><img src="missing.png"/> url(a.png) url( 'a.png' )"#;
    let result = rewrite_resource_paths(html, "", "OEBPS/Text", &file_map);
    assert_eq!(
        result,
        r#"<a href="http://x.org/a.png">x</a><img src="missing.png"/> url(../Images/a.png) url('../Images/a.png')"#
    );
}

#[test]
fn standard_paths_are_found_several_ways() {
    let file_map = map(&[("Text/a.xhtml", "OEBPS/Text/a.xhtml"), ("OEBPS/b.css", "OEBPS/Styles/b.css")]);
    assert_eq!(find_standard_path("OEBPS/Text/a.xhtml", &file_map).as_deref(), Some("OEBPS/Text/a.xhtml"));
    assert_eq!(find_standard_path("b.css", &file_map).as_deref(), Some("OEBPS/Styles/b.css"));
    assert_eq!(find_standard_path("text/A.xhtml", &file_map).as_deref(), Some("OEBPS/Text/a.xhtml"));
    assert_eq!(find_standard_path("OEBPS/other.png", &file_map).as_deref(), Some("OEBPS/other.png"));
    assert_eq!(find_standard_path("other.png", &file_map), None);
    assert_eq!(
        rewrite_single_reference(" a.xhtml?q=1#x ", "Text", "OEBPS/Styles", &file_map).as_deref(),
        Some("../Text/a.xhtml?q=1#x")
    );
    assert_eq!(rewrite_single_reference("#only", "Text", "OEBPS/Text", &file_map), None);
    assert_eq!(updated_file_content("plain", "Text/a.xhtml", "OEBPS/Text/a.xhtml", &file_map), None);
}
