use ogham::epub_path::{
    allocate_unique_path, append_filename_suffix, casefold, filename, has_standard_dir_prefix,
    is_text_document_href, is_text_like_file, manifest_path, normalize, normalize_reference,
    parent, reference_anchor, relative_path, resolve_relative, should_skip_reference,
    split_reference_suffix, standard_path, strip_oebps_prefix, to_opf_href,
    to_standard_content_path,
};

#[test]
fn split_reference_suffix_preserves_anchor_and_query() {
    assert_eq!(
        split_reference_suffix("Text/chapter.xhtml?x=1#p2"),
        ("Text/chapter.xhtml", "?x=1#p2")
    );
    assert_eq!(
        normalize_reference(r#".\Text\chapter.xhtml#frag"#),
        "Text/chapter.xhtml#frag"
    );
    assert_eq!(
        normalize_reference("Text/Character%20Profile1.xhtml#frag"),
        "Text/Character Profile1.xhtml#frag"
    );
}

#[test]
fn standard_path_preserves_nested_directories() {
    assert_eq!(
        standard_path("Text", "Text/part1/chapter.xhtml", &["Text"]),
        "OEBPS/Text/part1/chapter.xhtml"
    );
    assert_eq!(
        standard_path("Images", "images/covers/cover.jpg", &["Images", "Image"]),
        "OEBPS/Images/covers/cover.jpg"
    );
}

#[test]
fn epub_path_allocate_unique_paths_suffixes_collisions_case_insensitively() {
    let mut used = Vec::new();

    assert_eq!(
        allocate_unique_path("OEBPS/Images/cover.jpg", &mut used),
        "OEBPS/Images/cover.jpg"
    );
    assert_eq!(
        allocate_unique_path("OEBPS/Images/COVER.jpg", &mut used),
        "OEBPS/Images/COVER-1.jpg"
    );
}

#[test]
fn resolves_and_calculates_relative_paths() {
    assert_eq!(
        resolve_relative("OEBPS/Text", "../Images/cover.jpg"),
        "OEBPS/Images/cover.jpg"
    );
    assert_eq!(
        relative_path("OEBPS/Text", "OEBPS/Images/cover.jpg"),
        "../Images/cover.jpg"
    );
    assert_eq!(
        relative_path("OEBPS", "OEBPS/Text/chapter1.xhtml"),
        "Text/chapter1.xhtml"
    );
}

#[test]
fn test_resolve_relative_path() {
    assert_eq!(
        resolve_relative("OEBPS/Text", "../Images/cover.jpg"),
        "OEBPS/Images/cover.jpg"
    );
    assert_eq!(
        resolve_relative("OEBPS/Text", "chapter2.xhtml"),
        "OEBPS/Text/chapter2.xhtml"
    );
}

#[test]
fn resource_manager_test_calculate_relative_path() {
    assert_eq!(
        relative_path("OEBPS/Text", "OEBPS/Images/cover.jpg"),
        "../Images/cover.jpg"
    );
    assert_eq!(
        relative_path("OEBPS/Text", "OEBPS/Styles/style.css"),
        "../Styles/style.css"
    );
    assert_eq!(
        relative_path("OEBPS", "OEBPS/Text/chapter1.xhtml"),
        "Text/chapter1.xhtml"
    );
}

#[test]
fn normalize_decodes_and_strips_prefixes() {
    assert_eq!(normalize("/./Text/a%20b.xhtml?q#f"), "Text/a b.xhtml");
    assert_eq!(normalize("Text/%E4%B8%AD.xhtml"), "Text/中.xhtml");
    assert_eq!(normalize("Text/%ZZ.xhtml"), "Text/%ZZ.xhtml");
    assert_eq!(normalize("Text/%FF.xhtml"), "Text/%FF.xhtml");
    assert_eq!(normalize("\\Text\\ch.xhtml"), "Text/ch.xhtml");
}

#[test]
fn oebps_prefix_is_added_and_removed() {
    assert_eq!(strip_oebps_prefix("OEBPS/Text/a.xhtml"), "Text/a.xhtml");
    assert_eq!(to_opf_href("Images/a.png"), "Images/a.png");
    assert_eq!(manifest_path("Images/a.png"), "OEBPS/Images/a.png");
    assert_eq!(manifest_path("OEBPS/Images/a.png"), "OEBPS/Images/a.png");
    assert_eq!(to_opf_href(&manifest_path("Styles/s.css")), "Styles/s.css");
}

#[test]
fn parent_filename_and_casefold() {
    assert_eq!(parent("OEBPS/Text/a.xhtml#x"), "OEBPS/Text");
    assert_eq!(parent("a.xhtml"), "");
    assert_eq!(filename("OEBPS/Text/a.xhtml"), "a.xhtml");
    assert_eq!(filename("a.xhtml"), "a.xhtml");
    assert_eq!(casefold("OEBPS/Text/A.XHTML"), "oebps/text/a.xhtml");
}

#[test]
fn filename_suffix_goes_before_extension() {
    assert_eq!(append_filename_suffix("OEBPS/Images/cover.jpg", 12), "OEBPS/Images/cover-12.jpg");
    assert_eq!(append_filename_suffix("README", 3), "README-3");
}

#[test]
fn skipped_references() {
    assert!(should_skip_reference("  #frag"));
    assert!(should_skip_reference("DATA:image/png;base64,AAA"));
    assert!(should_skip_reference("https://example.com/a.png"));
    assert!(should_skip_reference("mailto:a@b"));
    assert!(should_skip_reference("javascript:void(0)"));
    assert!(!should_skip_reference("../Images/a.png"));
}

#[test]
fn standard_content_paths() {
    assert_eq!(to_standard_content_path(""), "");
    assert_eq!(to_standard_content_path("OEBPS/Text/a.xhtml"), "OEBPS/Text/a.xhtml");
    assert_eq!(to_standard_content_path("Images/a.png"), "OEBPS/Images/a.png");
    assert_eq!(to_standard_content_path("a.xhtml#x"), "OEBPS/Text/a.xhtml");
    assert_eq!(to_standard_content_path("toc.ncx"), "OEBPS/toc.ncx");
    assert!(has_standard_dir_prefix("Misc/x.bin"));
    assert!(!has_standard_dir_prefix("text/x.xhtml"));
    assert!(is_text_document_href("A.HTML"));
    assert!(!is_text_document_href("a.css"));
    assert!(is_text_like_file("s.CSS"));
    assert!(!is_text_like_file("a.png"));
}

#[test]
fn anchors_of_references() {
    assert_eq!(reference_anchor("Text/a.xhtml?x=1#p2").as_deref(), Some("p2"));
    assert_eq!(reference_anchor("#p1").as_deref(), Some("p1"));
    assert_eq!(reference_anchor("a.xhtml#"), None);
    assert_eq!(reference_anchor("a.xhtml"), None);
}

#[test]
fn relative_then_resolve_returns_target() {
    let from = "OEBPS/Text/part1";
    let to = "OEBPS/Images/covers/cover.jpg";
    let rel = relative_path(from, to);
    assert_eq!(rel, "../../Images/covers/cover.jpg");
    assert_eq!(resolve_relative(from, &rel), to);
}

#[test]
fn manifest_href_and_package_path_undo_each_other() {
    assert_eq!(manifest_path("Images/cover.jpg"), "OEBPS/Images/cover.jpg");
    assert_eq!(to_opf_href("OEBPS/Images/cover.jpg"), "Images/cover.jpg");
    for h in ["Images/cover.jpg", "OEBPS/Text/a.xhtml", "Styles/s.css"] {
        assert!(manifest_path(h).starts_with("OEBPS/"));
        assert!(!to_opf_href(h).starts_with("OEBPS/"));
        assert_eq!(to_opf_href(&manifest_path(h)), to_opf_href(h));
        assert_eq!(manifest_path(&to_opf_href(h)), manifest_path(h));
    }
}
