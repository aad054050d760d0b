use ogham::models::{ResourceIndexType, StandardManifestItem};
use ogham::opf_parse::parse_opf_document;
use ogham::resource_index::{
    build_resource_index, classify_resource_type, index_item_from_manifest, resolve_reference_target, resource_items,
    scan_sources, should_scan,
};

const OPF: &str = r#"<?xml version="1.0" encoding="UTF-8"?>
<package>
  <metadata>
    <dc:identifier>book-id</dc:identifier>
    <dc:title>Book</dc:title>
  </metadata>
  <manifest>
    <item id="c1" href="Text/ch1.xhtml" media-type="application/xhtml+xml" />
    <item id="style" href="Styles/style.css" media-type="text/css" />
    <item id="cover" href="Images/cover.jpg" media-type="image/jpeg" />
    <item id="bg" href="Images/bg.png" media-type="image/png" />
    <item id="nav" href="nav.xhtml" media-type="application/xhtml+xml" properties="nav" />
  </manifest>
  <spine>
    <itemref idref="c1" />
  </spine>
</package>"#;

#[test]
fn builds_index_with_reverse_references_and_unresolved_edges() {
    let doc = parse_opf_document(OPF, "book").unwrap();
    let resources = resource_items(&doc);
    let sources = scan_sources(&resources);
    assert_eq!(
        sources,
        vec![
            "OEBPS/Text/ch1.xhtml".to_string(),
            "OEBPS/Styles/style.css".to_string(),
            "OEBPS/nav.xhtml".to_string()
        ]
    );
    let files = vec![
        (
            "OEBPS/Text/ch1.xhtml".to_string(),
            r#"<html><head><link href="../Styles/style.css" /></head><body><img src="../Images/cover.jpg" /></body></html>"#.to_string(),
        ),
        (
            "OEBPS/Styles/style.css".to_string(),
            r#".cover { background: url("../Images/bg.png"); } .missing { background: url("../Images/missing.png"); }"#.to_string(),
        ),
        ("OEBPS/nav.xhtml".to_string(), "<nav></nav>".to_string()),
    ];
    let index = build_resource_index("book", &doc, &files, 42).unwrap();
    let cover = index.resources.iter().find(|resource| resource.path == "OEBPS/Images/cover.jpg").unwrap();
    assert_eq!(cover.resource_type, ResourceIndexType::Image);
    assert!(cover.referenced_by.contains(&"OEBPS/Text/ch1.xhtml".to_string()));
    assert_eq!(index.unresolved_references.len(), 1);
    assert_eq!(index.unresolved_references[0].target_path.as_deref(), Some("OEBPS/Images/missing.png"));
    assert_eq!(index.generated_at, 42);
    assert_eq!(index.epub_id, "book");
    assert_eq!(index.references.len(), 4);
}

#[test]
fn referenced_by_lists_each_file_once_in_order() {
    let doc = parse_opf_document(OPF, "book").unwrap();
    let files = vec![
        ("OEBPS/Text/b.xhtml".to_string(), "<img src='../Images/cover.jpg'/><img src=\"../Images/cover.jpg\"/>".to_string()),
        ("OEBPS/Text/a.xhtml".to_string(), "<img src=\"/Images/cover.jpg\"/><a href=\"#x\">x</a>".to_string()),
    ];
    let index = build_resource_index("book", &doc, &files, 0).unwrap();
    let cover = index.resources.iter().find(|resource| resource.path == "OEBPS/Images/cover.jpg").unwrap();
    assert_eq!(cover.referenced_by, vec!["OEBPS/Text/a.xhtml".to_string(), "OEBPS/Text/b.xhtml".to_string()]);
    assert_eq!(index.references.len(), 3);
    assert!(index.references.iter().all(|r| r.is_resolved));
    assert_eq!(index.references[0].attribute, "src");
}

fn item(id: &str, href: &str, mt: &str, props: Option<Vec<&str>>) -> StandardManifestItem {
    StandardManifestItem {
        id: id.to_string(),
        href: href.to_string(),
        media_type: mt.to_string(),
        properties: props.map(|p| p.into_iter().map(|s| s.to_string()).collect()),
    }
}

#[test]
fn resource_kinds_follow_media_type_and_place() {
    assert_eq!(classify_resource_type(&item("n", "nav.xhtml", "application/xhtml+xml", None)), ResourceIndexType::Nav);
    assert_eq!(classify_resource_type(&item("t", "toc.ncx", "x", None)), ResourceIndexType::Ncx);
    assert_eq!(classify_resource_type(&item("c", "Text/a.xhtml", "application/xhtml+xml", None)), ResourceIndexType::Chapter);
    assert_eq!(classify_resource_type(&item("c", "a.xhtml", "application/xhtml+xml", None)), ResourceIndexType::Misc);
    assert_eq!(classify_resource_type(&item("f", "Fonts/a.woff", "font/woff", None)), ResourceIndexType::Font);
    assert_eq!(classify_resource_type(&item("p", "Text/x.xhtml", "text/html", Some(vec!["nav"]))), ResourceIndexType::Nav);
    let it = index_item_from_manifest(&item("s", "OEBPS/Styles/a.css", "text/css", None));
    assert_eq!(it.href, "Styles/a.css");
    assert_eq!(it.path, "OEBPS/Styles/a.css");
    assert!(should_scan(&it));
}

#[test]
fn reference_targets_resolve_into_the_package() {
    assert_eq!(resolve_reference_target("OEBPS/Text/a.xhtml", " ../Images/x.png#y "), Some("OEBPS/Images/x.png".to_string()));
    assert_eq!(resolve_reference_target("OEBPS/Text/a.xhtml", "/Images/x.png"), Some("OEBPS/Images/x.png".to_string()));
    assert_eq!(resolve_reference_target("OEBPS/Text/a.xhtml", "#top"), None);
    assert_eq!(resolve_reference_target("OEBPS/Text/a.xhtml", "https://e.com/x.png"), None);
    assert_eq!(resolve_reference_target("OEBPS/Text/a.xhtml", "OEBPS/Misc/m.bin"), Some("OEBPS/Misc/m.bin".to_string()));
}
