use ogham::opf_parse::{parse_manifest_item, parse_opf_document, parse_opf_events, parse_spine_itemref, XmlEvent, XmlTag};
use ogham::models::RefactorError;

#[test]
fn parse_opf_document_reads_manifest_spine_and_metadata() {
    let opf = r#"<?xml version="1.0" encoding="UTF-8"?>
<package>
  <metadata xmlns:dc="http://purl.org/dc/elements/1.1/">
    <dc:identifier id="book-id">id-1</dc:identifier>
    <dc:title>Title</dc:title>
    <dc:creator>Author</dc:creator>
    <dc:language>zh-CN</dc:language>
  </metadata>
  <manifest>
    <item id="nav" href="nav.xhtml" media-type="application/xhtml+xml" properties="nav" />
    <item id="c1" href="Text/c1.xhtml" media-type="application/xhtml+xml" />
  </manifest>
  <spine toc="ncx">
    <itemref idref="c1" linear="yes" />
  </spine>
</package>"#;

    let document = parse_opf_document(opf, "fallback").unwrap();

    assert_eq!(document.metadata.title, "Title");
    assert_eq!(document.manifest.items.len(), 2);
    assert_eq!(document.spine.itemrefs.len(), 1);
    assert_eq!(document.spine.itemrefs[0].idref, "c1");
}

#[test]
fn parsed_document_keeps_every_field() {
    let opf = r#"<package><metadata><dc:identifier>urn:1</dc:identifier><dc:creator> A </dc:creator>
<dc:language>en</dc:language></metadata>
<manifest><item id="a" href="Text/a.xhtml" media-type="application/xhtml+xml" properties=" nav  scripted "/>
<item href="no-id.css" media-type="text/css"/></manifest>
<spine><itemref idref="a" linear="no"/><itemref idref="b"/><itemref linear="yes"/></spine></package>"#;
    let doc = parse_opf_document(opf, "fb").unwrap();
    assert_eq!(doc.metadata.title, "fb");
    assert_eq!(doc.metadata.identifier, "urn:1");
    assert_eq!(doc.metadata.author, Some("A".to_string()));
    assert_eq!(doc.metadata.language, Some("en".to_string()));
    assert_eq!(doc.manifest.items.len(), 1);
    assert_eq!(
        doc.manifest.items[0].properties,
        Some(vec!["nav".to_string(), "scripted".to_string()])
    );
    assert_eq!(doc.spine.itemrefs.len(), 2);
    assert_eq!(doc.spine.itemrefs[0].linear, Some(false));
    assert_eq!(doc.spine.itemrefs[1].linear, None);
}

#[test]
fn malformed_xml_is_an_xml_error() {
    let r = parse_opf_document("<package><metadata></package>", "fb");
    match r {
        Err(RefactorError::XmlError(m)) => assert!(m.starts_with("解析 content.opf 失败: ")),
        _ => panic!("expected an XML error"),
    }
}

fn tag(name: &str, attrs: Vec<Result<(&str, &str), &str>>) -> XmlTag {
    XmlTag {
        name: name.to_string(),
        attributes: attrs
            .into_iter()
            .map(|a| a.map(|(k, v)| (k.to_string(), v.to_string())).map_err(|e| e.to_string()))
            .collect(),
    }
}

#[test]
fn unreadable_attribute_before_a_wanted_one_fails() {
    let t = tag("item", vec![Ok(("id", "a")), Err("bad"), Ok(("href", "x"))]);
    assert!(matches!(parse_manifest_item(&t), Err(e) if e == "bad"));
    let t = tag("itemref", vec![Ok(("idref", "a")), Ok(("linear", "no")), Err("bad")]);
    let r = parse_spine_itemref(&t).unwrap().unwrap();
    assert_eq!(r.idref, "a");
    assert_eq!(r.linear, Some(false));
}

#[test]
fn events_set_metadata_only_inside_their_element() {
    let events = vec![
        XmlEvent::Start(tag("dc:title", vec![])),
        XmlEvent::Text("  Book  ".to_string()),
        XmlEvent::End("dc:title".to_string()),
        XmlEvent::Text("stray".to_string()),
        XmlEvent::Empty(tag("dc:creator", vec![])),
        XmlEvent::Text("ignored".to_string()),
    ];
    let doc = parse_opf_events(&events, None, "fb").unwrap();
    assert_eq!(doc.metadata.title, "Book");
    assert_eq!(doc.metadata.author, None);
    let r = parse_opf_events(&events, Some("boom".to_string()), "fb");
    match r {
        Err(RefactorError::XmlError(m)) => assert_eq!(m, "解析 content.opf 失败: boom"),
        _ => panic!("expected an XML error"),
    }
}
