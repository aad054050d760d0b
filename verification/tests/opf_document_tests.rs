use ogham::models::{EpubMetadata, RefactorError, StandardManifest, StandardManifestItem, StandardSpine, StandardSpineItemref};
use ogham::opf_document::{
    append_manifest_item, make_unique_manifest_id, manifest_item_insertion, relative_href,
    render_manifest_item, render_spine, replace_xml_section, OpfDocument,
};

#[test]
fn replace_spine_keeps_surrounding_opf_content() {
    let opf = "<package><metadata></metadata><spine><itemref idref=\"old\" /></spine></package>";
    let spine = StandardSpine {
        itemrefs: vec![StandardSpineItemref {
            idref: "new".to_string(),
            linear: Some(true),
        }],
    };

    let updated = replace_xml_section(opf, "spine", &render_spine(&spine)).unwrap();

    assert!(updated.contains("idref=\"new\""));
    assert!(updated.contains("<metadata></metadata>"));
}

#[test]
fn make_unique_manifest_id_suffixes_existing_ids() {
    let manifest = StandardManifest {
        items: vec![StandardManifestItem {
            id: "img_cover".to_string(),
            href: "Images/cover.jpg".to_string(),
            media_type: "image/jpeg".to_string(),
            properties: None,
        }],
    };

    assert_eq!(
        make_unique_manifest_id(&manifest, "img_cover"),
        "img_cover_1"
    );
}

#[test]
fn manifest_ids_are_sanitized() {
    let manifest = StandardManifest { items: vec![] };
    assert_eq!(make_unique_manifest_id(&manifest, "__a b.c__"), "a_b_c");
    assert_eq!(make_unique_manifest_id(&manifest, "___"), "item");
}

#[test]
fn spine_and_manifest_rendering() {
    let spine = StandardSpine {
        itemrefs: vec![
            StandardSpineItemref { idref: "a".to_string(), linear: Some(true) },
            StandardSpineItemref { idref: "b&c".to_string(), linear: None },
        ],
    };
    assert_eq!(
        render_spine(&spine),
        "  <spine toc=\"ncx\">\n    <itemref idref=\"a\" linear=\"yes\" />\n    <itemref idref=\"b&amp;c\" />\n  </spine>"
    );
    let item = StandardManifestItem {
        id: "nav".to_string(),
        href: "nav.xhtml".to_string(),
        media_type: "application/xhtml+xml".to_string(),
        properties: Some(vec!["nav".to_string(), "scripted".to_string()]),
    };
    assert_eq!(
        render_manifest_item(&item),
        "    <item id=\"nav\" href=\"nav.xhtml\" media-type=\"application/xhtml+xml\" properties=\"nav scripted\" />"
    );
    assert_eq!(relative_href("OEBPS/Images/a.png"), "Images/a.png");
    assert!(replace_xml_section("<a></a>", "spine", "x").is_none());
}

fn image_item(href: &str) -> StandardManifestItem {
    StandardManifestItem {
        id: "img_1".to_string(),
        href: href.to_string(),
        media_type: "image/png".to_string(),
        properties: None,
    }
}

#[test]
fn append_manifest_item_inserts_after_opening_tag() {
    let opf = "<package><manifest id=\"m\"><item id=\"c1\" href=\"Text/c1.xhtml\" media-type=\"application/xhtml+xml\"/></manifest><spine></spine></package>";
    let updated = append_manifest_item(opf, &image_item("Images/a.png")).unwrap().unwrap();
    assert_eq!(
        updated,
        "<package><manifest id=\"m\">\n    <item id=\"img_1\" href=\"Images/a.png\" media-type=\"image/png\" /><item id=\"c1\" href=\"Text/c1.xhtml\" media-type=\"application/xhtml+xml\"/></manifest><spine></spine></package>"
    );
}

#[test]
fn append_manifest_item_leaves_listed_href_alone() {
    let opf = "<package><manifest><item id=\"x\" href=\"Images/a.png\" media-type=\"image/png\"/></manifest></package>";
    assert_eq!(append_manifest_item(opf, &image_item("Images/a.png")).unwrap(), None);
}

#[test]
fn append_manifest_item_without_manifest_is_invalid_structure() {
    let opf = "<package><spine></spine></package>";
    match append_manifest_item(opf, &image_item("Images/a.png")) {
        Err(RefactorError::InvalidStructure(m)) => assert_eq!(m, "content.opf 缺少 manifest 节点"),
        _ => panic!("expected an invalid structure error"),
    }
}

#[test]
fn manifest_item_insertion_needs_a_closed_opening_tag() {
    let doc = OpfDocument {
        metadata: EpubMetadata {
            title: "t".to_string(),
            author: None,
            language: None,
            identifier: "i".to_string(),
        },
        manifest: StandardManifest { items: vec![] },
        spine: StandardSpine { itemrefs: vec![] },
    };
    match manifest_item_insertion("<package><manifest", &doc, &image_item("a.png")) {
        Err(RefactorError::InvalidStructure(m)) => assert_eq!(m, "manifest 起始标签不完整"),
        _ => panic!("expected an invalid structure error"),
    }
}
