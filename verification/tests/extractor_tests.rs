use ogham::extractor::{
    chapter_content_from, chapter_resource_requests, convert_to_structure_result, guess_mime_type,
    replace_all_chars, resolve_path, rewrite_resource_urls,
};
use ogham::models::{EpubMetadata, Manifest, ManifestItem, ParsedEpub, ResourceData, Spine, SpineItemref};

#[test]
fn mime_types_follow_extensions() {
    assert_eq!(guess_mime_type("a/B.JPEG"), "image/jpeg");
    assert_eq!(guess_mime_type("x.woff2"), "font/woff2");
    assert_eq!(guess_mime_type("x.bin"), "application/octet-stream");
}

#[test]
fn relative_paths_follow_parent_links() {
    assert_eq!(resolve_path("OEBPS/Text", "../Images/a.png"), "OEBPS/Images/a.png");
    assert_eq!(resolve_path("OEBPS/Text", "./b.png"), "OEBPS/Text/b.png");
    assert_eq!(resolve_path("", "c.png"), "c.png");
    assert_eq!(resolve_path("A", "../../x.png"), "x.png");
}

#[test]
fn every_occurrence_is_replaced() {
    let s: Vec<char> = "aXbXXc".chars().collect();
    let r = replace_all_chars(&s, &['X'], &['y', 'z']);
    assert_eq!(r.into_iter().collect::<String>(), "ayzbyzyzc");
}

#[test]
fn chapter_requests_skip_links_and_styles() {
    let html = r##"<img src="../Images/a.png"/><a href="#n">n</a><link href="s.css"/><img src="data:x"/><a href="http://e.com">e</a><image xlink:href="../Images/b.svg"/>"##;
    let reqs = chapter_resource_requests(html, "OEBPS/Text/c.xhtml").unwrap();
    assert_eq!(
        reqs,
        vec![
            ("../Images/a.png".to_string(), "OEBPS/Images/a.png".to_string()),
            ("../Images/b.svg".to_string(), "OEBPS/Images/b.svg".to_string())
        ]
    );
}

#[test]
fn chapter_images_become_data_uris() {
    let html = r#"<img src="../Images/a.png"/><img src="../Images/a.png"/><a href="../Images/a.png">x</a>"#;
    let fetched = vec![
        ("../Images/a.png".to_string(), "OEBPS/Images/a.png".to_string(), Some(vec![1u8, 2, 3])),
        ("../Images/a.png".to_string(), "OEBPS/Images/a.png".to_string(), Some(vec![9u8])),
        ("../Images/gone.png".to_string(), "OEBPS/Images/gone.png".to_string(), None),
    ];
    let content = chapter_content_from(html, &fetched);
    assert_eq!(content.resources.len(), 1);
    assert_eq!(content.resources[0].1.mime_type, "image/png");
    assert_eq!(content.resources[0].1.data, "AQID");
    assert_eq!(
        content.html,
        r#"<img src="data:image/png;base64,AQID"/><img src="data:image/png;base64,AQID"/><a href="../Images/a.png">x</a>"#
    );
}

#[test]
fn non_image_resources_are_not_rewritten() {
    let res = vec![("f.ttf".to_string(), ResourceData { mime_type: "font/ttf".to_string(), data: "AA==".to_string() })];
    assert_eq!(rewrite_resource_urls("<x src=\"f.ttf\"/>", &res), "<x src=\"f.ttf\"/>");
}

#[test]
fn structure_lists_spine_chapters_and_resources() {
    let item = |id: &str, href: &str, mt: &str, props: Option<Vec<String>>| ManifestItem {
        id: id.to_string(),
        href: href.to_string(),
        media_type: mt.to_string(),
        properties: props,
    };
    let parsed = ParsedEpub {
        metadata: EpubMetadata { title: "T".to_string(), author: None, language: None, identifier: "i".to_string() },
        manifest: Manifest {
            items: vec![
                item("c1", "OEBPS/Text/one.xhtml", "application/xhtml+xml", None),
                item("css", "OEBPS/s.css", "text/css", None),
                item("img", "OEBPS/a.png", "image/png", None),
                item("ncx", "OEBPS/toc.ncx", "application/x-dtbncx+xml", None),
                item("nav", "OEBPS/nav.xhtml", "application/xhtml+xml", Some(vec!["nav".to_string()])),
            ],
        },
        spine: Spine {
            itemrefs: vec![
                SpineItemref { idref: "missing".to_string(), linear: None },
                SpineItemref { idref: "c1".to_string(), linear: None },
            ],
        },
        table_of_contents: None,
    };
    let r = convert_to_structure_result(&parsed, "OEBPS/content.opf");
    assert_eq!(r.oebps_path, "OEBPS");
    assert_eq!(r.chapters.len(), 1);
    assert_eq!(r.chapters[0].name, "one.xhtml");
    assert_eq!(r.chapters[0].order, 1);
    assert_eq!(r.styles, vec!["OEBPS/s.css".to_string()]);
    assert_eq!(r.images, vec!["OEBPS/a.png".to_string()]);
    assert_eq!(r.toc_ncx, Some("OEBPS/toc.ncx".to_string()));
    assert_eq!(r.nav_xhtml, Some("OEBPS/nav.xhtml".to_string()));
}

#[test]
fn base64_uses_the_standard_alphabet_with_padding() {
    assert_eq!(ogham::extractor::base64_of(b""), "");
    assert_eq!(ogham::extractor::base64_of(b"M"), "TQ==");
    assert_eq!(ogham::extractor::base64_of(b"Ma"), "TWE=");
    assert_eq!(ogham::extractor::base64_of(b"Man"), "TWFu");
    assert_eq!(ogham::extractor::base64_of(&[0xfb, 0xff, 0xbf]), "+/+/");
    assert_eq!(ogham::extractor::base64_of(&[1, 2, 3, 4]), "AQIDBA==");
}
