use ogham::analyzer::{
    build_file_map, categorize_resources, classify_resource_path, collect_toc_titles, identify_chapters,
    identify_special_files, infer_media_type, is_special_file, make_unique_inferred_id, sanitize_resource_id,
    sort_resource_files,
};
use ogham::discovery::{analyze_epub_structure, discover_unmanifested_resources, ZipEntry};
use ogham::epub_path;
use ogham::models::{
    EpubMetadata, Manifest, ManifestItem, NavPoint, ParsedEpub, RefactorError, ResourceCollection, ResourceFile,
    Spine, SpineItemref, Toc,
};

fn metadata() -> EpubMetadata {
    EpubMetadata { title: "book".to_string(), author: None, language: None, identifier: "id".to_string() }
}

fn item(id: &str, href: &str, media_type: &str, props: Option<Vec<&str>>) -> ManifestItem {
    ManifestItem {
        id: id.to_string(),
        href: href.to_string(),
        media_type: media_type.to_string(),
        properties: props.map(|p| p.into_iter().map(|s| s.to_string()).collect()),
    }
}

fn spine(ids: &[&str]) -> Spine {
    Spine { itemrefs: ids.iter().map(|id| SpineItemref { idref: id.to_string(), linear: None }).collect() }
}

#[test]
fn extract_title_matches_href_instead_of_manifest_id() {
    let parsed = ParsedEpub {
        metadata: metadata(),
        manifest: Manifest { items: Vec::new() },
        spine: Spine { itemrefs: Vec::new() },
        table_of_contents: Some(Toc {
            nav_points: vec![NavPoint {
                id: "nav-1".to_string(),
                label: "Chapter 1".to_string(),
                content_src: "Text/chapter1.xhtml#frag".to_string(),
                children: vec![],
            }],
        }),
    };

    let titles = collect_toc_titles(&parsed);
    assert_eq!(titles.get("Text/chapter1.xhtml"), Some(&"Chapter 1".to_string()));
}

#[test]
fn build_standard_path_preserves_nested_directories() {
    assert_eq!(
        epub_path::standard_path("Text", "Text/part1/chapter.xhtml", &["Text"]),
        "OEBPS/Text/part1/chapter.xhtml"
    );
    assert_eq!(
        epub_path::standard_path("Images", "images/covers/cover.jpg", &["Images", "Image"]),
        "OEBPS/Images/covers/cover.jpg"
    );
}

#[test]
fn analyzer_allocate_unique_paths_suffixes_collisions_case_insensitively() {
    let mut used = Vec::new();

    assert_eq!(epub_path::allocate_unique_path("OEBPS/Images/cover.jpg", &mut used), "OEBPS/Images/cover.jpg");
    assert_eq!(epub_path::allocate_unique_path("OEBPS/Images/COVER.jpg", &mut used), "OEBPS/Images/COVER-1.jpg");
}

#[test]
fn cover_images_remain_regular_image_resources() {
    let item = ManifestItem {
        id: "cover-image".to_string(),
        href: "Images/cover.jpg".to_string(),
        media_type: "image/jpeg".to_string(),
        properties: Some(vec!["cover".to_string()]),
    };

    assert!(!is_special_file(&item));
}

fn sample_parsed() -> ParsedEpub {
    ParsedEpub {
        metadata: metadata(),
        manifest: Manifest {
            items: vec![
                item("c1", "Text/one.xhtml", "application/xhtml+xml", None),
                item("nav", "nav.xhtml", "application/xhtml+xml", Some(vec!["nav"])),
                item("c2", "two.html", "text/html", None),
                item("img-b", "Images/b.png", "image/png", None),
                item("img-a", "images/a.png", "image/png", Some(vec!["cover"])),
                item("css", "Styles/s.css", "text/css", None),
                item("ncx", "toc.ncx", "application/x-dtbncx+xml", None),
                item("font", "f.otf", "font/otf", None),
            ],
        },
        spine: spine(&["nav", "c1", "c2", "c1"]),
        table_of_contents: Some(Toc {
            nav_points: vec![NavPoint {
                id: "n".to_string(),
                label: "One".to_string(),
                content_src: "Text/one.xhtml".to_string(),
                children: vec![],
            }],
        }),
    }
}

#[test]
fn chapters_follow_the_spine_once() {
    let chapters = identify_chapters(&sample_parsed()).ok().unwrap();
    assert_eq!(chapters.len(), 2);
    assert_eq!(chapters[0].id, "c1");
    assert_eq!(chapters[0].standard_path, "OEBPS/Text/one.xhtml");
    assert_eq!(chapters[0].title.as_deref(), Some("One"));
    assert_eq!(chapters[0].order, 1);
    assert_eq!(chapters[1].standard_path, "OEBPS/Text/two.html");
    assert_eq!(chapters[1].order, 2);
}

#[test]
fn spine_errors() {
    let mut parsed = sample_parsed();
    parsed.spine = spine(&["missing"]);
    match identify_chapters(&parsed) {
        Err(RefactorError::InvalidStructure(m)) => assert_eq!(m, "Spine 引用的项目 missing 在 manifest 中不存在"),
        _ => panic!("expected an invalid structure"),
    }
    parsed.spine = spine(&["css"]);
    match identify_chapters(&parsed) {
        Err(RefactorError::InvalidStructure(m)) => assert_eq!(m, "未找到任何章节文件"),
        _ => panic!("expected an invalid structure"),
    }
}

#[test]
fn resources_are_sorted_by_kind() {
    let parsed = sample_parsed();
    let chapters = identify_chapters(&parsed).ok().unwrap();
    let rc = categorize_resources(&parsed, &chapters).ok().unwrap();
    assert_eq!(rc.images.len(), 2);
    assert_eq!(rc.images[0].original_path, "Images/b.png");
    assert_eq!(rc.images[1].original_path, "images/a.png");
    assert_eq!(rc.images[1].standard_path, "OEBPS/Images/a.png");
    assert_eq!(rc.styles[0].standard_path, "OEBPS/Styles/s.css");
    assert_eq!(rc.fonts[0].standard_path, "OEBPS/Fonts/f.otf");
    assert!(rc.misc.is_empty());
    let sf = identify_special_files(&parsed).ok().unwrap();
    assert_eq!(sf.cover.as_deref(), Some("images/a.png"));
    assert_eq!(sf.nav.as_deref(), Some("nav.xhtml"));
    assert_eq!(sf.ncx.as_deref(), Some("toc.ncx"));
    let fm = build_file_map(&chapters, &rc, &sf);
    assert!(fm.original_to_standard.contains(&("toc.ncx".to_string(), "OEBPS/toc.ncx".to_string())));
    assert!(fm.standard_to_original.contains(&("OEBPS/nav.xhtml".to_string(), "nav.xhtml".to_string())));
}

#[test]
fn media_types_and_ids() {
    assert_eq!(infer_media_type("a/b/C.JPG"), "image/jpeg");
    assert_eq!(infer_media_type("x.woff2"), "font/woff2");
    assert_eq!(infer_media_type(".hidden"), "application/octet-stream");
    assert_eq!(infer_media_type("noext"), "application/octet-stream");
    assert_eq!(sanitize_resource_id("__a b__"), "a_b");
    assert_eq!(sanitize_resource_id("###"), "inferred_item");
    let mut used = vec!["inferred_pic".to_string()];
    assert_eq!(make_unique_inferred_id("Images/pic.jpg", &mut used), "inferred_pic_1");
    assert_eq!(make_unique_inferred_id("x/pic.png", &mut used), "inferred_pic_2");
    assert_eq!(classify_resource_path("text/css", "OEBPS/Style/a.css"), "OEBPS/Styles/a.css");
    assert_eq!(classify_resource_path("application/x-foo", "Misc/z.bin"), "OEBPS/Misc/z.bin");
}

#[test]
fn sorting_keeps_equal_paths_in_order() {
    let r = |id: &str, p: &str| ResourceFile {
        id: id.to_string(),
        original_path: p.to_string(),
        standard_path: String::new(),
        media_type: String::new(),
    };
    let sorted = sort_resource_files(vec![r("1", "b"), r("2", "a"), r("3", "b"), r("4", "B")]);
    let ids: Vec<&str> = sorted.iter().map(|x| x.id.as_str()).collect();
    assert_eq!(ids, vec!["4", "2", "1", "3"]);
}

fn entry(name: &str, text: Option<&str>) -> ZipEntry {
    ZipEntry { name: name.to_string(), is_dir: false, text: text.map(|t| t.to_string()) }
}

#[test]
fn discovers_images_outside_the_manifest() {
    let entries = vec![
        entry("OEBPS/Text/ch.xhtml", Some("<img src=\"../Images/pic.jpg\"/><link href=\"../Styles/x.css\"/><a href=\"http://e.com/\">")),
        entry("OEBPS/Images/pic.jpg", None),
        entry("OEBPS/Styles/x.css", Some("body { background: url('../Images/bg.png'); }")),
        entry("OEBPS/Images/bg.png", None),
    ];
    let chapters = vec![ogham::models::ExtendedChapterInfo {
        id: "ch".to_string(),
        original_path: "Text/ch.xhtml".to_string(),
        standard_path: "OEBPS/Text/ch.xhtml".to_string(),
        title: None,
        order: 0,
        media_type: "application/xhtml+xml".to_string(),
    }];
    let mut rc = ResourceCollection { styles: vec![], images: vec![], fonts: vec![], misc: vec![] };
    assert!(discover_unmanifested_resources(&entries, "OEBPS/content.opf", &chapters, &mut rc).is_ok());
    assert_eq!(rc.images.len(), 2);
    assert_eq!(rc.images[0].original_path, "OEBPS/Images/bg.png");
    assert_eq!(rc.images[0].id, "inferred_bg");
    assert_eq!(rc.images[1].original_path, "OEBPS/Images/pic.jpg");
    assert_eq!(rc.images[1].media_type, "image/jpeg");
    assert_eq!(rc.images[1].standard_path, "OEBPS/Images/pic.jpg");
    assert_eq!(rc.styles.len(), 1);
    assert_eq!(rc.styles[0].id, "inferred_x");
}

#[test]
fn analysis_gives_unique_paths() {
    let mut parsed = sample_parsed();
    parsed.manifest.items.push(item("c3", "Text/ONE.xhtml", "application/xhtml+xml", None));
    parsed.spine.itemrefs.push(SpineItemref { idref: "c3".to_string(), linear: None });
    let a = analyze_epub_structure(&parsed, "content.opf", &vec![]).ok().unwrap();
    assert_eq!(a.chapters.len(), 3);
    assert_eq!(a.chapters[2].standard_path, "OEBPS/Text/ONE-1.xhtml");
    assert_eq!(a.file_map.original_to_standard[0], ("Text/one.xhtml".to_string(), "OEBPS/Text/one.xhtml".to_string()));
}

#[test]
fn discovery_follows_references_only() {
    let entries = vec![
        entry("OEBPS/Text/ch.xhtml", Some("<link href=\"../Styles/a.css\"/>")),
        entry("OEBPS/Styles/a.css", Some("@import url(\"b.css\");")),
        entry("OEBPS/Styles/b.css", Some("p { background: url(../Images/deep.png) }")),
        entry("OEBPS/Images/deep.png", None),
        entry("OEBPS/Images/unused.png", None),
    ];
    let chapters = vec![ogham::models::ExtendedChapterInfo {
        id: "ch".to_string(),
        original_path: "Text/ch.xhtml".to_string(),
        standard_path: "OEBPS/Text/ch.xhtml".to_string(),
        title: None,
        order: 0,
        media_type: "application/xhtml+xml".to_string(),
    }];
    let mut rc = ResourceCollection { styles: vec![], images: vec![], fonts: vec![], misc: vec![] };
    assert!(discover_unmanifested_resources(&entries, "OEBPS/content.opf", &chapters, &mut rc).is_ok());
    let styles: Vec<&str> = rc.styles.iter().map(|r| r.original_path.as_str()).collect();
    assert_eq!(styles, vec!["OEBPS/Styles/a.css", "OEBPS/Styles/b.css"]);
    let images: Vec<&str> = rc.images.iter().map(|r| r.original_path.as_str()).collect();
    assert_eq!(images, vec!["OEBPS/Images/deep.png"]);
}

#[test]
fn file_map_is_its_own_inverse_on_a_sample() {
    let parsed = sample_parsed();
    let chapters = identify_chapters(&parsed).ok().unwrap();
    let rc = categorize_resources(&parsed, &chapters).ok().unwrap();
    let sf = identify_special_files(&parsed).ok().unwrap();
    let fm = build_file_map(&chapters, &rc, &sf);
    assert_eq!(fm.original_to_standard.len(), fm.standard_to_original.len());
    for (o, s) in fm.original_to_standard.iter() {
        assert!(fm.standard_to_original.contains(&(s.clone(), o.clone())));
        assert_eq!(fm.original_to_standard.iter().filter(|p| &p.0 == o).count(), 1);
    }
    for c in chapters.iter() {
        assert!(fm.original_to_standard.contains(&(c.original_path.clone(), c.standard_path.clone())));
    }
}
