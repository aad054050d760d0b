use ogham::library::{resolve_chapter_href, resolve_chapter_reference_path, resolve_manifest_chapter_path};
use ogham::models::{RefactorError, StandardManifest, StandardManifestItem};

fn test_manifest() -> StandardManifest {
    StandardManifest {
        items: vec![
            chapter_item("chapter-1", "Text/ch1.xhtml"),
            chapter_item("chapter-2", "Text/ch2.xhtml"),
            StandardManifestItem {
                id: "nav".to_string(),
                href: "nav.xhtml".to_string(),
                media_type: "application/xhtml+xml".to_string(),
                properties: Some(vec!["nav".to_string()]),
            },
        ],
    }
}

fn chapter_item(id: &str, href: &str) -> StandardManifestItem {
    StandardManifestItem {
        id: id.to_string(),
        href: href.to_string(),
        media_type: "application/xhtml+xml".to_string(),
        properties: None,
    }
}

#[test]
fn resolves_current_chapter_relative_href() {
    let resolved =
        resolve_chapter_href(&test_manifest(), Some("OEBPS/Text/ch1.xhtml"), "ch2.xhtml#p2").unwrap();

    assert_eq!(resolved.chapter_path.as_deref(), Some("OEBPS/Text/ch2.xhtml"));
    assert_eq!(resolved.anchor.as_deref(), Some("p2"));
    assert!(!resolved.same_chapter);
}

#[test]
fn resolves_opf_relative_text_href_without_double_text_prefix() {
    let resolved = resolve_chapter_href(
        &test_manifest(),
        Some("OEBPS/Text/ch1.xhtml"),
        "Text/ch2.xhtml?x=1#p2",
    )
    .unwrap();

    assert_eq!(resolved.chapter_path.as_deref(), Some("OEBPS/Text/ch2.xhtml"));
    assert_eq!(resolved.anchor.as_deref(), Some("p2"));
    assert!(!resolved.same_chapter);
}

#[test]
fn resolves_fragment_only_href_to_current_chapter() {
    let resolved =
        resolve_chapter_href(&test_manifest(), Some("OEBPS/Text/ch1.xhtml"), "#p1").unwrap();

    assert_eq!(resolved.chapter_path.as_deref(), Some("OEBPS/Text/ch1.xhtml"));
    assert_eq!(resolved.anchor.as_deref(), Some("p1"));
    assert!(resolved.same_chapter);
}

#[test]
fn blank_and_missing_links() {
    let blank = resolve_chapter_href(&test_manifest(), None, "   ").unwrap();
    assert_eq!(blank.chapter_path, None);
    assert_eq!(blank.anchor, None);
    assert!(!blank.same_chapter);

    match resolve_chapter_href(&test_manifest(), None, " nav.xhtml ") {
        Err(RefactorError::MissingFile(m)) => assert_eq!(m, "链接目标章节不存在: nav.xhtml"),
        _ => panic!("expected a missing file"),
    }
}

#[test]
fn same_chapter_ignores_case() {
    let r = resolve_chapter_href(&test_manifest(), Some("oebps/text/CH1.xhtml"), "ch1.xhtml").unwrap();
    assert_eq!(r.chapter_path.as_deref(), Some("OEBPS/Text/ch1.xhtml"));
    assert!(r.same_chapter);
}

#[test]
fn reference_paths() {
    assert_eq!(resolve_chapter_reference_path(None, "ch3.xhtml"), "OEBPS/Text/ch3.xhtml");
    assert_eq!(resolve_chapter_reference_path(Some("OEBPS/Text/a/b.xhtml"), "../c.xhtml"), "OEBPS/Text/c.xhtml");
    assert_eq!(resolve_chapter_reference_path(None, "Images/x.png"), "OEBPS/Images/x.png");
    assert_eq!(resolve_manifest_chapter_path(&test_manifest(), "oebps/TEXT/ch2.xhtml").as_deref(), Some("OEBPS/Text/ch2.xhtml"));
    assert_eq!(resolve_manifest_chapter_path(&test_manifest(), "OEBPS/nav.xhtml"), None);
}

use ogham::library::{build_standard_epub_structure, toc_entries_to_navigation_entries};
use ogham::models::{NavigationEntry, StandardSpine, StandardSpineItemref, TocEntry};

fn item(id: &str, href: &str, media_type: &str) -> StandardManifestItem {
    StandardManifestItem {
        id: id.to_string(),
        href: href.to_string(),
        media_type: media_type.to_string(),
        properties: None,
    }
}

#[test]
fn standard_structure_lists_chapters_and_resources() {
    let manifest = StandardManifest {
        items: vec![
            item("c2", "Text/b.xhtml", "application/xhtml+xml"),
            item("c1", "Text/sub/a.xhtml", "text/html"),
            item("css", "Styles/s.css", "text/css"),
            item("img", "Images/i.png", "image/png"),
            item("font", "Fonts/f.woff2", "font/woff2"),
            item("orphan", "Text/o.xhtml", "application/xhtml+xml"),
        ],
    };
    let spine = StandardSpine {
        itemrefs: vec![
            StandardSpineItemref { idref: "c1".to_string(), linear: Some(true) },
            StandardSpineItemref { idref: "c2".to_string(), linear: None },
        ],
    };
    let navigation = vec![NavigationEntry {
        id: "n1".to_string(),
        label: "Part B".to_string(),
        content_src: "text/B.xhtml".to_string(),
        level: 0,
        children: vec![NavigationEntry {
            id: "n2".to_string(),
            label: "Again B".to_string(),
            content_src: "Text/b.xhtml".to_string(),
            level: 1,
            children: vec![],
        }],
    }];
    let s = build_standard_epub_structure(&manifest, &spine, navigation);
    assert_eq!(s.chapters.len(), 3);
    assert_eq!(s.chapters[0].id, "c2");
    assert_eq!(s.chapters[0].original_filename, "b.xhtml");
    assert_eq!(s.chapters[0].standard_path, "OEBPS/Text/b.xhtml");
    assert_eq!(s.chapters[0].title.as_deref(), Some("Part B"));
    assert_eq!(s.chapters[0].order, 1);
    assert_eq!(s.chapters[1].original_filename, "a.xhtml");
    assert_eq!(s.chapters[1].order, 0);
    assert_eq!(s.chapters[1].title, None);
    assert_eq!(s.chapters[2].order, 2);
    assert_eq!(s.styles, vec!["OEBPS/Styles/s.css".to_string()]);
    assert_eq!(s.images, vec!["OEBPS/Images/i.png".to_string()]);
    assert_eq!(s.fonts, vec!["OEBPS/Fonts/f.woff2".to_string()]);
    assert_eq!(s.navigation.len(), 1);
}

#[test]
fn navigation_entries_copy_the_tree() {
    let toc = vec![TocEntry {
        id: "a".to_string(),
        label: "A".to_string(),
        content_src: "a.xhtml".to_string(),
        level: 0,
        children: vec![TocEntry {
            id: "b".to_string(),
            label: "B".to_string(),
            content_src: "b.xhtml".to_string(),
            level: 1,
            children: vec![],
        }],
    }];
    let nav = toc_entries_to_navigation_entries(&toc);
    assert_eq!(nav.len(), 1);
    assert_eq!(nav[0].children[0].id, "b");
    assert_eq!(nav[0].children[0].level, 1);
}
