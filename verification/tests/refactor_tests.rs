use ogham::models::{
    EpubMetadata, EpubStructureAnalysis, ExtendedChapterInfo, FileMap, NavPoint, Navigation, RefactoredEpub,
    ResourceCollection, ResourceFile, SpecialFiles, StandardManifest, StandardManifestItem, StandardSpine,
    StandardSpineItemref, TocEntry,
};
use ogham::refactor::{
    build_simple_navigation, build_standard_structures, convert_to_refactored_result, convert_toc_to_navigation,
    copy_metadata, epub_id_from, find_navigation_title, generate_epub_id, is_text_document_href,
    resolve_toc_path, validate_and_repair_toc,
};

fn chapter(id: &str, path: &str, title: Option<&str>, order: usize) -> ExtendedChapterInfo {
    ExtendedChapterInfo {
        id: id.to_string(),
        original_path: path.to_string(),
        standard_path: path.to_string(),
        title: title.map(|t| t.to_string()),
        order,
        media_type: "application/xhtml+xml".to_string(),
    }
}

fn empty_resources() -> ResourceCollection {
    ResourceCollection { styles: Vec::new(), images: Vec::new(), fonts: Vec::new(), misc: Vec::new() }
}

fn empty_map() -> FileMap {
    FileMap { original_to_standard: Vec::new(), standard_to_original: Vec::new() }
}

fn entry(id: &str, label: &str, src: &str, children: Vec<TocEntry>) -> TocEntry {
    TocEntry { id: id.to_string(), label: label.to_string(), content_src: src.to_string(), level: 0, children }
}

fn metadata(title: &str) -> EpubMetadata {
    EpubMetadata {
        title: title.to_string(),
        author: Some("A".to_string()),
        language: None,
        identifier: "urn:x".to_string(),
    }
}

fn manifest_item(id: &str, href: &str, media_type: &str) -> StandardManifestItem {
    StandardManifestItem {
        id: id.to_string(),
        href: href.to_string(),
        media_type: media_type.to_string(),
        properties: None,
    }
}

#[test]
fn resolve_toc_path_preserves_anchor() {
    let file_map = FileMap {
        original_to_standard: vec![(
            "OEBPS/Text/chapter1.xhtml".to_string(),
            "OEBPS/Text/chapter1.xhtml".to_string(),
        )],
        standard_to_original: Vec::new(),
    };
    let chapters = vec![chapter("chapter1", "OEBPS/Text/chapter1.xhtml", Some("Chapter 1"), 0)];

    let resolved = resolve_toc_path("Text/chapter1.xhtml#part-2", &file_map, &chapters);
    assert_eq!(resolved, "Text/chapter1.xhtml#part-2");
}

#[test]
fn validate_toc_accepts_valid_anchor_targets() {
    let analysis = EpubStructureAnalysis {
        chapters: vec![chapter("chapter1", "OEBPS/Text/chapter1.xhtml", Some("Chapter 1"), 0)],
        resources: empty_resources(),
        special_files: SpecialFiles { cover: None, nav: None, ncx: None },
        file_map: empty_map(),
    };

    let entries = vec![TocEntry {
        id: "nav-1".to_string(),
        label: "Chapter 1".to_string(),
        content_src: "Text/chapter1.xhtml#part-2".to_string(),
        level: 0,
        children: Vec::new(),
    }];

    let repaired = validate_and_repair_toc(entries, &analysis);
    assert_eq!(repaired.len(), 1);
    assert_eq!(repaired[0].content_src, "Text/chapter1.xhtml#part-2");
}

#[test]
fn validate_toc_drops_entries_with_missing_targets() {
    let analysis = EpubStructureAnalysis {
        chapters: vec![chapter("c1", "OEBPS/Text/c1.xhtml", None, 0)],
        resources: empty_resources(),
        special_files: SpecialFiles { cover: None, nav: None, ncx: None },
        file_map: empty_map(),
    };
    let entries = vec![entry(
        "n1",
        "Gone",
        "Text/missing.xhtml",
        vec![entry("n2", "Kept", "Text/c1.xhtml", Vec::new())],
    )];
    let repaired = validate_and_repair_toc(entries, &analysis);
    assert_eq!(repaired.len(), 0);
    let kept = vec![entry(
        "n1",
        "Top",
        "Text/c1.xhtml",
        vec![entry("n2", "Gone", "Text/missing.xhtml", Vec::new())],
    )];
    let repaired = validate_and_repair_toc(kept, &analysis);
    assert_eq!(repaired.len(), 1);
    assert_eq!(repaired[0].children.len(), 0);
}

#[test]
fn resolve_toc_path_maps_through_the_file_map() {
    let file_map = FileMap {
        original_to_standard: vec![("OEBPS/ch1.html".to_string(), "OEBPS/Text/ch1.html".to_string())],
        standard_to_original: Vec::new(),
    };
    let resolved = resolve_toc_path("ch1.html#a", &file_map, &[]);
    assert_eq!(resolved, "Text/ch1.html#a");
}

#[test]
fn simple_navigation_uses_titles_then_file_names() {
    let analysis = EpubStructureAnalysis {
        chapters: vec![
            chapter("c1", "OEBPS/Text/one.xhtml", Some("One"), 0),
            chapter("c2", "OEBPS/Text/two.xhtml", None, 1),
        ],
        resources: empty_resources(),
        special_files: SpecialFiles { cover: None, nav: None, ncx: None },
        file_map: empty_map(),
    };
    let nav = build_simple_navigation(&analysis);
    assert_eq!(nav.len(), 2);
    assert_eq!(nav[0].label, "One");
    assert_eq!(nav[0].content_src, "Text/one.xhtml");
    assert_eq!(nav[1].label, "two.xhtml");
}

#[test]
fn toc_conversion_sets_levels_and_resolves_paths() {
    let points = vec![NavPoint {
        id: "p1".to_string(),
        label: "Part".to_string(),
        content_src: "Text/one.xhtml".to_string(),
        children: vec![NavPoint {
            id: "p2".to_string(),
            label: "Sub".to_string(),
            content_src: "Text/one.xhtml#s".to_string(),
            children: Vec::new(),
        }],
    }];
    let chapters = vec![chapter("c1", "OEBPS/Text/one.xhtml", None, 0)];
    let toc = convert_toc_to_navigation(&points, &empty_map(), &chapters, 0);
    assert_eq!(toc.len(), 1);
    assert_eq!(toc[0].level, 0);
    assert_eq!(toc[0].children[0].level, 1);
    assert_eq!(toc[0].children[0].content_src, "Text/one.xhtml#s");
}

#[test]
fn standard_structures_list_chapters_then_resources() {
    let analysis = EpubStructureAnalysis {
        chapters: vec![chapter("c1", "OEBPS/Text/one.xhtml", None, 0)],
        resources: ResourceCollection {
            styles: vec![ResourceFile {
                id: "css".to_string(),
                original_path: "style.css".to_string(),
                standard_path: "OEBPS/Styles/style.css".to_string(),
                media_type: "text/css".to_string(),
            }],
            images: Vec::new(),
            fonts: Vec::new(),
            misc: Vec::new(),
        },
        special_files: SpecialFiles { cover: None, nav: None, ncx: None },
        file_map: empty_map(),
    };
    let (manifest, spine) = build_standard_structures(&analysis);
    assert_eq!(manifest.items[0].id, "c1");
    assert_eq!(manifest.items[0].href, "Text/one.xhtml");
    assert!(manifest.items.iter().any(|i| i.href == "Styles/style.css"));
    assert_eq!(spine.itemrefs.len(), 1);
    assert_eq!(spine.itemrefs[0].idref, "c1");
}

#[test]
fn navigation_title_matches_before_anchor_in_nested_entries() {
    let toc = vec![entry(
        "n1",
        "Part",
        "Text/part.xhtml",
        vec![entry("n2", "Chapter", "Text/ch.xhtml#top", Vec::new())],
    )];
    assert_eq!(find_navigation_title(&toc, "Text/ch.xhtml"), Some("Chapter".to_string()));
    assert_eq!(find_navigation_title(&toc, "Text/part.xhtml#x"), Some("Part".to_string()));
    assert_eq!(find_navigation_title(&toc, "Text/other.xhtml"), None);
}

#[test]
fn text_document_hrefs_are_html_files() {
    assert!(is_text_document_href("Text/a.XHTML"));
    assert!(is_text_document_href("b.html"));
    assert!(!is_text_document_href("c.css"));
}

#[test]
fn refactored_result_lists_chapters_and_resources() {
    let refactored = RefactoredEpub {
        epub_id: "book-1".to_string(),
        metadata: metadata("Book"),
        manifest: StandardManifest {
            items: vec![
                manifest_item("c2", "Text/two.xhtml", "application/xhtml+xml"),
                manifest_item("c1", "Text/one.xhtml", "application/xhtml+xml"),
                manifest_item("css", "Styles/s.css", "text/css"),
                manifest_item("img", "Images/a.png", "image/png"),
                manifest_item("f", "Fonts/a.ttf", "font/ttf"),
            ],
        },
        spine: StandardSpine {
            itemrefs: vec![
                StandardSpineItemref { idref: "c1".to_string(), linear: None },
                StandardSpineItemref { idref: "c2".to_string(), linear: None },
            ],
        },
        navigation: Navigation { toc: vec![entry("n1", "First", "Text/one.xhtml#a", Vec::new())] },
        storage_path: "/tmp/book".to_string(),
        file_map: empty_map(),
        created_at: 0,
    };
    let r = convert_to_refactored_result(&refactored);
    assert_eq!(r.epub_id, "book-1");
    assert_eq!(r.storage_path, "/tmp/book");
    assert_eq!(r.metadata.title, "Book");
    assert_eq!(r.structure.chapters.len(), 2);
    assert_eq!(r.structure.chapters[0].id, "c2");
    assert_eq!(r.structure.chapters[0].order, 1);
    assert_eq!(r.structure.chapters[0].title, None);
    assert_eq!(r.structure.chapters[0].original_filename, "two.xhtml");
    assert_eq!(r.structure.chapters[1].title, Some("First".to_string()));
    assert_eq!(r.structure.chapters[1].standard_path, "OEBPS/Text/one.xhtml");
    assert_eq!(r.structure.chapters[1].order, 0);
    assert_eq!(r.structure.styles, vec!["OEBPS/Styles/s.css".to_string()]);
    assert_eq!(r.structure.images, vec!["OEBPS/Images/a.png".to_string()]);
    assert_eq!(r.structure.fonts, vec!["OEBPS/Fonts/a.ttf".to_string()]);
    assert_eq!(r.structure.navigation.len(), 1);
    assert_eq!(r.structure.navigation[0].label, "First");
}

#[test]
fn epub_id_keeps_twenty_alphanumeric_title_characters() {
    let id = epub_id_from(&metadata("The Great Book: Volume One, Part Two!"), 1234);
    assert_eq!(id, "TheGreatBookVolumeOn-1234");
    let id = epub_id_from(&metadata("书名 1"), 7);
    assert_eq!(id, "书名1-7");
    let id = epub_id_from(&metadata("!!!"), 0);
    assert_eq!(id, "epub-0");
}

#[test]
fn generated_epub_id_starts_with_the_title() {
    let id = generate_epub_id(&metadata("Book")).unwrap();
    assert!(id.starts_with("Book-"));
    assert!(id.len() > 5);
}

#[test]
fn metadata_copy_keeps_every_field() {
    let m = copy_metadata(&metadata("T"));
    assert_eq!(m.title, "T");
    assert_eq!(m.author, Some("A".to_string()));
    assert_eq!(m.language, None);
    assert_eq!(m.identifier, "urn:x");
}
