use ogham::toc_manager::find_matching_close_html;
use ogham::models::TocChapterDto;
use ogham::toc_manager::TocManager;

#[test]
fn parses_ncx_sibling_navpoints_once() {
    let content = r#"
        <ncx>
          <navMap>
            <navPoint id="chapter-1">
              <navLabel><text>第一章</text></navLabel>
              <content src="Text/chapter1.xhtml"/>
            </navPoint>
            <navPoint id="chapter-2">
              <navLabel><text>第二章</text></navLabel>
              <content src="Text/chapter2.xhtml"/>
            </navPoint>
          </navMap>
        </ncx>
        "#;

    let mut entries = Vec::new();
    let mut order_counter = 0usize;
    TocManager::parse_ncx_navmap(content, 0, &mut entries, &mut order_counter, "");

    assert_eq!(entries.len(), 2);
    assert_eq!(entries[0].label, "第一章");
    assert_eq!(entries[1].label, "第二章");
    assert!(entries[0].children.is_empty());
    assert!(entries[1].children.is_empty());
}

#[test]
fn parses_nav_sibling_items_once() {
    let content = r#"
        <ol class="toc">
          <li><a href="Text/chapter1.xhtml">第一章</a></li>
          <li><a href="Text/chapter2.xhtml">第二章</a></li>
        </ol>
        "#;

    let mut entries = Vec::new();
    let mut order_counter = 0usize;
    TocManager::parse_ol_elements(content, 0, &mut entries, &mut order_counter, "");

    assert_eq!(entries.len(), 2);
    assert_eq!(entries[0].label, "第一章");
    assert_eq!(entries[1].label, "第二章");
    assert!(entries[0].children.is_empty());
    assert!(entries[1].children.is_empty());
}

#[test]
fn nested_navpoints_become_children() {
    let content = r#"<navMap><navPoint id="a"><navLabel><text> A </text></navLabel><content src="a.xhtml"/>
        <navPoint id="b"><navLabel><text>B</text></navLabel><content src="b.xhtml#x"/></navPoint>
        </navPoint></navMap>"#;
    let mut entries = Vec::new();
    let mut order_counter = 0usize;
    TocManager::parse_ncx_navmap(content, 0, &mut entries, &mut order_counter, "");
    assert_eq!(entries.len(), 1);
    assert_eq!(entries[0].id, "a");
    assert_eq!(entries[0].label, "A");
    assert_eq!(entries[0].order, 1);
    assert_eq!(entries[0].file_path.as_deref(), Some("OEBPS/Text/a.xhtml"));
    assert_eq!(entries[0].children.len(), 1);
    assert_eq!(entries[0].children[0].id, "b");
    assert_eq!(entries[0].children[0].level, 1);
    assert_eq!(entries[0].children[0].order, 0);
    assert_eq!(order_counter, 2);
}

#[test]
fn nested_list_items_become_children() {
    let content = r#"<ol><li><a href="a.xhtml">A</a><ol><li><a href="b.xhtml">B</a></li></ol></li></ol>"#;
    let mut entries = Vec::new();
    let mut order_counter = 0usize;
    TocManager::parse_ol_elements(content, 0, &mut entries, &mut order_counter, "");
    assert_eq!(entries.len(), 1);
    assert_eq!(entries[0].id, "nav-0");
    assert_eq!(entries[0].children.len(), 1);
    assert_eq!(entries[0].children[0].id, "nav-1");
    assert_eq!(entries[0].children[0].level, 1);
}

fn test_toc_entry(id: &str, label: &str, content_src: &str, order: usize) -> TocChapterDto {
    TocChapterDto {
        id: id.to_string(),
        label: label.to_string(),
        content_src: content_src.to_string(),
        file_path: Some(TocManager::parse_content_src(content_src, "")),
        file_paths: Vec::new(),
        file_name: None,
        file_names: Vec::new(),
        anchor: None,
        level: 0,
        order,
        children: Vec::new(),
    }
}

#[test]
fn normalizes_duplicate_nav_sources_to_single_toc() {
    let entries = vec![
        test_toc_entry("nav-html-1", "第一章", "episode1.xhtml", 0),
        test_toc_entry("nav-html-2", "第二章", "episode2.xhtml", 1),
        test_toc_entry("ncx-1", "第一章", "Text/episode1.xhtml", 2),
        test_toc_entry("ncx-2", "第二章", "Text/episode2.xhtml", 3),
    ];

    let normalized = TocManager::normalize_toc_entries(entries);

    assert_eq!(normalized.len(), 2);
    assert_eq!(normalized[0].id, "ncx-1");
    assert_eq!(normalized[0].order, 0);
    assert_eq!(normalized[1].id, "ncx-2");
    assert_eq!(normalized[1].order, 1);
}

#[test]
fn identity_key_collapses_white_space_and_case() {
    let e = test_toc_entry("a", "  Chapter \t One ", "Text/Ch1.xhtml#p", 0);
    assert_eq!(TocManager::toc_entry_identity_key(&e), "chapter one|oebps/text/ch1.xhtml#p");
    assert_eq!(TocManager::canonical_toc_target(&e), "oebps/text/ch1.xhtml#p");
}

#[test]
fn normalizing_numbers_children_after_parent() {
    let mut parent = test_toc_entry("p", "Part", "part.xhtml", 7);
    parent.children = vec![
        test_toc_entry("c1", "One", "one.xhtml", 9),
        test_toc_entry("c2", "Two", "two.xhtml", 9),
        test_toc_entry("c3", "one", "one.xhtml", 9),
    ];
    let tail = test_toc_entry("t", "Tail", "tail.xhtml", 1);
    let normalized = TocManager::normalize_toc_entries(vec![parent, tail]);
    assert_eq!(normalized.len(), 2);
    assert_eq!(normalized[0].order, 0);
    assert_eq!(normalized[0].children.len(), 2);
    assert_eq!(normalized[0].children[0].id, "c2");
    assert_eq!(normalized[0].children[0].order, 1);
    assert_eq!(normalized[0].children[0].level, 1);
    assert_eq!(normalized[0].children[1].id, "c3");
    assert_eq!(normalized[0].children[1].order, 2);
    assert_eq!(normalized[1].order, 3);
}

#[test]
fn matching_close_tag_skips_only_self_closing_tags() {
    let chars = |s: &str| s.chars().collect::<Vec<char>>();
    let li = chars("<li");
    let close = chars("</li>");
    assert_eq!(find_matching_close_html(&chars("<li><ol><li>a</li></ol></li><li>b</li>"), &li, &close), Some(28));
    assert_eq!(find_matching_close_html(&chars(r#"<li class="a">x</li><br/>"#), &li, &close), Some(20));
    assert_eq!(find_matching_close_html(&chars("<li><li/>x</li>"), &li, &close), Some(15));
}
