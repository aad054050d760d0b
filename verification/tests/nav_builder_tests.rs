use ogham::models::{Navigation, TocEntry};
use ogham::nav_builder::{
    build_nav_xhtml_items, build_ncx_xml, calculate_max_depth, escape_xml, render_nav_xhtml,
    render_toc_ncx,
};

fn entry(id: &str, label: &str, src: &str, level: usize, children: Vec<TocEntry>) -> TocEntry {
    TocEntry {
        id: id.to_string(),
        label: label.to_string(),
        content_src: src.to_string(),
        level,
        children,
    }
}

#[test]
fn nav_builder_test_escape_xml() {
    assert_eq!(
        escape_xml("Chapter 1: The Beginning"),
        "Chapter 1: The Beginning"
    );
    assert_eq!(escape_xml("A & B"), "A &amp; B");
    assert_eq!(escape_xml("<tag>"), "&lt;tag&gt;");
}

#[test]
fn test_calculate_max_depth() {
    let entries = vec![
        entry(
            "1",
            "Chapter 1",
            "ch1.xhtml",
            0,
            vec![entry("1-1", "Section 1.1", "ch1-1.xhtml", 1, vec![])],
        ),
        entry("2", "Chapter 2", "ch2.xhtml", 0, vec![]),
    ];

    assert_eq!(calculate_max_depth(&entries), 2);
}

#[test]
fn test_build_nav_xhtml_items() {
    let entries = vec![entry("1", "Chapter 1", "Text/chapter1.xhtml", 0, vec![])];

    let result = build_nav_xhtml_items(&entries);
    assert!(result.contains("Chapter 1"));
    assert!(result.contains("Text/chapter1.xhtml"));
    assert!(result.contains("<li>"));
    assert!(result.contains("<a href="));
}

#[test]
fn test_build_ncx_xml() {
    let navigation = Navigation {
        toc: vec![entry("1", "Chapter 1", "Text/chapter1.xhtml", 0, vec![])],
    };

    let result = build_ncx_xml(&navigation).unwrap();
    assert!(result.contains("<ncx"));
    assert!(result.contains("<navMap>"));
    assert!(result.contains("Chapter 1"));
    assert!(result.contains("Text/chapter1.xhtml"));
}

#[test]
fn ncx_numbers_nested_points_by_thousands() {
    let navigation = Navigation {
        toc: vec![
            entry("a", "A", "Text/a.xhtml", 0, vec![entry("b", "B", "Text/b.xhtml", 1, vec![])]),
            entry("c", "C & D", "Text/c.xhtml", 0, vec![]),
        ],
    };
    let ncx = render_toc_ncx(&navigation).unwrap();
    assert!(ncx.contains("<meta name=\"dtb:depth\" content=\"2\"/>"));
    assert!(ncx.contains("  <navPoint id=\"navPoint-2\" playOrder=\"2\">"));
    assert!(ncx.contains("      <navPoint id=\"navPoint-2001\" playOrder=\"2001\">"));
    assert!(ncx.contains("<navPoint id=\"navPoint-3\" playOrder=\"3\">"));
    assert!(ncx.contains("<text>C &amp; D</text>"));
    let nav = render_nav_xhtml(&navigation).unwrap();
    assert!(nav.contains("<ol class=\"toc\">"));
    assert!(nav.contains("<a href=\"Text/b.xhtml\">B</a>"));
    assert!(nav.contains("nav {\n        display: block;\n      }"));
}
