use ogham::models::TocChapterDto;
use ogham::toc_sync::{updated_nav_content, updated_ncx_content};

fn chapter(id: &str, label: &str, src: &str, children: Vec<TocChapterDto>) -> TocChapterDto {
    TocChapterDto {
        id: id.to_string(),
        label: label.to_string(),
        content_src: src.to_string(),
        file_path: None,
        file_paths: Vec::new(),
        file_name: None,
        file_names: Vec::new(),
        anchor: None,
        level: 0,
        order: 0,
        children,
    }
}

#[test]
fn nav_file_is_rendered_from_the_toc() {
    let toc = vec![chapter(
        "a",
        "第一章",
        "Text/c1.xhtml",
        vec![chapter("b", "第一节 <一>", "Text/c1.xhtml#s1", Vec::new())],
    )];
    let out = updated_nav_content(&toc, "<html><nav epub:type=\"toc\"></nav></html>").unwrap();
    assert!(out.contains("<nav epub:type=\"toc\">"));
    assert!(out.contains("<a href=\"Text/c1.xhtml\">第一章</a>"));
    assert!(out.contains("<a href=\"Text/c1.xhtml#s1\">第一节 &lt;一&gt;</a>"));
    let outer = out.find("第一章").unwrap();
    let inner = out.find("第一节").unwrap();
    assert!(outer < inner);
}

#[test]
fn nav_file_without_nav_element_is_left_alone() {
    let toc = vec![chapter("a", "第一章", "Text/c1.xhtml", Vec::new())];
    let old = "<html><body>no toc here</body></html>";
    assert_eq!(updated_nav_content(&toc, old).unwrap(), old);
}

#[test]
fn ncx_file_is_rendered_with_numbered_points() {
    let toc = vec![
        chapter("a", "第一章", "Text/c1.xhtml", vec![chapter("b", "第一节", "Text/c1.xhtml#s1", Vec::new())]),
        chapter("c", "第二章", "Text/c2.xhtml", Vec::new()),
    ];
    let out = updated_ncx_content(&toc, "<ncx><navMap></navMap></ncx>").unwrap();
    assert!(out.contains("<meta name=\"dtb:depth\" content=\"2\"/>"));
    assert!(out.contains("<content src=\"Text/c1.xhtml\"/>"));
    assert!(out.contains("<content src=\"Text/c2.xhtml\"/>"));
    assert!(out.contains("<text>第二章</text>"));
    assert!(out.contains("<navPoint id=\"navPoint-2\" playOrder=\"2\">"));
    assert!(out.contains("<navPoint id=\"navPoint-3\" playOrder=\"3\">"));
    assert!(out.contains("<navPoint id=\"navPoint-2001\" playOrder=\"2001\">"));
    assert!(!out.contains("playOrder=\"1\""));
}

#[test]
fn ncx_file_without_navmap_is_left_alone() {
    let toc = vec![chapter("a", "第一章", "Text/c1.xhtml", Vec::new())];
    let old = "<ncx><head/></ncx>";
    assert_eq!(updated_ncx_content(&toc, old).unwrap(), old);
}
