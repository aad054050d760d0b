use ogham::image_handler::{
    chapters_by_spine, get_extension_from_mime, image_filename, is_chapter_href, manifest_with_image,
    next_image_index, parse_u32, text_dir_chapter_files,
};
use ogham::image_run::{find_image_links, ChapterScan, ImageAction, ImageEvent, ImageRun};

#[test]
fn extensions_follow_the_media_type() {
    assert_eq!(get_extension_from_mime("image/png"), "png");
    assert_eq!(get_extension_from_mime("image/jpg"), "jpg");
    assert_eq!(get_extension_from_mime("image/svg+xml"), "svg");
    assert_eq!(get_extension_from_mime("application/octet-stream"), "jpg");
}

#[test]
fn chapter_hrefs_are_text_documents() {
    assert!(is_chapter_href("Text/c1.xhtml"));
    assert!(is_chapter_href("OEBPS\\TEXT\\c1.HTML"));
    assert!(!is_chapter_href("Styles/a.css"));
    assert!(!is_chapter_href("c1.xhtml"));
}

#[test]
fn image_files_are_numbered_with_six_digits() {
    assert_eq!(image_filename(7, "image/png"), "image_000007.png");
    assert_eq!(image_filename(1234567, "image/gif"), "image_1234567.gif");
}

#[test]
fn manifest_gets_one_entry_per_image() {
    let opf = "<package><manifest><item id=\"img_image_000001\" href=\"Images/x.png\" /></manifest></package>";
    let updated = manifest_with_image(opf, "image_000001.png", "image/png").unwrap();
    assert_eq!(
        updated,
        "<package><manifest>\n    <item id=\"img_image_000001_1\" href=\"Images/image_000001.png\" media-type=\"image/png\" /><item id=\"img_image_000001\" href=\"Images/x.png\" /></manifest></package>"
    );
    assert_eq!(manifest_with_image(&updated, "image_000001.png", "image/png"), None);
    assert_eq!(manifest_with_image("<package></package>", "a.png", "image/png"), None);
}

#[test]
fn next_index_follows_the_largest_number() {
    let stems = vec!["image_000004".to_string(), "image_12".to_string(), "cover".to_string(), "image_x".to_string()];
    assert_eq!(next_image_index(&stems), Some(13));
    assert_eq!(next_image_index(&[]), Some(1));
    assert_eq!(next_image_index(&["image_4294967295".to_string()]), None);
}

#[test]
fn numbers_parse_as_u32_does() {
    let p = |s: &str| parse_u32(&s.chars().collect::<Vec<char>>());
    assert_eq!(p("+42"), Some(42));
    assert_eq!(p("007"), Some(7));
    assert_eq!(p("4294967296"), None);
    assert_eq!(p(""), None);
    assert_eq!(p("+"), None);
    assert_eq!(p("-1"), None);
}

#[test]
fn spine_chapters_come_in_spine_order() {
    let opf = r#"<manifest><item id="a" href="Text\a.xhtml" media-type="x"/><item id="b" href="Text/b.xhtml"/>
<item id="css" href="Styles/s.css"/></manifest><spine><itemref idref="b"/><itemref idref="css"/><itemref idref="a"/><itemref idref="zz"/></spine>"#;
    let chapters = chapters_by_spine(opf).ok().unwrap();
    assert_eq!(chapters, vec!["OEBPS/Text/b.xhtml".to_string(), "OEBPS/Text/a.xhtml".to_string()]);
}

#[test]
fn text_directory_fallback_is_sorted() {
    let names = vec!["b.XHTML".to_string(), "a.xhtml".to_string(), ".xhtml".to_string(), "c.html".to_string()];
    assert_eq!(
        text_dir_chapter_files(&names),
        vec!["OEBPS/Text/a.xhtml".to_string(), "OEBPS/Text/b.XHTML".to_string()]
    );
}

#[test]
fn image_links_are_found_in_order() {
    let content = "<p>&lt;图片&gt;http://x/a.png</p><p>text</p><p>&lt;图片&gt;https://y/b.jpg</p>";
    let links = find_image_links(content).ok().unwrap();
    assert_eq!(links.len(), 2);
    assert_eq!(links[0].url, "http://x/a.png");
    assert_eq!(links[0].matched, "<p>&lt;图片&gt;http://x/a.png</p>");
    assert_eq!(links[1].url, "https://y/b.jpg");
}

fn scan(path: &str, content: &str) -> ChapterScan {
    ChapterScan { path: path.to_string(), content: content.to_string(), links: find_image_links(content).ok().unwrap() }
}

#[test]
fn a_run_downloads_each_url_once_and_rewrites_chapters() {
    let c1 = scan("OEBPS/Text/1.xhtml", "<p>&lt;图片&gt;http://x/a.png</p><p>&lt;图片&gt;http://x/a.png</p>");
    let c2 = scan("OEBPS/Text/2.xhtml", "<p>&lt;图片&gt;http://x/b.png</p><p>plain</p>");
    let c3 = scan("OEBPS/Text/3.xhtml", "<p>none</p>");
    let mut run = ImageRun::new("task", vec![c1, c2, c3], 5);
    assert_eq!(run.detected_raw_matches, 3);
    assert_eq!(run.total_unique_images, 2);
    let mut event = ImageEvent::Continue;
    let mut downloads = Vec::new();
    let mut writes = Vec::new();
    let mut saves = Vec::new();
    let mut stages = Vec::new();
    let result = loop {
        match run.step(event) {
            ImageAction::Progress(p) => {
                stages.push(p.stage.clone());
                event = ImageEvent::Continue;
            }
            ImageAction::Download { url } => {
                downloads.push(url.clone());
                event = if url.ends_with("b.png") {
                    ImageEvent::DownloadFailed { error: "404".to_string() }
                } else {
                    ImageEvent::Downloaded { mime_type: "image/png".to_string() }
                };
            }
            ImageAction::SaveImage { filename, .. } => {
                saves.push(filename);
                event = ImageEvent::Continue;
            }
            ImageAction::WriteChapter { path, content } => {
                writes.push((path, content));
                event = ImageEvent::Continue;
            }
            ImageAction::Finished(r) => break r,
        }
    };
    assert_eq!(downloads, vec!["http://x/a.png".to_string(), "http://x/b.png".to_string()]);
    assert_eq!(saves, vec!["image_000005.png".to_string()]);
    assert_eq!(writes.len(), 1);
    assert_eq!(writes[0].0, "OEBPS/Text/1.xhtml");
    assert_eq!(
        writes[0].1,
        "<p><img src=\"../Images/image_000005.png\" alt=\"图片\" /></p><p><img src=\"../Images/image_000005.png\" alt=\"图片\" /></p>"
    );
    assert_eq!(result.total_chapters, 3);
    assert_eq!(result.processed_chapters, 3);
    assert_eq!(result.successful_images, 1);
    assert_eq!(result.failed_images, 1);
    assert_eq!(result.skipped_duplicates, 1);
    assert_eq!(result.inserted_images, 2);
    assert_eq!(result.failures.len(), 1);
    assert_eq!(result.failures[0].error, "404");
    assert_eq!(stages[0], "chapter_start");
    assert!(stages.contains(&"reuse".to_string()));
    assert_eq!(stages.last().unwrap(), "chapter_done");
}
