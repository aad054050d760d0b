use ogham::models::{EpubMetadata, StandardManifest, StandardManifestItem, StandardSpine, StandardSpineItemref};
use ogham::opf_builder::{
    build_manifest_items, build_opf_xml, build_spine_items, chrono_timestamp_to_datetime, escape_xml,
    date_of_clock, format_timestamp, get_current_date,
};

#[test]
fn opf_builder_test_escape_xml() {
    assert_eq!(escape_xml("Hello & World"), "Hello &amp; World");
    assert_eq!(escape_xml("<tag>"), "&lt;tag&gt;");
    assert_eq!(escape_xml("\"quote\""), "&quot;quote&quot;");
}

#[test]
fn test_build_manifest_items() {
    let manifest = StandardManifest {
        items: vec![StandardManifestItem {
            id: "chapter1".to_string(),
            href: "Text/chapter1.xhtml".to_string(),
            media_type: "application/xhtml+xml".to_string(),
            properties: None,
        }],
    };

    let result = build_manifest_items(&manifest);
    assert!(result.contains("id=\"chapter1\""));
    assert!(result.contains("href=\"Text/chapter1.xhtml\""));
}

#[test]
fn test_get_current_date() {
    let date = get_current_date();
    assert!(date.contains('T'));
    assert!(date.contains('Z'));
    assert!(date.starts_with(|c: char| c.is_ascii_digit()));
}

#[test]
fn timestamps_use_the_gregorian_calendar() {
    let dt = chrono_timestamp_to_datetime(0);
    assert_eq!((dt.year, dt.month, dt.day, dt.hour, dt.minute, dt.second), (1970, 1, 1, 0, 0, 0));
    assert_eq!(format_timestamp(0), "1970-01-01T00:00:00Z");
    // 400 days and 3725 seconds: day 35 of 1971.
    assert_eq!(format_timestamp(400 * 86400 + 3725), "1971-02-05T01:02:05Z");
    assert_eq!(format_timestamp(360 * 86400), "1970-12-27T00:00:00Z");
    // 1972 is a leap year: day 59 of it is February 29.
    assert_eq!(format_timestamp((730 + 59) * 86400), "1972-02-29T00:00:00Z");
    assert_eq!(format_timestamp(951782400), "2000-02-29T00:00:00Z");
    assert_eq!(format_timestamp(1700000000), "2023-11-14T22:13:20Z");
}

#[test]
fn manifest_and_spine_lines() {
    let manifest = StandardManifest {
        items: vec![
            StandardManifestItem {
                id: "nav".to_string(),
                href: "nav.xhtml".to_string(),
                media_type: "application/xhtml+xml".to_string(),
                properties: Some(vec!["nav".to_string(), "scripted".to_string()]),
            },
            StandardManifestItem {
                id: "a&b".to_string(),
                href: "Text/a.xhtml".to_string(),
                media_type: "application/xhtml+xml".to_string(),
                properties: Some(vec![]),
            },
        ],
    };
    assert_eq!(
        build_manifest_items(&manifest),
        "    <item id=\"nav\" href=\"nav.xhtml\" media-type=\"application/xhtml+xml\" properties=\"nav scripted\" />\n    <item id=\"a&amp;b\" href=\"Text/a.xhtml\" media-type=\"application/xhtml+xml\" />"
    );
    let spine = StandardSpine {
        itemrefs: vec![
            StandardSpineItemref { idref: "a".to_string(), linear: Some(false) },
            StandardSpineItemref { idref: "b".to_string(), linear: None },
        ],
    };
    assert_eq!(
        build_spine_items(&spine),
        "    <itemref idref=\"a\" linear=\"no\" />\n    <itemref idref=\"b\" />"
    );
}

#[test]
fn opf_document_is_complete() {
    let metadata = EpubMetadata {
        title: "T<1>".to_string(),
        author: Some("A & B".to_string()),
        language: None,
        identifier: "urn:x".to_string(),
    };
    let manifest = StandardManifest { items: vec![] };
    let spine = StandardSpine { itemrefs: vec![] };
    let xml = build_opf_xml(&metadata, &manifest, &spine, "2000-01-01T00:00:00Z").unwrap();
    assert!(xml.contains("xml:lang=\"en\""));
    assert!(xml.contains("<dc:title>T&lt;1&gt;</dc:title>"));
    assert!(xml.contains("<dc:creator>A &amp; B</dc:creator>"));
    assert!(xml.contains("<meta property=\"dcterms:modified\">2000-01-01T00:00:00Z</meta>"));
    assert!(xml.ends_with("</package>\n"));
}

#[test]
fn clock_readings_outside_the_range_date_to_the_epoch() {
    assert_eq!(date_of_clock(Some(1700000000)), "2023-11-14T22:13:20Z");
    assert_eq!(date_of_clock(None), "1970-01-01T00:00:00Z");
    assert_eq!(date_of_clock(Some(u64::MAX)), "1970-01-01T00:00:00Z");
}
