//! Building the standardized package from the analysis of the source package:
//! its manifest and reading order, its navigation, and the result the front
//! end receives.

use vstd::prelude::*;
use crate::analyzer::{pair_lookup, pair_views};
use crate::epub_path::{
    filename_chars, normalize_reference, oebps, path_part, spec_filename, spec_normalize_reference,
    spec_strip_oebps_prefix, string_views, strip_oebps_prefix_chars, suffix_part, suffix_pos_exec,
    trim_leading_slashes, trim_leading_slashes_chars, lemma_find_char_bounds,
};
use crate::resource_manager::pairs_get;
use crate::toc_edit::{before_hash, nav_view, nav_views, NavView};
use crate::library::{
    after_last_slash, build_standard_epub_structure, chapter_view, nav_flat, nav_flat_entry,
    navigation_views, paths_with_media_type, spec_is_font_media_type, toc_entries_to_navigation_entries,
    ChapterView,
};
use crate::epub_path::lemma_rfind_char_bounds;
use crate::toc_tree::opt_view;
use crate::text::extend_str;
use crate::toc_groups::{is_renderable_chapter_item, spec_is_renderable_chapter_item};
use crate::pattern::opt_seq;
use crate::toc_manager::contains_str_exec;
use crate::models::{
    EpubMetadata, EpubStructureAnalysis, ExtendedChapterInfo, RefactoredEpub, RefactoredEpubResult,
    StandardChapter, StandardEpubStructure, FileMap, NavPoint, Navigation, ParsedEpub, TocEntry,
 ResourceFile, StandardManifest, StandardManifestItem,
    StandardSpine, StandardSpineItemref,
};
use crate::text::{
    chars_eq, chars_of, contains, ends_with, ends_with_exec, ends_with_str, extend_chars, lowercase,
    find_char_exec, lowercase_chars, replace_backslashes, replace_char, rfind_char_exec, slice_chars,
    starts_with, string_of, decimal, decimal_chars,
};

verus! {

// ---------------------------------------------------------------------------
// Manifest and spine of the standardized package
// ---------------------------------------------------------------------------

/// The mathematical value of a manifest item.
#[verifier::ext_equal]
pub ghost struct ItemView {
    pub id: Seq<char>,
    pub href: Seq<char>,
    pub media_type: Seq<char>,
    pub properties: Option<Seq<Seq<char>>>,
}

/// The view of a manifest item.
pub open spec fn item_view(i: StandardManifestItem) -> ItemView {
    ItemView {
        id: i.id@,
        href: i.href@,
        media_type: i.media_type@,
        properties: match i.properties {
            Some(v) => Some(string_views(v@)),
            None => None,
        },
    }
}

/// The views of manifest items.
pub open spec fn item_views(items: Seq<StandardManifestItem>) -> Seq<ItemView> {
    items.map_values(|i: StandardManifestItem| item_view(i))
}

/// The manifest item of a chapter: its id, its standard path relative to
/// `OEBPS/`, its media type.
pub open spec fn chapter_item(c: ExtendedChapterInfo) -> ItemView {
    ItemView { id: c.id@, href: spec_strip_oebps_prefix(c.standard_path@), media_type: c.media_type@, properties: None }
}

/// The manifest item of a resource.
pub open spec fn resource_item(r: ResourceFile) -> ItemView {
    ItemView { id: r.id@, href: spec_strip_oebps_prefix(r.standard_path@), media_type: r.media_type@, properties: None }
}

/// An href of an XHTML or HTML document, ignoring case.
pub open spec fn href_names_text_document(href: Seq<char>) -> bool {
    ends_with(lowercase(href), ".xhtml"@) || ends_with(lowercase(href), ".html"@)
}

/// Whether an href names an XHTML or HTML document, ignoring case.
pub fn is_text_document_href(href: &str) -> (r: bool)
    ensures
        r == href_names_text_document(href@),
{
    let lower = lowercase_chars(chars_of(href).as_slice());
    ends_with_str(lower.as_slice(), ".xhtml") || ends_with_str(lower.as_slice(), ".html")
}

/// The manifest of the standardized package: the chapters, styles, images,
/// fonts and other resources at their standard paths; a cover page that is
/// no chapter, if it is an XHTML/HTML document not yet listed; then
/// `nav.xhtml` and `toc.ncx`.
pub open spec fn spec_standard_manifest(a: EpubStructureAnalysis) -> Seq<ItemView> {
    let base = a.chapters@.map_values(|c: ExtendedChapterInfo| chapter_item(c))
        + a.resources.styles@.map_values(|r: ResourceFile| resource_item(r))
        + a.resources.images@.map_values(|r: ResourceFile| resource_item(r))
        + a.resources.fonts@.map_values(|r: ResourceFile| resource_item(r))
        + a.resources.misc@.map_values(|r: ResourceFile| resource_item(r));
    let with_cover = match a.special_files.cover {
        Some(c) => if a.chapters@.map_values(|ch: ExtendedChapterInfo| ch.original_path@).contains(c@) {
            base
        } else {
            match pair_lookup(pair_views(a.file_map.original_to_standard@), c@, 0) {
                Some(sp) => {
                    let href = spec_strip_oebps_prefix(sp);
                    if href_names_text_document(href) && !base.map_values(|i: ItemView| i.href).contains(href) {
                        base.push(ItemView {
                            id: "cover-page"@,
                            href,
                            media_type: "application/xhtml+xml"@,
                            properties: Some(seq!["cover"@]),
                        })
                    } else {
                        base
                    }
                },
                None => base,
            }
        },
        None => base,
    };
    with_cover.push(ItemView {
        id: "nav"@,
        href: "nav.xhtml"@,
        media_type: "application/xhtml+xml"@,
        properties: Some(seq!["nav"@]),
    }).push(ItemView { id: "ncx"@, href: "toc.ncx"@, media_type: "application/x-dtbncx+xml"@, properties: None })
}

/// The reading order of the standardized package: the chapters, linear.
pub open spec fn spec_standard_spine(a: EpubStructureAnalysis) -> Seq<(Seq<char>, Option<bool>)> {
    a.chapters@.map_values(|c: ExtendedChapterInfo| (c.id@, Some(true)))
}

/// The views of spine entries.
pub open spec fn itemref_views(rs: Seq<StandardSpineItemref>) -> Seq<(Seq<char>, Option<bool>)> {
    rs.map_values(|r: StandardSpineItemref| (r.idref@, r.linear))
}

/// A literal as a string.
fn lit(s: &str) -> (r: String)
    ensures
        r@ == s@,
{
    string_of(chars_of(s).as_slice())
}

/// Appends the manifest items of resources.
fn push_resource_items(items: &mut Vec<StandardManifestItem>, rs: &Vec<ResourceFile>)
    ensures
        item_views(final(items)@) == item_views(old(items)@) + rs@.map_values(|r: ResourceFile| resource_item(r)),
{
    let ghost base = item_views(items@);
    let mut i: usize = 0;
    while i < rs.len()
        invariant
            i <= rs@.len(),
            item_views(items@) == base + rs@.take(i as int).map_values(|r: ResourceFile| resource_item(r)),
        decreases rs@.len() - i,
    {
        let ghost ib = item_views(items@);
        let href = strip_oebps_prefix_chars(chars_of(rs[i].standard_path.as_str()).as_slice());
        let item = StandardManifestItem {
            id: rs[i].id.clone(),
            href: string_of(href.as_slice()),
            media_type: rs[i].media_type.clone(),
            properties: None,
        };
        items.push(item);
        assert(item_view(item) =~= resource_item(rs@[i as int]));
        assert(item_views(items@) =~= ib.push(item_view(item)));
        assert(rs@.take(i + 1).map_values(|r: ResourceFile| resource_item(r)) =~= rs@.take(i as int).map_values(
            |r: ResourceFile| resource_item(r),
        ).push(resource_item(rs@[i as int])));
        i += 1;
    }
    assert(rs@.take(rs@.len() as int) =~= rs@);
}

/// Whether some item has the href `h`.
fn has_href(items: &Vec<StandardManifestItem>, h: &[char]) -> (r: bool)
    ensures
        r == item_views(items@).map_values(|i: ItemView| i.href).contains(h@),
{
    let ghost hs = item_views(items@).map_values(|i: ItemView| i.href);
    let mut i: usize = 0;
    while i < items.len()
        invariant
            i <= items@.len(),
            hs == item_views(items@).map_values(|i: ItemView| i.href),
            forall|k: int| 0 <= k < i ==> hs[k] != h@,
        decreases items@.len() - i,
    {
        if chars_eq(chars_of(items[i].href.as_str()).as_slice(), h) {
            assert(hs[i as int] == h@);
            return true;
        }
        i += 1;
    }
    false
}

/// The manifest and reading order of the standardized package.
pub fn build_standard_structures(analysis: &EpubStructureAnalysis) -> (r: (StandardManifest, StandardSpine))
    ensures
        item_views(r.0.items@) == spec_standard_manifest(*analysis),
        itemref_views(r.1.itemrefs@) == spec_standard_spine(*analysis),
{
    let mut items: Vec<StandardManifestItem> = Vec::new();
    let mut i: usize = 0;
    while i < analysis.chapters.len()
        invariant
            i <= analysis.chapters@.len(),
            item_views(items@) == analysis.chapters@.take(i as int).map_values(|c: ExtendedChapterInfo| chapter_item(c)),
        decreases analysis.chapters@.len() - i,
    {
        let ghost ib = item_views(items@);
        let c = &analysis.chapters[i];
        let href = strip_oebps_prefix_chars(chars_of(c.standard_path.as_str()).as_slice());
        let item = StandardManifestItem {
            id: c.id.clone(),
            href: string_of(href.as_slice()),
            media_type: c.media_type.clone(),
            properties: None,
        };
        items.push(item);
        assert(item_view(item) =~= chapter_item(analysis.chapters@[i as int]));
        assert(item_views(items@) =~= ib.push(item_view(item)));
        assert(analysis.chapters@.take(i + 1).map_values(|c: ExtendedChapterInfo| chapter_item(c)) =~= analysis.chapters@.take(
            i as int,
        ).map_values(|c: ExtendedChapterInfo| chapter_item(c)).push(chapter_item(analysis.chapters@[i as int])));
        i += 1;
    }
    assert(analysis.chapters@.take(analysis.chapters@.len() as int) =~= analysis.chapters@);
    push_resource_items(&mut items, &analysis.resources.styles);
    push_resource_items(&mut items, &analysis.resources.images);
    push_resource_items(&mut items, &analysis.resources.fonts);
    push_resource_items(&mut items, &analysis.resources.misc);
    match &analysis.special_files.cover {
        Some(cover) => {
            let cv = chars_of(cover.as_str());
            let mut in_spine = false;
            let mut k: usize = 0;
            while k < analysis.chapters.len()
                invariant
                    k <= analysis.chapters@.len(),
                    in_spine == analysis.chapters@.take(k as int).map_values(|ch: ExtendedChapterInfo| ch.original_path@).contains(cv@),
                decreases analysis.chapters@.len() - k,
            {
                let ghost prev = analysis.chapters@.take(k as int).map_values(|ch: ExtendedChapterInfo| ch.original_path@);
                if chars_eq(chars_of(analysis.chapters[k].original_path.as_str()).as_slice(), cv.as_slice()) {
                    in_spine = true;
                }
                let ghost x = analysis.chapters@[k as int].original_path@;
                assert(analysis.chapters@.take(k + 1).map_values(|ch: ExtendedChapterInfo| ch.original_path@) =~= prev.push(x));
                proof {
                    if x == cv@ {
                        assert(prev.push(x)[prev.len() as int] == cv@);
                    } else if prev.contains(cv@) {
                        let q = choose|q: int| 0 <= q < prev.len() && prev[q] == cv@;
                        assert(prev.push(x)[q] == cv@);
                    } else {
                        assert forall|q: int| 0 <= q < prev.push(x).len() implies prev.push(x)[q] != cv@ by {
                            if q < prev.len() {
                                assert(prev.push(x)[q] == prev[q]);
                            }
                        }
                    }
                }
                k += 1;
            }
            assert(analysis.chapters@.take(analysis.chapters@.len() as int) =~= analysis.chapters@);
            if !in_spine {
                match crate::resource_manager::pairs_get(&analysis.file_map.original_to_standard, cv.as_slice()) {
                    Some(sp) => {
                        let href = strip_oebps_prefix_chars(sp.as_slice());
                        let hs = string_of(href.as_slice());
                        if is_text_document_href(hs.as_str()) && !has_href(&items, href.as_slice()) {
                            let ghost ib = item_views(items@);
                            let item = StandardManifestItem {
                                id: lit("cover-page"),
                                href: hs,
                                media_type: lit("application/xhtml+xml"),
                                properties: Some(vec![lit("cover")]),
                            };
                            items.push(item);
                            assert(item_view(item).properties == Some(seq!["cover"@])) by {
                                assert(string_views(item.properties->0@) =~= seq!["cover"@]);
                            }
                            assert(item_views(items@) =~= ib.push(item_view(item)));
                        }
                    },
                    None => {},
                }
            }
        },
        None => {},
    }
    let ghost ib = item_views(items@);
    let nav = StandardManifestItem {
        id: lit("nav"),
        href: lit("nav.xhtml"),
        media_type: lit("application/xhtml+xml"),
        properties: Some(vec![lit("nav")]),
    };
    let ncx = StandardManifestItem {
        id: lit("ncx"),
        href: lit("toc.ncx"),
        media_type: lit("application/x-dtbncx+xml"),
        properties: None,
    };
    assert(string_views(nav.properties->0@) =~= seq!["nav"@]);
    items.push(nav);
    items.push(ncx);
    assert(item_views(items@) =~= ib.push(item_view(nav)).push(item_view(ncx)));
    let mut refs: Vec<StandardSpineItemref> = Vec::new();
    let mut j: usize = 0;
    while j < analysis.chapters.len()
        invariant
            j <= analysis.chapters@.len(),
            itemref_views(refs@) == analysis.chapters@.take(j as int).map_values(|c: ExtendedChapterInfo| (c.id@, Some(true))),
        decreases analysis.chapters@.len() - j,
    {
        let ghost rb = itemref_views(refs@);
        refs.push(StandardSpineItemref { idref: analysis.chapters[j].id.clone(), linear: Some(true) });
        assert(itemref_views(refs@) =~= rb.push((analysis.chapters@[j as int].id@, Some(true))));
        assert(analysis.chapters@.take(j + 1).map_values(|c: ExtendedChapterInfo| (c.id@, Some(true))) =~= analysis.chapters@.take(
            j as int,
        ).map_values(|c: ExtendedChapterInfo| (c.id@, Some(true))).push((analysis.chapters@[j as int].id@, Some(true))));
        j += 1;
    }
    assert(analysis.chapters@.take(analysis.chapters@.len() as int) =~= analysis.chapters@);
    (StandardManifest { items }, StandardSpine { itemrefs: refs })
}


// ---------------------------------------------------------------------------
// Navigation of the standardized package
// ---------------------------------------------------------------------------

/// The first chapter from position `i` on whose original path (with `/`
/// for `\`) ends with `name`.
pub open spec fn chapter_ending_with(cs: Seq<ExtendedChapterInfo>, name: Seq<char>, i: int) -> Option<int>
    decreases cs.len() - i,
{
    if i < 0 || i >= cs.len() {
        None
    } else if ends_with(replace_char(cs[i].original_path@, '\\', '/'), name) {
        Some(i)
    } else {
        chapter_ending_with(cs, name, i + 1)
    }
}

/// Where a table-of-contents reference of the source package points in the
/// standardized package (relative to `OEBPS/`, query and fragment kept): by
/// the map, by the map with `OEBPS/`, by the file name of a chapter; the
/// navigation and NCX documents by name; else the normalized reference.
pub open spec fn spec_resolve_toc_path(orig: Seq<char>, m: Seq<(Seq<char>, Seq<char>)>, cs: Seq<ExtendedChapterInfo>) -> Seq<char> {
    let n = spec_normalize_reference(orig);
    let p = path_part(n);
    let suf = suffix_part(n);
    match pair_lookup(m, p, 0) {
        Some(sp) => spec_strip_oebps_prefix(sp) + suf,
        None => match pair_lookup(m, oebps() + trim_leading_slashes(p), 0) {
            Some(sp) => spec_strip_oebps_prefix(sp) + suf,
            None => match chapter_ending_with(cs, spec_filename(p), 0) {
                Some(k) => spec_strip_oebps_prefix(cs[k].standard_path@) + suf,
                None => if contains(p, "nav.xhtml"@) {
                    "nav.xhtml"@ + suf
                } else if contains(p, "toc.ncx"@) {
                    "toc.ncx"@ + suf
                } else {
                    n
                },
            },
        },
    }
}

/// Where a table-of-contents reference of the source package points in the
/// standardized package.
#[verifier::loop_isolation(false)]
pub fn resolve_toc_path(original_path: &str, file_map: &FileMap, chapters: &[ExtendedChapterInfo]) -> (r: String)
    ensures
        r@ == spec_resolve_toc_path(original_path@, pair_views(file_map.original_to_standard@), chapters@),
{
    let n = chars_of(normalize_reference(original_path).as_str());
    let pos = suffix_pos_exec(n.as_slice());
    let p = slice_chars(n.as_slice(), 0, pos);
    let suf = slice_chars(n.as_slice(), pos, n.len());
    match pairs_get(&file_map.original_to_standard, p.as_slice()) {
        Some(sp) => {
            let mut out = strip_oebps_prefix_chars(sp.as_slice());
            extend_chars(&mut out, suf.as_slice());
            return string_of(out.as_slice());
        },
        None => {},
    }
    let mut with_prefix = chars_of("OEBPS/");
    proof {
        reveal_strlit("OEBPS/");
        assert(with_prefix@ =~= oebps());
    }
    extend_chars(&mut with_prefix, trim_leading_slashes_chars(p.as_slice()).as_slice());
    match pairs_get(&file_map.original_to_standard, with_prefix.as_slice()) {
        Some(sp) => {
            let mut out = strip_oebps_prefix_chars(sp.as_slice());
            extend_chars(&mut out, suf.as_slice());
            return string_of(out.as_slice());
        },
        None => {},
    }
    let name = filename_chars(p.as_slice());
    let mut i: usize = 0;
    while i < chapters.len()
        invariant
            i <= chapters@.len(),
            chapter_ending_with(chapters@, name@, 0) == chapter_ending_with(chapters@, name@, i as int),
        decreases chapters@.len() - i,
    {
        let o = replace_backslashes(chars_of(chapters[i].original_path.as_str()).as_slice());
        if ends_with_exec(o.as_slice(), name.as_slice()) {
            let mut out = strip_oebps_prefix_chars(chars_of(chapters[i].standard_path.as_str()).as_slice());
            extend_chars(&mut out, suf.as_slice());
            return string_of(out.as_slice());
        }
        i += 1;
    }
    if contains_str_exec(p.as_slice(), "nav.xhtml") {
        let mut out = chars_of("nav.xhtml");
        extend_chars(&mut out, suf.as_slice());
        return string_of(out.as_slice());
    }
    if contains_str_exec(p.as_slice(), "toc.ncx") {
        let mut out = chars_of("toc.ncx");
        extend_chars(&mut out, suf.as_slice());
        return string_of(out.as_slice());
    }
    string_of(n.as_slice())
}

/// `l + 1`, staying at `usize::MAX`.
pub open spec fn next_level(l: nat) -> nat {
    if l < usize::MAX {
        l + 1
    } else {
        l
    }
}

/// The navigation entry of a navigation point of the source package at `level`,
/// its reference resolved, its children one level deeper.
pub open spec fn converted_point(np: NavPoint, m: Seq<(Seq<char>, Seq<char>)>, cs: Seq<ExtendedChapterInfo>, level: nat) -> NavView
    decreases np, 0nat,
{
    NavView {
        id: np.id@,
        label: np.label@,
        content_src: spec_resolve_toc_path(np.content_src@, m, cs),
        level,
        children: converted_points(np.children@, m, cs, next_level(level)),
    }
}

/// The navigation entries of navigation points of the source package.
pub open spec fn converted_points(nps: Seq<NavPoint>, m: Seq<(Seq<char>, Seq<char>)>, cs: Seq<ExtendedChapterInfo>, level: nat) -> Seq<NavView>
    decreases nps, 1nat,
{
    if nps.len() == 0 {
        seq![]
    } else {
        converted_points(nps.drop_last(), m, cs, level).push(converted_point(nps.last(), m, cs, level))
    }
}

/// The navigation entry of one navigation point.
fn convert_point(np: &NavPoint, file_map: &FileMap, chapters: &[ExtendedChapterInfo], level: usize) -> (r: TocEntry)
    ensures
        nav_view(r) == converted_point(*np, pair_views(file_map.original_to_standard@), chapters@, level as nat),
    decreases *np, 0nat,
{
    let next = if level < usize::MAX { level + 1 } else { level };
    let children = convert_toc_to_navigation(np.children.as_slice(), file_map, chapters, next);
    let r = TocEntry {
        id: np.id.clone(),
        label: np.label.clone(),
        content_src: resolve_toc_path(np.content_src.as_str(), file_map, chapters),
        level,
        children,
    };
    proof {
        assert(nav_view(r) =~= converted_point(*np, pair_views(file_map.original_to_standard@), chapters@, level as nat));
    }
    r
}

/// The navigation entries of the table of contents of the source package, at
/// `level`, references resolved into the standardized package.
pub fn convert_toc_to_navigation(
    nav_points: &[NavPoint],
    file_map: &FileMap,
    chapters: &[ExtendedChapterInfo],
    level: usize,
) -> (r: Vec<TocEntry>)
    ensures
        nav_views(r@) == converted_points(nav_points@, pair_views(file_map.original_to_standard@), chapters@, level as nat),
    decreases nav_points@, 1nat,
{
    let n = nav_points.len();
    let mut out: Vec<TocEntry> = Vec::new();
    let mut i: usize = 0;
    while i < n
        invariant
            n == nav_points@.len(),
            i <= n,
            nav_views(out@) == converted_points(nav_points@.take(i as int), pair_views(file_map.original_to_standard@), chapters@, level as nat),
        decreases n - i,
    {
        let ghost ob = out@;
        out.push(convert_point(&nav_points[i], file_map, chapters, level));
        proof {
            assert(out@.drop_last() =~= ob);
            assert(nav_points@.take(i + 1).drop_last() =~= nav_points@.take(i as int));
        }
        i += 1;
    }
    assert(nav_points@.take(n as int) =~= nav_points@);
    out
}

/// The navigation made from the chapters alone: each at level 0 with its
/// title (else the file name of its original path) and its standard path
/// relative to `OEBPS/`.
pub open spec fn spec_simple_navigation(cs: Seq<ExtendedChapterInfo>) -> Seq<NavView> {
    cs.map_values(|c: ExtendedChapterInfo| NavView {
        id: c.id@,
        label: match c.title {
            Some(t) => t@,
            None => spec_filename(c.original_path@),
        },
        content_src: spec_strip_oebps_prefix(c.standard_path@),
        level: 0,
        children: seq![],
    })
}

/// The navigation made from the chapters alone.
pub fn build_simple_navigation(analysis: &EpubStructureAnalysis) -> (r: Vec<TocEntry>)
    ensures
        nav_views(r@) == spec_simple_navigation(analysis.chapters@),
{
    let cs = &analysis.chapters;
    let mut out: Vec<TocEntry> = Vec::new();
    let mut i: usize = 0;
    while i < cs.len()
        invariant
            i <= cs@.len(),
            nav_views(out@) == spec_simple_navigation(cs@.take(i as int)),
        decreases cs@.len() - i,
    {
        let c = &cs[i];
        let label = match &c.title {
            Some(t) => t.clone(),
            None => string_of(filename_chars(chars_of(c.original_path.as_str()).as_slice()).as_slice()),
        };
        let e = TocEntry {
            id: c.id.clone(),
            label,
            content_src: string_of(strip_oebps_prefix_chars(chars_of(c.standard_path.as_str()).as_slice()).as_slice()),
            level: 0,
            children: Vec::new(),
        };
        let ghost ob = out@;
        out.push(e);
        proof {
            assert(out@.drop_last() =~= ob);
            assert(nav_views(e.children@) =~= Seq::<NavView>::empty());
            assert(spec_simple_navigation(cs@.take(i + 1)) =~= spec_simple_navigation(cs@.take(i as int)).push(nav_view(e)));
        }
        i += 1;
    }
    assert(cs@.take(cs@.len() as int) =~= cs@);
    out
}

/// The paths of the chapters relative to `OEBPS/`, with `/` for `\`.
pub open spec fn valid_chapter_paths(cs: Seq<ExtendedChapterInfo>) -> Seq<Seq<char>> {
    cs.map_values(|c: ExtendedChapterInfo| replace_char(spec_strip_oebps_prefix(c.standard_path@), '\\', '/'))
}

/// An entry points at a chapter, the navigation document or a cover page.
pub open spec fn points_at_valid_target(src: Seq<char>, valid: Seq<Seq<char>>) -> bool {
    let base = path_part(replace_char(src, '\\', '/'));
    valid.contains(base) || base == "nav.xhtml"@ || contains(base, "cover.xhtml"@)
}

/// The entries that point at a valid target, with their children checked
/// the same way; entries pointing elsewhere are dropped with their children.
pub open spec fn repaired(vs: Seq<NavView>, valid: Seq<Seq<char>>) -> Seq<NavView>
    decreases vs, 1nat,
{
    if vs.len() == 0 {
        seq![]
    } else {
        let prev = repaired(vs.drop_last(), valid);
        let e = vs.last();
        if points_at_valid_target(e.content_src, valid) {
            prev.push(repaired_entry(e, valid))
        } else {
            prev
        }
    }
}

/// An entry with its children checked.
pub open spec fn repaired_entry(v: NavView, valid: Seq<Seq<char>>) -> NavView
    decreases v, 0nat,
{
    NavView { children: repaired(v.children, valid), ..v }
}

/// Copies of the entries that point at a valid target.
fn repair_slice(entries: &[TocEntry], valid: &Vec<Vec<char>>, Ghost(vv): Ghost<Seq<Seq<char>>>) -> (r: Vec<TocEntry>)
    requires
        valid@.len() == vv.len(),
        forall|k: int| 0 <= k < vv.len() ==> (#[trigger] valid@[k])@ == vv[k],
    ensures
        nav_views(r@) == repaired(nav_views(entries@), vv),
    decreases entries@, 1nat,
{
    let n = entries.len();
    let mut out: Vec<TocEntry> = Vec::new();
    let mut i: usize = 0;
    while i < n
        invariant
            n == entries@.len(),
            i <= n,
            valid@.len() == vv.len(),
            forall|k: int| 0 <= k < vv.len() ==> (#[trigger] valid@[k])@ == vv[k],
            nav_views(out@) == repaired(nav_views(entries@.take(i as int)), vv),
        decreases n - i,
    {
        let e = &entries[i];
        let src = replace_backslashes(chars_of(e.content_src.as_str()).as_slice());
        let pos = suffix_pos_exec(src.as_slice());
        let base = slice_chars(src.as_slice(), 0, pos);
        let mut ok = false;
        let mut k: usize = 0;
        while k < valid.len()
            invariant
                k <= valid@.len(),
                valid@.len() == vv.len(),
                forall|q: int| 0 <= q < vv.len() ==> (#[trigger] valid@[q])@ == vv[q],
                ok == vv.take(k as int).contains(base@),
            decreases valid@.len() - k,
        {
            let ghost prev = vv.take(k as int);
            if chars_eq(valid[k].as_slice(), base.as_slice()) {
                ok = true;
            }
            proof {
                let x = vv[k as int];
                assert(vv.take(k + 1) =~= prev.push(x));
                if x == base@ {
                    assert(prev.push(x)[prev.len() as int] == base@);
                } else if prev.contains(base@) {
                    let q = choose|q: int| 0 <= q < prev.len() && prev[q] == base@;
                    assert(prev.push(x)[q] == base@);
                } else {
                    assert forall|q: int| 0 <= q < prev.push(x).len() implies prev.push(x)[q] != base@ by {
                        if q < prev.len() {
                            assert(prev.push(x)[q] == prev[q]);
                        }
                    }
                }
            }
            k += 1;
        }
        assert(vv.take(vv.len() as int) =~= vv);
        if !ok {
            ok = chars_eq(base.as_slice(), chars_of("nav.xhtml").as_slice()) || contains_str_exec(base.as_slice(), "cover.xhtml");
        }
        let ghost ob = out@;
        if ok {
            let children = repair_slice(e.children.as_slice(), valid, Ghost(vv));
            let c = TocEntry {
                id: e.id.clone(),
                label: e.label.clone(),
                content_src: e.content_src.clone(),
                level: e.level,
                children,
            };
            out.push(c);
            proof {
                assert(nav_view(c) =~= repaired_entry(nav_view(*e), vv));
                assert(out@.drop_last() =~= ob);
            }
        }
        proof {
            let t = entries@.take(i + 1);
            assert(t.drop_last() =~= entries@.take(i as int));
            assert(t.last() == entries@[i as int]);
            assert(nav_views(t).drop_last() =~= nav_views(entries@.take(i as int)));
            assert(nav_views(t).last() == nav_view(*e));
            assert(ok == points_at_valid_target(nav_view(*e).content_src, vv));
        }
        i += 1;
    }
    assert(entries@.take(n as int) =~= entries@);
    out
}

/// The entries that point at a chapter, the navigation document or a cover
/// page, their children checked the same way.
pub fn validate_and_repair_toc(toc_entries: Vec<TocEntry>, analysis: &EpubStructureAnalysis) -> (r: Vec<TocEntry>)
    ensures
        nav_views(r@) == repaired(nav_views(toc_entries@), valid_chapter_paths(analysis.chapters@)),
{
    let ghost vv = valid_chapter_paths(analysis.chapters@);
    let mut valid: Vec<Vec<char>> = Vec::new();
    let mut i: usize = 0;
    while i < analysis.chapters.len()
        invariant
            i <= analysis.chapters@.len(),
            vv == valid_chapter_paths(analysis.chapters@),
            valid@.len() == i,
            forall|k: int| 0 <= k < i ==> (#[trigger] valid@[k])@ == vv[k],
        decreases analysis.chapters@.len() - i,
    {
        let p = strip_oebps_prefix_chars(chars_of(analysis.chapters[i].standard_path.as_str()).as_slice());
        valid.push(replace_backslashes(p.as_slice()));
        i += 1;
    }
    repair_slice(toc_entries.as_slice(), &valid, Ghost(vv))
}

/// The navigation of the standardized package: the source table of
/// contents with its references resolved and invalid entries dropped, or,
/// without one, an entry per chapter.
pub fn build_navigation(parsed: &ParsedEpub, analysis: &EpubStructureAnalysis) -> (r: Navigation)
    ensures
        nav_views(r.toc@) == match parsed.table_of_contents {
            Some(t) => repaired(
                converted_points(t.nav_points@, pair_views(analysis.file_map.original_to_standard@), analysis.chapters@, 0),
                valid_chapter_paths(analysis.chapters@),
            ),
            None => spec_simple_navigation(analysis.chapters@),
        },
{
    match &parsed.table_of_contents {
        Some(t) => {
            let converted = convert_toc_to_navigation(t.nav_points.as_slice(), &analysis.file_map, analysis.chapters.as_slice(), 0);
            Navigation { toc: validate_and_repair_toc(converted, analysis) }
        },
        None => Navigation { toc: build_simple_navigation(analysis) },
    }
}


// ---------------------------------------------------------------------------
// The result for the front end
// ---------------------------------------------------------------------------

/// The title the navigation gives an href: the label of the first entry,
/// in document order from position `i`, whose reference before `#` is the
/// href before `#`.
pub open spec fn title_for_href(flat: Seq<NavView>, href: Seq<char>, i: int) -> Option<Seq<char>>
    decreases flat.len() - i,
{
    if i < 0 || i >= flat.len() {
        None
    } else if before_hash(flat[i].content_src) == before_hash(href) {
        Some(flat[i].label)
    } else {
        title_for_href(flat, href, i + 1)
    }
}

/// The first spine position from `i` on with id `id`, or the spine length.
pub open spec fn first_spine_position(refs: Seq<StandardSpineItemref>, id: Seq<char>, i: int) -> nat
    decreases refs.len() - i,
{
    if i < 0 || i >= refs.len() {
        refs.len()
    } else if refs[i].idref@ == id {
        i as nat
    } else {
        first_spine_position(refs, id, i + 1)
    }
}

/// The chapters of the manifest items to show, in manifest order: each
/// titled from the navigation and placed at its first spine position.
pub open spec fn result_chapters(items: Seq<StandardManifestItem>, refs: Seq<StandardSpineItemref>, flat: Seq<NavView>) -> Seq<ChapterView>
    decreases items.len(),
{
    if items.len() == 0 {
        seq![]
    } else {
        let prev = result_chapters(items.drop_last(), refs, flat);
        let it = items.last();
        if spec_is_renderable_chapter_item(it) {
            prev.push(ChapterView {
                id: it.id@,
                original_filename: after_last_slash(it.href@),
                standard_path: "OEBPS/"@ + it.href@,
                title: title_for_href(flat, it.href@, 0),
                order: first_spine_position(refs, it.id@, 0),
            })
        } else {
            prev
        }
    }
}

/// The part of `s` before its first `#`.
fn before_hash_chars(s: &[char]) -> (r: Vec<char>)
    ensures
        r@ == before_hash(s@),
{
    proof {
        lemma_find_char_bounds(s@, '#', 0);
    }
    match find_char_exec(s, '#', 0) {
        Some(p) => slice_chars(s, 0, p),
        None => slice_chars(s, 0, s.len()),
    }
}

/// Appends the references before `#` and the labels of the entries and
/// their descendants, in document order.
fn collect_entry_srcs(entries: &[TocEntry], keys: &mut Vec<Vec<char>>, labels: &mut Vec<String>)
    requires
        old(keys)@.len() == old(labels)@.len(),
    ensures
        final(keys)@.len() == final(labels)@.len(),
        final(keys)@.len() == old(keys)@.len() + nav_flat(nav_views(entries@)).len(),
        forall|k: int| 0 <= k < old(keys)@.len() ==> (#[trigger] final(keys)@[k]) == old(keys)@[k] && final(labels)@[k] == old(labels)@[k],
        forall|k: int| 0 <= k < nav_flat(nav_views(entries@)).len() ==> {
            &&& (#[trigger] final(keys)@[old(keys)@.len() + k])@ == before_hash(nav_flat(nav_views(entries@))[k].content_src)
            &&& final(labels)@[old(keys)@.len() + k]@ == nav_flat(nav_views(entries@))[k].label
        },
    decreases entries@, 1nat,
{
    let ghost k0 = keys@.len();
    let ghost keys0 = keys@;
    let ghost labels0 = labels@;
    let n = entries.len();
    let mut i: usize = 0;
    proof {
        assert(nav_flat(nav_views(entries@.take(0))) =~= Seq::<NavView>::empty());
    }
    while i < n
        invariant
            n == entries@.len(),
            i <= n,
            keys@.len() == labels@.len(),
            keys@.len() == k0 + nav_flat(nav_views(entries@.take(i as int))).len(),
            forall|k: int| 0 <= k < k0 ==> (#[trigger] keys@[k]) == keys0[k] && labels@[k] == labels0[k],
            forall|k: int| 0 <= k < nav_flat(nav_views(entries@.take(i as int))).len() ==> {
                &&& (#[trigger] keys@[k0 + k])@ == before_hash(nav_flat(nav_views(entries@.take(i as int)))[k].content_src)
                &&& labels@[k0 + k]@ == nav_flat(nav_views(entries@.take(i as int)))[k].label
            },
        decreases n - i,
    {
        let ghost prev_flat = nav_flat(nav_views(entries@.take(i as int)));
        let ghost kb = keys@;
        let e = &entries[i];
        keys.push(before_hash_chars(chars_of(e.content_src.as_str()).as_slice()));
        labels.push(e.label.clone());
        let ghost k1 = keys@;
        collect_entry_srcs(e.children.as_slice(), keys, labels);
        proof {
            let t = entries@.take(i + 1);
            assert(t.drop_last() =~= entries@.take(i as int));
            assert(nav_views(t).drop_last() =~= nav_views(entries@.take(i as int)));
            let ev = nav_view(entries@[i as int]);
            assert(nav_flat(nav_views(t)) == prev_flat + nav_flat_entry(ev));
            let cf = nav_flat(nav_views(e.children@));
            let new_flat = nav_flat(nav_views(t));
            assert(new_flat =~= prev_flat + seq![ev] + cf);
            assert forall|k: int| 0 <= k < new_flat.len() implies {
                &&& (#[trigger] keys@[k0 + k])@ == before_hash(new_flat[k].content_src)
                &&& labels@[k0 + k]@ == new_flat[k].label
            } by {
                if k < prev_flat.len() {
                    assert(keys@[k0 + k] == k1[k0 + k]);
                    assert(k1[k0 + k] == kb[k0 + k]);
                    assert(new_flat[k] == prev_flat[k]);
                } else if k == prev_flat.len() {
                    assert(keys@[k0 + k] == k1[k0 + k]);
                    assert(new_flat[k] == ev);
                } else {
                    let j = k - prev_flat.len() - 1;
                    assert(new_flat[k] == cf[j]);
                    assert(k0 + k == k1.len() + j);
                }
            }
        }
        i += 1;
    }
    proof {
        assert(entries@.take(n as int) =~= entries@);
    }
}

/// The label of the first entry, in document order, whose reference before
/// `#` is the href before `#`.
pub fn find_navigation_title(entries: &[TocEntry], href: &str) -> (r: Option<String>)
    ensures
        opt_seq(r) == title_for_href(nav_flat(nav_views(entries@)), href@, 0),
{
    let mut keys: Vec<Vec<char>> = Vec::new();
    let mut labels: Vec<String> = Vec::new();
    collect_entry_srcs(entries, &mut keys, &mut labels);
    let ghost flat = nav_flat(nav_views(entries@));
    assert forall|k: int| 0 <= k < flat.len() implies (#[trigger] keys@[k])@ == before_hash(flat[k].content_src)
        && labels@[k]@ == flat[k].label by {
        assert(keys@[0 + k] == keys@[k]);
    }
    let hv = chars_of(href);
    let want = match find_char_exec(hv.as_slice(), '#', 0) {
        Some(p) => {
            proof {
                lemma_find_char_bounds(hv@, '#', 0);
            }
            slice_chars(hv.as_slice(), 0, p)
        },
        None => hv,
    };
    let mut i: usize = 0;
    while i < keys.len()
        invariant
            i <= keys@.len(),
            flat == nav_flat(nav_views(entries@)),
            keys@.len() == flat.len(),
            labels@.len() == flat.len(),
            want@ == before_hash(href@),
            forall|k: int| 0 <= k < flat.len() ==> (#[trigger] keys@[k])@ == before_hash(flat[k].content_src)
                && labels@[k]@ == flat[k].label,
            title_for_href(flat, href@, 0) == title_for_href(flat, href@, i as int),
        decreases keys@.len() - i,
    {
        if chars_eq(keys[i].as_slice(), want.as_slice()) {
            let title = labels[i].clone();
            assert(keys@[i as int]@ == before_hash(flat[i as int].content_src));
            assert(title_for_href(flat, href@, i as int) == Some(flat[i as int].label));
            return Some(title);
        }
        i += 1;
    }
    None
}

/// The first spine position with id `id`, or the spine length.
fn first_spine_index(refs: &Vec<StandardSpineItemref>, id: &[char]) -> (r: usize)
    ensures
        r == first_spine_position(refs@, id@, 0),
{
    let mut i: usize = 0;
    while i < refs.len()
        invariant
            i <= refs@.len(),
            first_spine_position(refs@, id@, 0) == first_spine_position(refs@, id@, i as int),
        decreases refs@.len() - i,
    {
        let iv = chars_of(refs[i].idref.as_str());
        if chars_eq(iv.as_slice(), id) {
            return i;
        }
        i += 1;
    }
    refs.len()
}

/// The chapters of the standardized package, as `result_chapters` gives them.
fn refactored_chapters(manifest: &StandardManifest, spine: &StandardSpine, toc: &[TocEntry]) -> (r: Vec<StandardChapter>)
    ensures
        r@.map_values(|c: StandardChapter| chapter_view(c)) == result_chapters(
            manifest.items@,
            spine.itemrefs@,
            nav_flat(nav_views(toc@)),
        ),
{
    let ghost items = manifest.items@;
    let ghost flat = nav_flat(nav_views(toc@));
    let mut chapters: Vec<StandardChapter> = Vec::new();
    let n = manifest.items.len();
    let mut i: usize = 0;
    while i < n
        invariant
            n == items.len(),
            items == manifest.items@,
            flat == nav_flat(nav_views(toc@)),
            i <= n,
            chapters@.map_values(|c: StandardChapter| chapter_view(c)) == result_chapters(
                items.take(i as int),
                spine.itemrefs@,
                flat,
            ),
        decreases n - i,
    {
        let item = &manifest.items[i];
        let ghost t = items.take(i + 1);
        proof {
            assert(t.drop_last() =~= items.take(i as int));
            assert(t.last() == items[i as int]);
        }
        if is_renderable_chapter_item(item) {
            let title = find_navigation_title(toc, item.href.as_str());
            let href = chars_of(item.href.as_str());
            proof {
                lemma_rfind_char_bounds(href@, '/', href@.len() as int);
            }
            let original = match rfind_char_exec(href.as_slice(), '/') {
                Some(p) => slice_chars(href.as_slice(), p + 1, href.len()),
                None => chars_of(item.href.as_str()),
            };
            let mut path = chars_of("OEBPS/");
            extend_str(&mut path, item.href.as_str());
            let idv = chars_of(item.id.as_str());
            let order = first_spine_index(&spine.itemrefs, idv.as_slice());
            let c = StandardChapter {
                id: item.id.clone(),
                original_filename: string_of(original.as_slice()),
                standard_path: string_of(path.as_slice()),
                title,
                order,
            };
            let ghost before = chapters@;
            chapters.push(c);
            proof {
                assert(opt_view(c.title) == opt_seq(c.title));
                assert(chapters@.map_values(|c: StandardChapter| chapter_view(c)) =~= before.map_values(
                    |c: StandardChapter| chapter_view(c),
                ).push(chapter_view(c)));
            }
        }
        i += 1;
    }
    proof {
        assert(items.take(n as int) =~= items);
    }
    chapters
}

/// The mathematical value of the metadata.
pub open spec fn metadata_view(m: EpubMetadata) -> (Seq<char>, Option<Seq<char>>, Option<Seq<char>>, Seq<char>) {
    (m.title@, opt_view(m.author), opt_view(m.language), m.identifier@)
}

/// A copy of an optional string.
fn copy_opt_string(o: &Option<String>) -> (r: Option<String>)
    ensures
        opt_view(r) == opt_view(*o),
{
    match o {
        Some(s) => Some(s.clone()),
        None => None,
    }
}

/// A copy of the metadata.
pub fn copy_metadata(m: &EpubMetadata) -> (r: EpubMetadata)
    ensures
        metadata_view(r) == metadata_view(*m),
{
    EpubMetadata {
        title: m.title.clone(),
        author: copy_opt_string(&m.author),
        language: copy_opt_string(&m.language),
        identifier: m.identifier.clone(),
    }
}

/// What the front end receives of a standardized package: its id, metadata
/// and storage path; its chapters (the manifest items to show, in manifest
/// order, each titled from the navigation and placed at its first spine
/// position); the package paths of its styles, images and fonts; and its
/// navigation, field by field.
pub fn convert_to_refactored_result(refactored: &RefactoredEpub) -> (r: RefactoredEpubResult)
    ensures
        r.epub_id@ == refactored.epub_id@,
        r.storage_path@ == refactored.storage_path@,
        metadata_view(r.metadata) == metadata_view(refactored.metadata),
        r.structure.chapters@.map_values(|c: StandardChapter| chapter_view(c)) == result_chapters(
            refactored.manifest.items@,
            refactored.spine.itemrefs@,
            nav_flat(nav_views(refactored.navigation.toc@)),
        ),
        string_views(r.structure.styles@) == paths_with_media_type(
            refactored.manifest.items@,
            |m: Seq<char>| m == "text/css"@,
        ),
        string_views(r.structure.images@) == paths_with_media_type(
            refactored.manifest.items@,
            |m: Seq<char>| starts_with(m, "image/"@),
        ),
        string_views(r.structure.fonts@) == paths_with_media_type(
            refactored.manifest.items@,
            |m: Seq<char>| spec_is_font_media_type(m),
        ),
        navigation_views(r.structure.navigation@) == nav_views(refactored.navigation.toc@),
{
    let toc = refactored.navigation.toc.as_slice();
    let navigation = toc_entries_to_navigation_entries(toc);
    let base = build_standard_epub_structure(&refactored.manifest, &refactored.spine, navigation);
    let chapters = refactored_chapters(&refactored.manifest, &refactored.spine, toc);
    let structure = StandardEpubStructure {
        chapters,
        styles: base.styles,
        images: base.images,
        fonts: base.fonts,
        navigation: base.navigation,
    };
    RefactoredEpubResult {
        epub_id: refactored.epub_id.clone(),
        metadata: copy_metadata(&refactored.metadata),
        structure,
        storage_path: refactored.storage_path.clone(),
    }
}

// ---------------------------------------------------------------------------
// The id of a standardized package
// ---------------------------------------------------------------------------

/// What `char::is_alphanumeric` returns for `c` (Unicode Alphabetic, or a
/// numeric general category).
pub uninterp spec fn is_alphanumeric_char(c: char) -> bool;

/// `char::is_alphanumeric`; the Unicode tables behind it are not restated:
/// its result is named by `is_alphanumeric_char`. Of an ASCII character it
/// states the ASCII rule: letters and digits, nothing else.
#[verifier::external_body]
fn char_is_alphanumeric(c: char) -> (r: bool)
    ensures
        r == is_alphanumeric_char(c),
        crate::text::is_ascii_char(c) ==> (r <==> ('a' <= c && c <= 'z') || ('A' <= c && c <= 'Z') || ('0' <= c && c <= '9')),
{
    c.is_alphanumeric()
}

/// `SystemTime::now()` as whole milliseconds after the Unix epoch; `None` if
/// the clock is set before the epoch. Nothing is stated of the value: it is
/// the time.
#[verifier::external_body]
fn now_unix_millis() -> (r: Option<u128>) {
    match std::time::SystemTime::now().duration_since(std::time::UNIX_EPOCH) {
        Ok(d) => Some(d.as_millis()),
        Err(_) => None,
    }
}

/// `char::is_alphanumeric` of `c`: for an ASCII character, a letter or a
/// digit; for any other, the Unicode property named by
/// `is_alphanumeric_char`.
pub open spec fn char_alphanumeric(c: char) -> bool {
    if crate::text::is_ascii_char(c) {
        ('a' <= c && c <= 'z') || ('A' <= c && c <= 'Z') || ('0' <= c && c <= '9')
    } else {
        is_alphanumeric_char(c)
    }
}

/// The alphanumeric characters of `s`, in order.
pub open spec fn alphanumeric_chars(s: Seq<char>) -> Seq<char>
    decreases s.len(),
{
    if s.len() == 0 {
        seq![]
    } else if char_alphanumeric(s.last()) {
        alphanumeric_chars(s.drop_last()).push(s.last())
    } else {
        alphanumeric_chars(s.drop_last())
    }
}

/// At most the first `n` characters of `s`.
pub open spec fn at_most(s: Seq<char>, n: nat) -> Seq<char> {
    if s.len() <= n {
        s
    } else {
        s.take(n as int)
    }
}

/// The id of a package: the first twenty alphanumeric characters of its
/// title (or `epub` where there are none), a `-`, and the time in
/// milliseconds.
pub open spec fn spec_epub_id(title: Seq<char>, millis: nat) -> Seq<char> {
    let part = at_most(alphanumeric_chars(title), 20);
    (if part.len() == 0 {
        "epub"@
    } else {
        part
    }) + "-"@ + decimal(millis)
}

/// The id of a package with this metadata, made at `millis` milliseconds
/// after the Unix epoch.
pub fn epub_id_from(metadata: &EpubMetadata, millis: u128) -> (r: String)
    ensures
        r@ == spec_epub_id(metadata.title@, millis as nat),
{
    let t = chars_of(metadata.title.as_str());
    let mut out: Vec<char> = Vec::new();
    let mut i: usize = 0;
    while i < t.len()
        invariant
            i <= t@.len(),
            t@ == metadata.title@,
            out@ == at_most(alphanumeric_chars(t@.take(i as int)), 20),
        decreases t@.len() - i,
    {
        let c = t[i];
        proof {
            let a = t@.take(i + 1);
            assert(a.drop_last() =~= t@.take(i as int));
            assert(a.last() == c);
        }
        if out.len() < 20 && char_is_alphanumeric(c) {
            let ghost before = out@;
            out.push(c);
            proof {
                let prev = alphanumeric_chars(t@.take(i as int));
                assert(before == prev);
                assert(alphanumeric_chars(t@.take(i + 1)) == prev.push(c));
            }
        } else {
            proof {
                let prev = alphanumeric_chars(t@.take(i as int));
                let next = alphanumeric_chars(t@.take(i + 1));
                if char_alphanumeric(c) {
                    assert(next == prev.push(c));
                    assert(prev.len() >= 20);
                    assert(at_most(next, 20) =~= at_most(prev, 20));
                }
            }
        }
        i += 1;
    }
    proof {
        assert(t@.take(t@.len() as int) =~= t@);
        reveal_strlit("epub");
        reveal_strlit("-");
    }
    let mut id = if out.len() == 0 {
        chars_of("epub")
    } else {
        out
    };
    id.push('-');
    let d = decimal_chars(millis);
    extend_chars(&mut id, d.as_slice());
    string_of(id.as_slice())
}

/// A new id for a package with this metadata, from the current time; `None`
/// where the clock is set before the Unix epoch.
pub fn generate_epub_id(metadata: &EpubMetadata) -> (r: Option<String>)
    ensures
        r matches Some(id) ==> exists|millis: nat| millis <= u128::MAX && id@ == spec_epub_id(metadata.title@, millis),
{
    match now_unix_millis() {
        Some(ms) => Some(epub_id_from(metadata, ms)),
        None => None,
    }
}

} // verus!
