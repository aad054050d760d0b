//! The standardized package as the front end sees it: links inside
//! chapters resolved to chapters of the package, and the chapter, resource
//! and navigation lists of the package.

use vstd::prelude::*;
use crate::epub_path::{
    casefold_chars, has_standard_dir_prefix_chars, manifest_path_chars, normalize_chars, oebps,
    parent_chars, path_part, reference_anchor_chars, resolve_relative_chars, spec_casefold,
    spec_has_standard_dir_prefix, spec_manifest_path, spec_normalize, spec_parent,
    spec_reference_anchor, spec_resolve_relative, starts_with_oebps, suffix_pos_exec,
};
use crate::models::{
    NavigationEntry, StandardChapter, StandardEpubStructure, StandardSpine, StandardSpineItemref, RefactorError, ResolvedChapterHrefDto, StandardManifest, StandardManifestItem,
    TocChapterDto, TocEntry,
};
use crate::toc_edit::{nav_view, nav_views, toc_nav, toc_navs, NavView};
use crate::toc_tree::{toc_view, toc_views};
use crate::text::{
    chars_eq, chars_of, extend_chars, extend_str, rfind_char, rfind_char_exec, slice_chars, starts_with,
    starts_with_str, string_of, trim, trim_chars,
};
use crate::epub_path::{lemma_rfind_char_bounds, string_views};
use crate::toc_groups::{is_renderable_chapter_item, spec_is_renderable_chapter_item};
use crate::toc_tree::opt_view;

verus! {

// ---------------------------------------------------------------------------
// Links between chapters
// ---------------------------------------------------------------------------

/// The package path a link's path names: paths under `OEBPS/` or a
/// standard directory name it from the package root, others are resolved
/// against the directory of the current chapter (`OEBPS/Text` without one).
pub open spec fn spec_resolve_chapter_reference_path(current: Option<Seq<char>>, path: Seq<char>) -> Seq<char> {
    let n = spec_normalize(path);
    if starts_with(n, oebps()) || spec_has_standard_dir_prefix(n) {
        spec_manifest_path(n)
    } else {
        let base = match current {
            Some(c) => spec_parent(c),
            None => "OEBPS/Text"@,
        };
        spec_resolve_relative(base, n)
    }
}

/// The package path of the first chapter to show, from position `i` of the
/// manifest on, whose case-folded path is `key`.
pub open spec fn first_chapter_with_key(items: Seq<StandardManifestItem>, key: Seq<char>, i: int) -> Option<Seq<char>>
    decreases items.len() - i,
{
    if i < 0 || i >= items.len() {
        None
    } else if spec_is_renderable_chapter_item(items[i]) && spec_casefold("OEBPS/"@ + items[i].href@) == key {
        Some("OEBPS/"@ + items[i].href@)
    } else {
        first_chapter_with_key(items, key, i + 1)
    }
}

/// The chapter of the manifest whose path is `target`, ignoring case.
pub open spec fn spec_resolve_manifest_chapter_path(items: Seq<StandardManifestItem>, target: Seq<char>) -> Option<Seq<char>> {
    first_chapter_with_key(items, spec_casefold(target), 0)
}

/// The package path a link's path names, seen from the current chapter.
pub fn resolve_chapter_reference_path(current_chapter_path: Option<&str>, path_part: &str) -> (r: String)
    ensures
        r@ == spec_resolve_chapter_reference_path(
            match current_chapter_path {
                Some(c) => Some(c@),
                None => None,
            },
            path_part@,
        ),
{
    let p = chars_of(path_part);
    let n = normalize_chars(p.as_slice());
    if starts_with_oebps(n.as_slice()) || has_standard_dir_prefix_chars(n.as_slice()) {
        return string_of(manifest_path_chars(n.as_slice()).as_slice());
    }
    let base = match current_chapter_path {
        Some(c) => {
            let cv = chars_of(c);
            parent_chars(cv.as_slice())
        },
        None => chars_of("OEBPS/Text"),
    };
    string_of(resolve_relative_chars(base.as_slice(), n.as_slice()).as_slice())
}

/// The chapter of the manifest whose package path is `target_path`, ignoring case.
pub fn resolve_manifest_chapter_path(manifest: &StandardManifest, target_path: &str) -> (r: Option<String>)
    ensures
        opt_view(r) == spec_resolve_manifest_chapter_path(manifest.items@, target_path@),
{
    let tv = chars_of(target_path);
    let key = casefold_chars(tv.as_slice());
    let mut i: usize = 0;
    while i < manifest.items.len()
        invariant
            i <= manifest.items@.len(),
            key@ == spec_casefold(target_path@),
            spec_resolve_manifest_chapter_path(manifest.items@, target_path@) == first_chapter_with_key(
                manifest.items@,
                key@,
                i as int,
            ),
        decreases manifest.items@.len() - i,
    {
        let item = &manifest.items[i];
        if is_renderable_chapter_item(item) {
            let mut p = chars_of("OEBPS/");
            extend_str(&mut p, item.href.as_str());
            let k = casefold_chars(p.as_slice());
            if chars_eq(k.as_slice(), key.as_slice()) {
                return Some(string_of(p.as_slice()));
            }
        }
        i += 1;
    }
    None
}

/// What a link of a chapter resolves to.
pub open spec fn spec_resolve_chapter_href(
    items: Seq<StandardManifestItem>,
    current: Option<Seq<char>>,
    href: Seq<char>,
) -> Result<(Option<Seq<char>>, Option<Seq<char>>, bool), Seq<char>> {
    let t = trim(href);
    if t.len() == 0 {
        Ok((None, None, false))
    } else {
        let path = path_part(t);
        let anchor = spec_reference_anchor(t);
        if path.len() == 0 {
            Ok((current, anchor, true))
        } else {
            match spec_resolve_manifest_chapter_path(items, spec_resolve_chapter_reference_path(current, path)) {
                None => Err("链接目标章节不存在: "@ + t),
                Some(cp) => Ok((
                    Some(cp),
                    anchor,
                    current matches Some(c) && spec_casefold(c) == spec_casefold(cp),
                )),
            }
        }
    }
}

/// Resolves a link of the current chapter: a blank link resolves to
/// nothing; a fragment-only link to the current chapter; another link to
/// the chapter of the manifest its path names (ignoring case), with its
/// anchor, and whether that is the current chapter. A link to no chapter
/// of the manifest is a missing file.
pub fn resolve_chapter_href(
    manifest: &StandardManifest,
    current_chapter_path: Option<&str>,
    href: &str,
) -> (r: Result<ResolvedChapterHrefDto, RefactorError>)
    ensures
        ({
            let cur = match current_chapter_path {
                Some(c) => Some(c@),
                None => None,
            };
            match spec_resolve_chapter_href(manifest.items@, cur, href@) {
                Ok(t) => r matches Ok(d) && opt_view(d.chapter_path) == t.0 && opt_view(d.anchor) == t.1
                    && d.same_chapter == t.2,
                Err(m) => r matches Err(e) && e matches RefactorError::MissingFile(s) && s@ == m,
            }
        }),
{
    let hv = chars_of(href);
    let t = trim_chars(hv.as_slice());
    if t.len() == 0 {
        return Ok(ResolvedChapterHrefDto { chapter_path: None, anchor: None, same_chapter: false });
    }
    let pos = suffix_pos_exec(t.as_slice());
    let path = slice_chars(t.as_slice(), 0, pos);
    let anchor = match reference_anchor_chars(t.as_slice()) {
        Some(a) => Some(string_of(a.as_slice())),
        None => None,
    };
    if path.len() == 0 {
        let cur = match current_chapter_path {
            Some(c) => Some(string_of(chars_of(c).as_slice())),
            None => None,
        };
        return Ok(ResolvedChapterHrefDto { chapter_path: cur, anchor, same_chapter: true });
    }
    let path_str = string_of(path.as_slice());
    let resolved = resolve_chapter_reference_path(current_chapter_path, path_str.as_str());
    match resolve_manifest_chapter_path(manifest, resolved.as_str()) {
        None => {
            let mut m = chars_of("链接目标章节不存在: ");
            extend_chars(&mut m, t.as_slice());
            Err(RefactorError::MissingFile(string_of(m.as_slice())))
        },
        Some(cp) => {
            let same = match current_chapter_path {
                Some(c) => {
                    let cv = chars_of(c);
                    let a = casefold_chars(cv.as_slice());
                    let pv = chars_of(cp.as_str());
                    let b = casefold_chars(pv.as_slice());
                    chars_eq(a.as_slice(), b.as_slice())
                },
                None => false,
            };
            Ok(ResolvedChapterHrefDto { chapter_path: Some(cp), anchor, same_chapter: same })
        },
    }
}


// ---------------------------------------------------------------------------
// Navigation for the front end
// ---------------------------------------------------------------------------

/// The view of a front-end navigation entry.
pub open spec fn navigation_view(n: NavigationEntry) -> NavView
    decreases n, 0nat,
{
    NavView {
        id: n.id@,
        label: n.label@,
        content_src: n.content_src@,
        level: n.level as nat,
        children: navigation_views(n.children@),
    }
}

/// The views of front-end navigation entries.
pub open spec fn navigation_views(ns: Seq<NavigationEntry>) -> Seq<NavView>
    decreases ns, 1nat,
{
    if ns.len() == 0 {
        seq![]
    } else {
        navigation_views(ns.drop_last()).push(navigation_view(ns.last()))
    }
}

/// The front-end entry of a table-of-contents entry.
fn toc_chapter_to_navigation(e: &TocChapterDto) -> (r: NavigationEntry)
    ensures
        navigation_view(r) == toc_nav(toc_view(*e)),
    decreases *e, 0nat,
{
    let children = toc_chapters_to_navigation(e.children.as_slice());
    let r = NavigationEntry {
        id: e.id.clone(),
        label: e.label.clone(),
        content_src: e.content_src.clone(),
        level: e.level,
        children,
    };
    proof {
        assert(navigation_view(r) =~= toc_nav(toc_view(*e)));
    }
    r
}

/// The front-end navigation of table-of-contents entries: id, label,
/// reference and level of each, and its children.
pub fn toc_chapters_to_navigation(entries: &[TocChapterDto]) -> (r: Vec<NavigationEntry>)
    ensures
        navigation_views(r@) == toc_navs(toc_views(entries@)),
    decreases entries@, 1nat,
{
    let n = entries.len();
    let mut out: Vec<NavigationEntry> = Vec::new();
    let mut i: usize = 0;
    while i < n
        invariant
            n == entries@.len(),
            i <= n,
            navigation_views(out@) == toc_navs(toc_views(entries@.take(i as int))),
        decreases n - i,
    {
        let ghost before = out@;
        out.push(toc_chapter_to_navigation(&entries[i]));
        proof {
            assert(out@.drop_last() =~= before);
            let t = entries@.take(i + 1);
            assert(t.drop_last() =~= entries@.take(i as int));
            assert(toc_views(t).drop_last() =~= toc_views(entries@.take(i as int)));
        }
        i += 1;
    }
    proof {
        assert(entries@.take(n as int) =~= entries@);
    }
    out
}

/// The front-end entry of a navigation entry.
fn toc_entry_to_navigation(e: &TocEntry) -> (r: NavigationEntry)
    ensures
        navigation_view(r) == nav_view(*e),
    decreases *e, 0nat,
{
    let children = toc_entries_to_navigation_entries(e.children.as_slice());
    let r = NavigationEntry {
        id: e.id.clone(),
        label: e.label.clone(),
        content_src: e.content_src.clone(),
        level: e.level,
        children,
    };
    proof {
        assert(navigation_view(r) =~= nav_view(*e));
    }
    r
}

/// The front-end navigation of navigation entries, field by field.
pub fn toc_entries_to_navigation_entries(entries: &[TocEntry]) -> (r: Vec<NavigationEntry>)
    ensures
        navigation_views(r@) == nav_views(entries@),
    decreases entries@, 1nat,
{
    let n = entries.len();
    let mut out: Vec<NavigationEntry> = Vec::new();
    let mut i: usize = 0;
    while i < n
        invariant
            n == entries@.len(),
            i <= n,
            navigation_views(out@) == nav_views(entries@.take(i as int)),
        decreases n - i,
    {
        let ghost before = out@;
        out.push(toc_entry_to_navigation(&entries[i]));
        proof {
            assert(out@.drop_last() =~= before);
            let t = entries@.take(i + 1);
            assert(t.drop_last() =~= entries@.take(i as int));
        }
        i += 1;
    }
    proof {
        assert(entries@.take(n as int) =~= entries@);
    }
    out
}

/// Each navigation entry followed by its descendants, in document order.
pub open spec fn nav_flat(vs: Seq<NavView>) -> Seq<NavView>
    decreases vs, 1nat,
{
    if vs.len() == 0 {
        seq![]
    } else {
        nav_flat(vs.drop_last()) + nav_flat_entry(vs.last())
    }
}

/// A navigation entry followed by its descendants, in document order.
pub open spec fn nav_flat_entry(v: NavView) -> Seq<NavView>
    decreases v, 0nat,
{
    seq![v] + nav_flat(v.children)
}

/// The title that the navigation gives a chapter href: the label of the
/// first entry, in document order from position `i`, whose case-folded
/// reference is the case-folded href (never for an empty key).
pub open spec fn title_from(flat: Seq<NavView>, key: Seq<char>, i: int) -> Option<Seq<char>>
    decreases flat.len() - i,
{
    if i < 0 || i >= flat.len() || key.len() == 0 {
        None
    } else if spec_casefold(flat[i].content_src) == key {
        Some(flat[i].label)
    } else {
        title_from(flat, key, i + 1)
    }
}

/// Appends the case-folded references and the labels of the entries and
/// their descendants, in document order.
fn collect_navigation_titles(
    entries: &[NavigationEntry],
    keys: &mut Vec<Vec<char>>,
    labels: &mut Vec<String>,
)
    requires
        old(keys)@.len() == old(labels)@.len(),
    ensures
        final(keys)@.len() == final(labels)@.len(),
        final(keys)@.len() == old(keys)@.len() + nav_flat(navigation_views(entries@)).len(),
        forall|k: int| 0 <= k < old(keys)@.len() ==> (#[trigger] final(keys)@[k]) == old(keys)@[k] && final(labels)@[k] == old(labels)@[k],
        forall|k: int| 0 <= k < nav_flat(navigation_views(entries@)).len() ==> {
            &&& (#[trigger] final(keys)@[old(keys)@.len() + k])@ == spec_casefold(nav_flat(navigation_views(entries@))[k].content_src)
            &&& final(labels)@[old(keys)@.len() + k]@ == nav_flat(navigation_views(entries@))[k].label
        },
    decreases entries@, 1nat,
{
    let ghost k0 = keys@.len();
    let ghost keys0 = keys@;
    let ghost labels0 = labels@;
    let n = entries.len();
    let mut i: usize = 0;
    proof {
        assert(nav_flat(navigation_views(entries@.take(0))) =~= Seq::<NavView>::empty());
    }
    while i < n
        invariant
            n == entries@.len(),
            i <= n,
            keys@.len() == labels@.len(),
            keys@.len() == k0 + nav_flat(navigation_views(entries@.take(i as int))).len(),
            forall|k: int| 0 <= k < k0 ==> (#[trigger] keys@[k]) == keys0[k] && labels@[k] == labels0[k],
            forall|k: int| 0 <= k < nav_flat(navigation_views(entries@.take(i as int))).len() ==> {
                &&& (#[trigger] keys@[k0 + k])@ == spec_casefold(nav_flat(navigation_views(entries@.take(i as int)))[k].content_src)
                &&& labels@[k0 + k]@ == nav_flat(navigation_views(entries@.take(i as int)))[k].label
            },
        decreases n - i,
    {
        let ghost prev_flat = nav_flat(navigation_views(entries@.take(i as int)));
        let ghost kb = keys@;
        let ghost lb = labels@;
        let e = &entries[i];
        let cv = chars_of(e.content_src.as_str());
        keys.push(casefold_chars(cv.as_slice()));
        labels.push(e.label.clone());
        let ghost k1 = keys@;
        let ghost l1 = labels@;
        collect_navigation_titles(e.children.as_slice(), keys, labels);
        proof {
            let t = entries@.take(i + 1);
            assert(t.drop_last() =~= entries@.take(i as int));
            assert(navigation_views(t).drop_last() =~= navigation_views(entries@.take(i as int)));
            let ev = navigation_view(entries@[i as int]);
            assert(nav_flat(navigation_views(t)) == prev_flat + nav_flat_entry(ev));
            let cf = nav_flat(navigation_views(e.children@));
            assert(ev.children == navigation_views(e.children@));
            let new_flat = nav_flat(navigation_views(t));
            assert(new_flat =~= prev_flat + seq![ev] + cf);
            assert forall|k: int| 0 <= k < new_flat.len() implies {
                &&& (#[trigger] keys@[k0 + k])@ == spec_casefold(new_flat[k].content_src)
                &&& labels@[k0 + k]@ == new_flat[k].label
            } by {
                if k < prev_flat.len() {
                    assert(keys@[k0 + k] == k1[k0 + k]);
                    assert(k1[k0 + k] == kb[k0 + k]);
                    assert(new_flat[k] == prev_flat[k]);
                } else if k == prev_flat.len() {
                    assert(keys@[k0 + k] == k1[k0 + k]);
                    assert(new_flat[k] == ev);
                } else {
                    let j = k - prev_flat.len() - 1;
                    assert(new_flat[k] == cf[j]);
                    assert(k0 + k == k1.len() + j);
                }
            }
        }
        i += 1;
    }
    proof {
        assert(entries@.take(n as int) =~= entries@);
    }
}


// ---------------------------------------------------------------------------
// The structure of the standardized package
// ---------------------------------------------------------------------------

/// The mathematical value of a chapter of the standardized package.
#[verifier::ext_equal]
pub ghost struct ChapterView {
    pub id: Seq<char>,
    pub original_filename: Seq<char>,
    pub standard_path: Seq<char>,
    pub title: Option<Seq<char>>,
    pub order: nat,
}

/// The view of a chapter.
pub open spec fn chapter_view(c: StandardChapter) -> ChapterView {
    ChapterView {
        id: c.id@,
        original_filename: c.original_filename@,
        standard_path: c.standard_path@,
        title: opt_view(c.title),
        order: c.order as nat,
    }
}

/// The last spine entry below `end` with id `id`.
pub open spec fn last_ref_with_id(refs: Seq<StandardSpineItemref>, id: Seq<char>, end: int) -> Option<int>
    decreases end,
{
    if end <= 0 || end > refs.len() {
        None
    } else if refs[end - 1].idref@ == id {
        Some(end - 1)
    } else {
        last_ref_with_id(refs, id, end - 1)
    }
}

/// The position of a manifest item in the reading order (the last spine
/// entry with its id), or the length of the spine if it is not there.
pub open spec fn spine_order_of(refs: Seq<StandardSpineItemref>, id: Seq<char>) -> nat {
    match last_ref_with_id(refs, id, refs.len() as int) {
        Some(k) => k as nat,
        None => refs.len(),
    }
}

/// The part of an href after its last `/`.
pub open spec fn after_last_slash(h: Seq<char>) -> Seq<char> {
    match rfind_char(h, '/') {
        Some(i) => h.skip(i + 1),
        None => h,
    }
}

/// The chapter of a manifest item: its id, the name after the last `/` of
/// its href, its package path, the title the navigation gives its href, and
/// its position in the reading order.
pub open spec fn chapter_of(item: StandardManifestItem, refs: Seq<StandardSpineItemref>, flat: Seq<NavView>) -> ChapterView {
    ChapterView {
        id: item.id@,
        original_filename: after_last_slash(item.href@),
        standard_path: "OEBPS/"@ + item.href@,
        title: title_from(flat, spec_casefold(item.href@), 0),
        order: spine_order_of(refs, item.id@),
    }
}

/// The chapters of the manifest items to show, in manifest order.
pub open spec fn chapters_of(items: Seq<StandardManifestItem>, refs: Seq<StandardSpineItemref>, flat: Seq<NavView>) -> Seq<ChapterView>
    decreases items.len(),
{
    if items.len() == 0 {
        seq![]
    } else {
        let prev = chapters_of(items.drop_last(), refs, flat);
        if spec_is_renderable_chapter_item(items.last()) {
            prev.push(chapter_of(items.last(), refs, flat))
        } else {
            prev
        }
    }
}

/// The package paths of the manifest items whose media type satisfies `p`.
pub open spec fn paths_with_media_type(items: Seq<StandardManifestItem>, p: spec_fn(Seq<char>) -> bool) -> Seq<Seq<char>>
    decreases items.len(),
{
    if items.len() == 0 {
        seq![]
    } else {
        let prev = paths_with_media_type(items.drop_last(), p);
        if p(items.last().media_type@) {
            prev.push("OEBPS/"@ + items.last().href@)
        } else {
            prev
        }
    }
}

/// A font media type.
pub open spec fn spec_is_font_media_type(m: Seq<char>) -> bool {
    ||| m == "font/ttf"@
    ||| m == "font/otf"@
    ||| m == "font/woff"@
    ||| m == "font/woff2"@
    ||| m == "application/font-ttf"@
    ||| m == "application/font-woff"@
    ||| m == "application/font-woff2"@
}

/// Whether `m` is one of the literal `lit`.
fn is_literal(m: &[char], lit: &str) -> (r: bool)
    ensures
        r == (m@ == lit@),
{
    let l = chars_of(lit);
    chars_eq(m, l.as_slice())
}

/// Whether a media type is a font type.
pub fn is_font_media_type(m: &[char]) -> (r: bool)
    ensures
        r == spec_is_font_media_type(m@),
{
    is_literal(m, "font/ttf") || is_literal(m, "font/otf") || is_literal(m, "font/woff") || is_literal(
        m,
        "font/woff2",
    ) || is_literal(m, "application/font-ttf") || is_literal(m, "application/font-woff")
        || is_literal(m, "application/font-woff2")
}

/// The position of a manifest item in the reading order.
fn spine_order(spine: &StandardSpine, id: &[char]) -> (r: usize)
    ensures
        r == spine_order_of(spine.itemrefs@, id@),
{
    let mut end = spine.itemrefs.len();
    while end > 0
        invariant
            end <= spine.itemrefs@.len(),
            last_ref_with_id(spine.itemrefs@, id@, spine.itemrefs@.len() as int) == last_ref_with_id(
                spine.itemrefs@,
                id@,
                end as int,
            ),
        decreases end,
    {
        let iv = chars_of(spine.itemrefs[end - 1].idref.as_str());
        if chars_eq(iv.as_slice(), id) {
            return end - 1;
        }
        end -= 1;
    }
    spine.itemrefs.len()
}

/// The title the navigation gives an href.
fn chapter_title(keys: &Vec<Vec<char>>, labels: &Vec<String>, href: &[char], Ghost(flat): Ghost<Seq<NavView>>) -> (r: Option<String>)
    requires
        keys@.len() == flat.len(),
        labels@.len() == flat.len(),
        forall|k: int| 0 <= k < flat.len() ==> (#[trigger] keys@[k])@ == spec_casefold(flat[k].content_src)
            && labels@[k]@ == flat[k].label,
    ensures
        opt_view(r) == title_from(flat, spec_casefold(href@), 0),
{
    let key = casefold_chars(href);
    if key.len() == 0 {
        return None;
    }
    let mut i: usize = 0;
    while i < keys.len()
        invariant
            i <= keys@.len(),
            keys@.len() == flat.len(),
            labels@.len() == flat.len(),
            key@.len() > 0,
            key@ == spec_casefold(href@),
            forall|k: int| 0 <= k < flat.len() ==> (#[trigger] keys@[k])@ == spec_casefold(flat[k].content_src)
                && labels@[k]@ == flat[k].label,
            title_from(flat, key@, 0) == title_from(flat, key@, i as int),
        decreases keys@.len() - i,
    {
        if chars_eq(keys[i].as_slice(), key.as_slice()) {
            return Some(labels[i].clone());
        }
        i += 1;
    }
    None
}

/// The chapters, styles, images and fonts of the standardized package, and
/// its navigation: the chapters are the manifest items to show, in manifest
/// order, each titled from the navigation and placed in the reading order;
/// styles, images and fonts are the package paths of the items of those
/// media types.
pub fn build_standard_epub_structure(
    manifest: &StandardManifest,
    spine: &StandardSpine,
    navigation: Vec<NavigationEntry>,
) -> (r: StandardEpubStructure)
    ensures
        r.chapters@.map_values(|c: StandardChapter| chapter_view(c)) == chapters_of(
            manifest.items@,
            spine.itemrefs@,
            nav_flat(navigation_views(navigation@)),
        ),
        string_views(r.styles@) == paths_with_media_type(manifest.items@, |m: Seq<char>| m == "text/css"@),
        string_views(r.images@) == paths_with_media_type(manifest.items@, |m: Seq<char>| starts_with(m, "image/"@)),
        string_views(r.fonts@) == paths_with_media_type(manifest.items@, |m: Seq<char>| spec_is_font_media_type(m)),
        r.navigation == navigation,
{
    let ghost flat = nav_flat(navigation_views(navigation@));
    let mut keys: Vec<Vec<char>> = Vec::new();
    let mut labels: Vec<String> = Vec::new();
    collect_navigation_titles(navigation.as_slice(), &mut keys, &mut labels);
    assert forall|k: int| 0 <= k < flat.len() implies (#[trigger] keys@[k])@ == spec_casefold(flat[k].content_src)
        && labels@[k]@ == flat[k].label by {
        assert(keys@[0 + k] == keys@[k]);
    }
    let ghost items = manifest.items@;
    let ghost css = |m: Seq<char>| m == "text/css"@;
    let ghost img = |m: Seq<char>| starts_with(m, "image/"@);
    let ghost font = |m: Seq<char>| spec_is_font_media_type(m);
    let mut chapters: Vec<StandardChapter> = Vec::new();
    let mut styles: Vec<String> = Vec::new();
    let mut images: Vec<String> = Vec::new();
    let mut fonts: Vec<String> = Vec::new();
    let n = manifest.items.len();
    let mut i: usize = 0;
    while i < n
        invariant
            n == items.len(),
            items == manifest.items@,
            flat == nav_flat(navigation_views(navigation@)),
            keys@.len() == flat.len(),
            labels@.len() == flat.len(),
            forall|k: int| 0 <= k < flat.len() ==> (#[trigger] keys@[k])@ == spec_casefold(flat[k].content_src)
                && labels@[k]@ == flat[k].label,
            i <= n,
            css == (|m: Seq<char>| m == "text/css"@),
            img == (|m: Seq<char>| starts_with(m, "image/"@)),
            font == (|m: Seq<char>| spec_is_font_media_type(m)),
            chapters@.map_values(|c: StandardChapter| chapter_view(c)) == chapters_of(items.take(i as int), spine.itemrefs@, flat),
            string_views(styles@) == paths_with_media_type(items.take(i as int), css),
            string_views(images@) == paths_with_media_type(items.take(i as int), img),
            string_views(fonts@) == paths_with_media_type(items.take(i as int), font),
        decreases n - i,
    {
        let item = &manifest.items[i];
        let ghost t = items.take(i + 1);
        proof {
            assert(t.drop_last() =~= items.take(i as int));
            assert(t.last() == items[i as int]);
        }
        let mut path = chars_of("OEBPS/");
        extend_str(&mut path, item.href.as_str());
        let href = chars_of(item.href.as_str());
        if is_renderable_chapter_item(item) {
            let title = chapter_title(&keys, &labels, href.as_slice(), Ghost(flat));
            proof {
                lemma_rfind_char_bounds(href@, '/', href@.len() as int);
            }
            let original = match rfind_char_exec(href.as_slice(), '/') {
                Some(p) => {
                    assert(p < href@.len());
                    slice_chars(href.as_slice(), p + 1, href.len())
                },
                None => chars_of(item.href.as_str()),
            };
            let idv = chars_of(item.id.as_str());
            let order = spine_order(spine, idv.as_slice());
            let c = StandardChapter {
                id: item.id.clone(),
                original_filename: string_of(original.as_slice()),
                standard_path: string_of(path.as_slice()),
                title,
                order,
            };
            let ghost before = chapters@;
            chapters.push(c);
            proof {
                assert(chapter_view(c) =~= chapter_of(items[i as int], spine.itemrefs@, flat));
                assert(chapters@.map_values(|c: StandardChapter| chapter_view(c)) =~= before.map_values(
                    |c: StandardChapter| chapter_view(c),
                ).push(chapter_view(c)));
            }
        }
        let mt = chars_of(item.media_type.as_str());
        if is_literal(mt.as_slice(), "text/css") {
            let ghost before = styles@;
            styles.push(string_of(path.as_slice()));
            proof {
                assert(string_views(styles@) =~= string_views(before).push(path@));
            }
        }
        if starts_with_str(mt.as_slice(), "image/") {
            let ghost before = images@;
            images.push(string_of(path.as_slice()));
            proof {
                assert(string_views(images@) =~= string_views(before).push(path@));
            }
        }
        if is_font_media_type(mt.as_slice()) {
            let ghost before = fonts@;
            fonts.push(string_of(path.as_slice()));
            proof {
                assert(string_views(fonts@) =~= string_views(before).push(path@));
            }
        }
        i += 1;
    }
    proof {
        assert(items.take(n as int) =~= items);
    }
    StandardEpubStructure { chapters, styles, images, fonts, navigation }
}

} // verus!
