//! Which chapter files each table-of-contents entry covers, following the
//! reading order of the package, and which entries still have a target.

use vstd::prelude::*;
use crate::epub_path::{
    casefold_chars, filename_chars, reference_anchor_chars, spec_casefold, spec_filename,
    spec_reference_anchor, string_views,
};
use crate::models::{StandardManifest, StandardManifestItem, StandardSpine, TocChapterDto};
use crate::text::{
    chars_eq, chars_of, contains_string, extend_str, replace_backslashes, starts_with, starts_with_str,
    replace_char, string_of, trim, trim_chars,
};
use crate::toc_edit::{flat_views, flatten_toc};
use crate::toc_tree::{copy_opt, copy_strings, lemma_toc_views, opt_view, toc_view, toc_views, tree_count, entry_count, TocView};

verus! {

// ---------------------------------------------------------------------------
// The chapters in reading order
// ---------------------------------------------------------------------------

/// A manifest item is a chapter to show: an XHTML or HTML document under
/// `Text/` that is not the navigation document.
pub open spec fn spec_is_renderable_chapter_item(item: StandardManifestItem) -> bool {
    &&& (item.media_type@ == "application/xhtml+xml"@ || item.media_type@ == "text/html"@)
    &&& starts_with(replace_char(item.href@, '\\', '/'), "Text/"@)
    &&& !(item.properties matches Some(props) && string_views(props@).contains("nav"@))
}

/// Whether a manifest item is a chapter to show.
pub fn is_renderable_chapter_item(item: &StandardManifestItem) -> (r: bool)
    ensures
        r == spec_is_renderable_chapter_item(*item),
{
    let mt = chars_of(item.media_type.as_str());
    let xhtml = chars_of("application/xhtml+xml");
    let html = chars_of("text/html");
    if !(chars_eq(mt.as_slice(), xhtml.as_slice()) || chars_eq(mt.as_slice(), html.as_slice())) {
        return false;
    }
    let href = chars_of(item.href.as_str());
    let slashed = replace_backslashes(href.as_slice());
    if !starts_with_str(slashed.as_slice(), "Text/") {
        return false;
    }
    match &item.properties {
        Some(props) => {
            let nav = chars_of("nav");
            !contains_string(props, nav.as_slice())
        },
        None => true,
    }
}

/// The last manifest item with id `id` before position `end`.
pub open spec fn last_item_with_id(items: Seq<StandardManifestItem>, id: Seq<char>, end: int) -> Option<int>
    decreases end,
{
    if end <= 0 || end > items.len() {
        None
    } else if items[end - 1].id@ == id {
        Some(end - 1)
    } else {
        last_item_with_id(items, id, end - 1)
    }
}

/// The package paths of the chapters in reading order: for each spine
/// entry, the last manifest item with its id, if that item is a chapter to
/// show, as `OEBPS/` and its href.
pub open spec fn spec_ordered_chapter_paths(
    items: Seq<StandardManifestItem>,
    refs: Seq<crate::models::StandardSpineItemref>,
) -> Seq<Seq<char>>
    decreases refs.len(),
{
    if refs.len() == 0 {
        seq![]
    } else {
        let prev = spec_ordered_chapter_paths(items, refs.drop_last());
        match last_item_with_id(items, refs.last().idref@, items.len() as int) {
            Some(k) => if spec_is_renderable_chapter_item(items[k]) {
                prev.push("OEBPS/"@ + items[k].href@)
            } else {
                prev
            },
            None => prev,
        }
    }
}

/// Where the id search can land.
proof fn lemma_last_item_bounds(items: Seq<StandardManifestItem>, id: Seq<char>, end: int)
    ensures
        last_item_with_id(items, id, end) matches Some(k) ==> 0 <= k < end <= items.len()
            && items[k].id@ == id,
    decreases end,
{
    if !(end <= 0 || end > items.len()) && items[end - 1].id@ != id {
        lemma_last_item_bounds(items, id, end - 1);
    }
}

/// The last manifest item with id `id`.
fn find_item_by_id(items: &Vec<StandardManifestItem>, id: &[char]) -> (r: Option<usize>)
    ensures
        match r {
            Some(k) => last_item_with_id(items@, id@, items@.len() as int) == Some(k as int),
            None => last_item_with_id(items@, id@, items@.len() as int) is None,
        },
{
    let mut end = items.len();
    while end > 0
        invariant
            end <= items@.len(),
            last_item_with_id(items@, id@, items@.len() as int) == last_item_with_id(items@, id@, end as int),
        decreases end,
    {
        let iv = chars_of(items[end - 1].id.as_str());
        if chars_eq(iv.as_slice(), id) {
            return Some(end - 1);
        }
        end -= 1;
    }
    None
}

/// The package paths of the chapters to show, in reading order.
pub fn ordered_chapter_paths(manifest: &StandardManifest, spine: &StandardSpine) -> (r: Vec<String>)
    ensures
        string_views(r@) == spec_ordered_chapter_paths(manifest.items@, spine.itemrefs@),
{
    let mut out: Vec<String> = Vec::new();
    let mut i: usize = 0;
    let n = spine.itemrefs.len();
    while i < n
        invariant
            n == spine.itemrefs@.len(),
            i <= n,
            string_views(out@) == spec_ordered_chapter_paths(manifest.items@, spine.itemrefs@.take(i as int)),
        decreases n - i,
    {
        let idref = chars_of(spine.itemrefs[i].idref.as_str());
        let ghost before = out@;
        proof {
            let t = spine.itemrefs@.take(i + 1);
            assert(t.drop_last() =~= spine.itemrefs@.take(i as int));
            assert(t.last() == spine.itemrefs@[i as int]);
        }
        match find_item_by_id(&manifest.items, idref.as_slice()) {
            Some(k) => {
                proof {
                    lemma_last_item_bounds(manifest.items@, idref@, manifest.items@.len() as int);
                }
                if is_renderable_chapter_item(&manifest.items[k]) {
                    let mut p = chars_of("OEBPS/");
                    extend_str(&mut p, manifest.items[k].href.as_str());
                    out.push(string_of(p.as_slice()));
                    proof {
                        assert(string_views(out@) =~= string_views(before).push(p@));
                    }
                }
            },
            None => {},
        }
        i += 1;
    }
    proof {
        assert(spine.itemrefs@.take(n as int) =~= spine.itemrefs@);
    }
    out
}

// ---------------------------------------------------------------------------
// The chapter files of each entry
// ---------------------------------------------------------------------------

/// The last chapter below `end` whose case-folded path is `key`.
pub open spec fn last_chapter_with_key(ordered: Seq<Seq<char>>, key: Seq<char>, end: int) -> Option<int>
    decreases end,
{
    if end <= 0 || end > ordered.len() {
        None
    } else if spec_casefold(ordered[end - 1]) == key {
        Some(end - 1)
    } else {
        last_chapter_with_key(ordered, key, end - 1)
    }
}

/// The chapter an entry points at: the last chapter whose case-folded path
/// is that of the entry's file path.
pub open spec fn chapter_index_of(v: TocView, ordered: Seq<Seq<char>>) -> Option<int> {
    match v.file_path {
        Some(p) => last_chapter_with_key(ordered, spec_casefold(p), ordered.len() as int),
        None => None,
    }
}

/// Some entry of `flat` points at chapter `k`.
pub open spec fn is_target(flat: Seq<TocView>, ordered: Seq<Seq<char>>, k: int) -> bool {
    exists|j: int| 0 <= j < flat.len() && chapter_index_of(#[trigger] flat[j], ordered) == Some(k)
}

/// The first chapter from position `k` on that an entry of `flat` points
/// at, or the number of chapters if there is none.
pub open spec fn next_target_from(flat: Seq<TocView>, ordered: Seq<Seq<char>>, k: int) -> int
    decreases ordered.len() - k,
{
    if k < 0 || k >= ordered.len() {
        ordered.len() as int
    } else if is_target(flat, ordered, k) {
        k
    } else {
        next_target_from(flat, ordered, k + 1)
    }
}

/// An entry with its display fields filled: its file path as its only file
/// if it has no files, the file name of its file path (if not blank), and
/// the file names of its files.
pub open spec fn filled(v: TocView) -> TocView {
    let fps = if v.file_paths.len() == 0 && v.file_path is Some {
        seq![v.file_path->0]
    } else {
        v.file_paths
    };
    TocView {
        file_paths: fps,
        file_name: match v.file_path {
            Some(p) => if trim(p).len() > 0 {
                Some(spec_filename(p))
            } else {
                None
            },
            None => None,
        },
        file_names: fps.map_values(|p: Seq<char>| spec_filename(p)),
        ..v
    }
}

/// An entry with its anchor, and with the chapters it covers: from the
/// chapter it points at up to the next chapter any entry of `flat` points
/// at; its children likewise.
pub open spec fn attached_entry(v: TocView, flat: Seq<TocView>, ordered: Seq<Seq<char>>) -> TocView
    decreases v, 0nat,
{
    let base = TocView {
        children: attached_views(v.children, flat, ordered),
        anchor: spec_reference_anchor(v.content_src),
        ..v
    };
    match chapter_index_of(v, ordered) {
        None => filled(base),
        Some(t) => {
            let fps = ordered.subrange(t, next_target_from(flat, ordered, t + 1));
            filled(
                TocView {
                    file_path: if fps.len() > 0 {
                        Some(fps[0])
                    } else {
                        base.file_path
                    },
                    file_paths: fps,
                    ..base
                },
            )
        },
    }
}

/// The entries `vs` with their chapters attached.
pub open spec fn attached_views(vs: Seq<TocView>, flat: Seq<TocView>, ordered: Seq<Seq<char>>) -> Seq<TocView>
    decreases vs, 1nat,
{
    if vs.len() == 0 {
        seq![]
    } else {
        attached_views(vs.drop_last(), flat, ordered).push(attached_entry(vs.last(), flat, ordered))
    }
}

/// Fills the display fields of an entry from its file path and files.
pub fn fill_file_display_fields(entry: &mut TocChapterDto)
    ensures
        toc_view(*final(entry)) == filled(toc_view(*old(entry))),
{
    let ghost v0 = toc_view(*entry);
    if entry.file_paths.len() == 0 {
        match &entry.file_path {
            Some(p) => {
                let c = p.clone();
                entry.file_paths.push(c);
            },
            None => {},
        }
    }
    let name = match &entry.file_path {
        Some(p) => {
            let pv = chars_of(p.as_str());
            let t = trim_chars(pv.as_slice());
            if t.len() > 0 {
                Some(string_of(filename_chars(pv.as_slice()).as_slice()))
            } else {
                None
            }
        },
        None => None,
    };
    entry.file_name = name;
    let mut names: Vec<String> = Vec::new();
    let mut i: usize = 0;
    while i < entry.file_paths.len()
        invariant
            i <= entry.file_paths@.len(),
            names@.len() == i,
            forall|k: int| 0 <= k < i ==> (#[trigger] names@[k])@ == spec_filename(entry.file_paths@[k]@),
        decreases entry.file_paths@.len() - i,
    {
        let pv = chars_of(entry.file_paths[i].as_str());
        names.push(string_of(filename_chars(pv.as_slice()).as_slice()));
        i += 1;
    }
    entry.file_names = names;
    proof {
        assert(toc_view(*entry) =~= filled(v0));
    }
}

/// The anchor of an entry's reference.
pub fn entry_anchor(entry: &TocChapterDto) -> (r: Option<String>)
    ensures
        opt_view(r) == spec_reference_anchor(entry.content_src@),
{
    let cs = chars_of(entry.content_src.as_str());
    match reference_anchor_chars(cs.as_slice()) {
        Some(a) => Some(string_of(a.as_slice())),
        None => None,
    }
}

/// The file name of a path.
pub fn file_name(path: &str) -> (r: String)
    ensures
        r@ == spec_filename(path@),
{
    let pv = chars_of(path);
    string_of(filename_chars(pv.as_slice()).as_slice())
}


/// Where the chapter search can land.
proof fn lemma_last_chapter_bounds(ordered: Seq<Seq<char>>, key: Seq<char>, end: int)
    ensures
        last_chapter_with_key(ordered, key, end) matches Some(k) ==> 0 <= k < end <= ordered.len(),
    decreases end,
{
    if !(end <= 0 || end > ordered.len()) && spec_casefold(ordered[end - 1]) != key {
        lemma_last_chapter_bounds(ordered, key, end - 1);
    }
}

/// The chapter an entry points at, given the case-folded chapter paths.
fn chapter_index_for_entry(e: &TocChapterDto, folded: &Vec<Vec<char>>, Ghost(ordered): Ghost<Seq<Seq<char>>>) -> (r: Option<usize>)
    requires
        folded@.len() == ordered.len(),
        forall|k: int| 0 <= k < ordered.len() ==> (#[trigger] folded@[k])@ == spec_casefold(ordered[k]),
    ensures
        match r {
            Some(k) => chapter_index_of(toc_view(*e), ordered) == Some(k as int) && k < ordered.len(),
            None => chapter_index_of(toc_view(*e), ordered) is None,
        },
{
    match &e.file_path {
        Some(p) => {
            let pv = chars_of(p.as_str());
            let key = casefold_chars(pv.as_slice());
            let mut end = folded.len();
            while end > 0
                invariant
                    end <= ordered.len(),
                    folded@.len() == ordered.len(),
                    forall|k: int| 0 <= k < ordered.len() ==> (#[trigger] folded@[k])@ == spec_casefold(ordered[k]),
                    last_chapter_with_key(ordered, key@, ordered.len() as int) == last_chapter_with_key(ordered, key@, end as int),
                    chapter_index_of(toc_view(*e), ordered) == last_chapter_with_key(ordered, key@, ordered.len() as int),
                decreases end,
            {
                if chars_eq(folded[end - 1].as_slice(), key.as_slice()) {
                    assert(spec_casefold(ordered[end - 1]) == key@);
                    assert(last_chapter_with_key(ordered, key@, end as int) == Some(end - 1));
                    return Some(end - 1);
                }
                end -= 1;
            }
            None
        },
        None => None,
    }
}

/// `k` is among the chapter positions `ks`.
pub open spec fn in_targets(ks: Seq<usize>, k: int) -> bool {
    exists|q: int| 0 <= q < ks.len() && ks[q] as int == k
}

/// Whether `k` is among `ks`.
fn contains_index(ks: &Vec<usize>, k: usize) -> (r: bool)
    ensures
        r == in_targets(ks@, k as int),
{
    let mut i: usize = 0;
    while i < ks.len()
        invariant
            i <= ks@.len(),
            forall|j: int| 0 <= j < i ==> ks@[j] != k,
        decreases ks@.len() - i,
    {
        if ks[i] == k {
            return true;
        }
        i += 1;
    }
    false
}

/// Everything the attaching needs to know about the whole table.
pub open spec fn groups_ready(
    targets: Seq<usize>,
    folded: Seq<Vec<char>>,
    flat: Seq<TocView>,
    ordered: Seq<Seq<char>>,
) -> bool {
    &&& folded.len() == ordered.len()
    &&& forall|k: int| 0 <= k < ordered.len() ==> (#[trigger] folded[k])@ == spec_casefold(ordered[k])
    &&& forall|k: int| 0 <= k < ordered.len() ==> (#[trigger] in_targets(targets, k) <==> is_target(flat, ordered, k))
}

/// The chapter after `t` that the next entry points at.
fn next_target(targets: &Vec<usize>, t: usize, n: usize, Ghost(flat): Ghost<Seq<TocView>>, Ghost(ordered): Ghost<Seq<Seq<char>>>) -> (r: usize)
    requires
        n == ordered.len(),
        t < n,
        forall|k: int| 0 <= k < ordered.len() ==> (#[trigger] in_targets(targets@, k) <==> is_target(flat, ordered, k)),
    ensures
        r == next_target_from(flat, ordered, t + 1),
        t < r <= n,
{
    let mut k = t + 1;
    while k < n
        invariant
            t < k <= n,
            n == ordered.len(),
            forall|k: int| 0 <= k < ordered.len() ==> (#[trigger] in_targets(targets@, k) <==> is_target(flat, ordered, k)),
            next_target_from(flat, ordered, t + 1) == next_target_from(flat, ordered, k as int),
        decreases n - k,
    {
        if contains_index(targets, k) {
            return k;
        }
        k += 1;
    }
    k
}

/// A copy of an entry with its anchor and chapters attached, its children likewise.
fn attach_entry(
    e: &TocChapterDto,
    ordered: &[String],
    folded: &Vec<Vec<char>>,
    targets: &Vec<usize>,
    Ghost(flat): Ghost<Seq<TocView>>,
) -> (r: TocChapterDto)
    requires
        groups_ready(targets@, folded@, flat, string_views(ordered@)),
    ensures
        toc_view(r) == attached_entry(toc_view(*e), flat, string_views(ordered@)),
    decreases *e, 0nat,
{
    let ghost ov = string_views(ordered@);
    let children = attach_slice(e.children.as_slice(), ordered, folded, targets, Ghost(flat));
    let mut c = TocChapterDto {
        id: e.id.clone(),
        label: e.label.clone(),
        content_src: e.content_src.clone(),
        file_path: copy_opt(&e.file_path),
        file_paths: copy_strings(&e.file_paths),
        file_name: copy_opt(&e.file_name),
        file_names: copy_strings(&e.file_names),
        anchor: entry_anchor(e),
        level: e.level,
        order: e.order,
        children,
    };
    let ghost base = toc_view(c);
    proof {
        let v = toc_view(*e);
        assert(base =~= TocView {
            children: attached_views(v.children, flat, ov),
            anchor: spec_reference_anchor(v.content_src),
            ..v
        });
    }
    match chapter_index_for_entry(e, folded, Ghost(ov)) {
        None => {
            fill_file_display_fields(&mut c);
        },
        Some(t) => {
            let next = next_target(targets, t, ordered.len(), Ghost(flat), Ghost(ov));
            let mut fps: Vec<String> = Vec::new();
            let mut k = t;
            while k < next
                invariant
                    t <= k <= next <= ordered@.len(),
                    ov == string_views(ordered@),
                    string_views(fps@) == ov.subrange(t as int, k as int),
                decreases next - k,
            {
                let ghost before = fps@;
                let item = ordered[k].clone();
                assert(item@ == ov[k as int]);
                fps.push(item);
                assert(fps@ == before.push(item));
                assert(string_views(fps@) =~= string_views(before).push(item@));
                assert(ov.subrange(t as int, k + 1) =~= ov.subrange(t as int, k as int).push(ov[k as int]));
                k += 1;
            }
            if fps.len() > 0 {
                c.file_path = Some(fps[0].clone());
            }
            c.file_paths = fps;
            proof {
                let fv = ov.subrange(t as int, next as int);
                assert(toc_view(c) =~= TocView {
                    file_path: if fv.len() > 0 { Some(fv[0]) } else { base.file_path },
                    file_paths: fv,
                    ..base
                });
            }
            fill_file_display_fields(&mut c);
        },
    }
    c
}

/// Copies of the entries with their anchors and chapters attached.
fn attach_slice(
    es: &[TocChapterDto],
    ordered: &[String],
    folded: &Vec<Vec<char>>,
    targets: &Vec<usize>,
    Ghost(flat): Ghost<Seq<TocView>>,
) -> (r: Vec<TocChapterDto>)
    requires
        groups_ready(targets@, folded@, flat, string_views(ordered@)),
    ensures
        toc_views(r@) == attached_views(toc_views(es@), flat, string_views(ordered@)),
    decreases es@, 1nat,
{
    let n = es.len();
    let mut out: Vec<TocChapterDto> = Vec::new();
    let mut i: usize = 0;
    while i < n
        invariant
            n == es@.len(),
            i <= n,
            groups_ready(targets@, folded@, flat, string_views(ordered@)),
            toc_views(out@) == attached_views(toc_views(es@.take(i as int)), flat, string_views(ordered@)),
        decreases n - i,
    {
        let ghost before = out@;
        out.push(attach_entry(&es[i], ordered, folded, targets, Ghost(flat)));
        proof {
            assert(out@.drop_last() =~= before);
            let t = es@.take(i + 1);
            assert(t.drop_last() =~= es@.take(i as int));
            assert(toc_views(t).drop_last() =~= toc_views(es@.take(i as int)));
        }
        i += 1;
    }
    proof {
        assert(es@.take(n as int) =~= es@);
    }
    out
}

/// The entries with their anchors and with the chapter files each covers:
/// from the chapter it points at (the last one in `ordered_chapters` with the
/// case-folded path of its file path) up to the next chapter that any entry
/// points at; the first of them becomes its file path.
pub fn attach_spine_file_groups_to_entries(entries: Vec<TocChapterDto>, ordered_chapters: &[String]) -> (r: Vec<TocChapterDto>)
    ensures
        toc_views(r@) == attached_views(
            toc_views(entries@),
            flat_views(toc_views(entries@)),
            string_views(ordered_chapters@),
        ),
{
    let ghost ov = string_views(ordered_chapters@);
    let n = ordered_chapters.len();
    let mut folded: Vec<Vec<char>> = Vec::new();
    let mut i: usize = 0;
    while i < n
        invariant
            n == ordered_chapters@.len(),
            ov == string_views(ordered_chapters@),
            i <= n,
            folded@.len() == i,
            forall|k: int| 0 <= k < i ==> (#[trigger] folded@[k])@ == spec_casefold(ov[k]),
        decreases n - i,
    {
        let pv = chars_of(ordered_chapters[i].as_str());
        folded.push(casefold_chars(pv.as_slice()));
        i += 1;
    }
    let flat = flatten_toc(entries.as_slice());
    let ghost fv = flat_views(toc_views(entries@));
    proof {
        lemma_toc_views(flat@);
    }
    let mut targets: Vec<usize> = Vec::new();
    let mut j: usize = 0;
    while j < flat.len()
        invariant
            fv == toc_views(flat@),
            fv.len() == flat@.len(),
            forall|k: int| 0 <= k < flat@.len() ==> #[trigger] fv[k] == toc_view(flat@[k]),
            folded@.len() == ov.len(),
            forall|k: int| 0 <= k < ov.len() ==> (#[trigger] folded@[k])@ == spec_casefold(ov[k]),
            j <= flat@.len(),
            forall|k: int| 0 <= k < ov.len() ==> (#[trigger] in_targets(targets@, k) <==> exists|m: int|
                0 <= m < j && chapter_index_of(#[trigger] fv[m], ov) == Some(k)),
        decreases flat@.len() - j,
    {
        let ghost before = targets@;
        match chapter_index_for_entry(&flat[j], &folded, Ghost(ov)) {
            Some(t) => {
                targets.push(t);
            },
            None => {},
        }
        proof {
            assert forall|k: int| 0 <= k < ov.len() implies (#[trigger] in_targets(targets@, k) <==> exists|m: int|
                0 <= m < j + 1 && chapter_index_of(#[trigger] fv[m], ov) == Some(k)) by {
                if in_targets(targets@, k) && !in_targets(before, k) {
                    let q = choose|q: int| 0 <= q < targets@.len() && targets@[q] as int == k;
                    if q < before.len() {
                        assert(before[q] as int == k);
                    }
                    assert(chapter_index_of(fv[j as int], ov) == Some(k));
                }
                if exists|m: int| 0 <= m < j + 1 && chapter_index_of(#[trigger] fv[m], ov) == Some(k) {
                    let m = choose|m: int| 0 <= m < j + 1 && chapter_index_of(#[trigger] fv[m], ov) == Some(k);
                    if m == j {
                        assert(targets@[targets@.len() - 1] as int == k);
                    } else {
                        assert(in_targets(before, k));
                        let q = choose|q: int| 0 <= q < before.len() && before[q] as int == k;
                        assert(targets@[q] as int == k);
                    }
                }
            }
        }
        j += 1;
    }
    attach_slice(entries.as_slice(), ordered_chapters, &folded, &targets, Ghost(fv))
}


// ---------------------------------------------------------------------------
// Entries without a target
// ---------------------------------------------------------------------------

/// An entry still has a target: its reference is blank or only a fragment,
/// or its file path is not blank and is among the files of the package.
pub open spec fn spec_toc_target_exists(v: TocView, existing: Seq<Seq<char>>) -> bool {
    let cs = trim(v.content_src);
    if cs.len() == 0 || cs[0] == '#' {
        true
    } else {
        match v.file_path {
            Some(p) => trim(p).len() > 0 && existing.contains(p),
            None => false,
        }
    }
}

/// An entry with the entries without target removed below it.
pub open spec fn pruned_entry(v: TocView, existing: Seq<Seq<char>>) -> TocView
    decreases v, 0nat,
{
    TocView { children: pruned_views(v.children, existing), ..v }
}

/// The entries `vs` without those that have no target and no children left,
/// at every level.
pub open spec fn pruned_views(vs: Seq<TocView>, existing: Seq<Seq<char>>) -> Seq<TocView>
    decreases vs, 1nat,
{
    if vs.len() == 0 {
        seq![]
    } else {
        let prev = pruned_views(vs.drop_last(), existing);
        let e = pruned_entry(vs.last(), existing);
        if spec_toc_target_exists(vs.last(), existing) || e.children.len() > 0 {
            prev.push(e)
        } else {
            prev
        }
    }
}

/// Whether an entry still has a target among the files `existing_files`.
pub fn toc_target_exists(entry: &TocChapterDto, existing_files: &Vec<String>) -> (r: bool)
    ensures
        r == spec_toc_target_exists(toc_view(*entry), string_views(existing_files@)),
{
    let cs = chars_of(entry.content_src.as_str());
    let t = trim_chars(cs.as_slice());
    if t.len() == 0 || t[0] == '#' {
        return true;
    }
    match &entry.file_path {
        Some(p) => {
            let pv = chars_of(p.as_str());
            let pt = trim_chars(pv.as_slice());
            pt.len() > 0 && contains_string(existing_files, pv.as_slice())
        },
        None => false,
    }
}

/// A copy of an entry with the entries without target removed below it.
fn prune_entry(e: &TocChapterDto, existing_files: &Vec<String>) -> (r: TocChapterDto)
    ensures
        toc_view(r) == pruned_entry(toc_view(*e), string_views(existing_files@)),
    decreases *e, 0nat,
{
    let children = prune_missing_toc_targets(e.children.as_slice(), existing_files);
    let r = TocChapterDto {
        id: e.id.clone(),
        label: e.label.clone(),
        content_src: e.content_src.clone(),
        file_path: copy_opt(&e.file_path),
        file_paths: copy_strings(&e.file_paths),
        file_name: copy_opt(&e.file_name),
        file_names: copy_strings(&e.file_names),
        anchor: copy_opt(&e.anchor),
        level: e.level,
        order: e.order,
        children,
    };
    proof {
        assert(toc_view(r) =~= pruned_entry(toc_view(*e), string_views(existing_files@)));
    }
    r
}

/// The entries without those that have no target among `existing_files`
/// and no children left, at every level.
pub fn prune_missing_toc_targets(entries: &[TocChapterDto], existing_files: &Vec<String>) -> (r: Vec<TocChapterDto>)
    ensures
        toc_views(r@) == pruned_views(toc_views(entries@), string_views(existing_files@)),
    decreases entries@, 1nat,
{
    let n = entries.len();
    let mut out: Vec<TocChapterDto> = Vec::new();
    let mut i: usize = 0;
    while i < n
        invariant
            n == entries@.len(),
            i <= n,
            toc_views(out@) == pruned_views(toc_views(entries@.take(i as int)), string_views(existing_files@)),
        decreases n - i,
    {
        let ghost before = out@;
        let e = prune_entry(&entries[i], existing_files);
        let keep = toc_target_exists(&entries[i], existing_files) || e.children.len() > 0;
        proof {
            lemma_toc_views(e.children@);
        }
        if keep {
            out.push(e);
            proof {
                assert(out@.drop_last() =~= before);
            }
        }
        proof {
            let t = entries@.take(i + 1);
            assert(t.drop_last() =~= entries@.take(i as int));
            assert(toc_views(t).drop_last() =~= toc_views(entries@.take(i as int)));
        }
        i += 1;
    }
    proof {
        assert(entries@.take(n as int) =~= entries@);
    }
    out
}


/// Pruning leaves no more entries than there were.
pub proof fn lemma_pruned_count(vs: Seq<TocView>, existing: Seq<Seq<char>>)
    ensures
        tree_count(pruned_views(vs, existing)) <= tree_count(vs),
    decreases vs, 1nat,
{
    if vs.len() > 0 {
        lemma_pruned_count(vs.drop_last(), existing);
        lemma_pruned_count(vs.last().children, existing);
        let prev = pruned_views(vs.drop_last(), existing);
        let e = pruned_entry(vs.last(), existing);
        assert(prev.push(e).drop_last() =~= prev);
        assert(tree_count(prev.push(e)) == tree_count(prev) + entry_count(e));
        assert(entry_count(e) == 1 + tree_count(pruned_views(vs.last().children, existing)));
        assert(entry_count(vs.last()) == 1 + tree_count(vs.last().children));
    }
}

} // verus!
