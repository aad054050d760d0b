//! Edits of the table of contents: changing one entry, taking a new order
//! from the user, and deriving the navigation and the reading order from it.

use vstd::prelude::*;
use crate::epub_path::{spec_strip_oebps_prefix, spec_to_standard_content_path, strip_oebps_prefix_chars};
use crate::models::{
    Navigation, StandardManifest, StandardManifestItem, StandardSpine, StandardSpineItemref,
    TocChapterDto, TocEntry, TocOrderDto,
};
use crate::text::{chars_eq, chars_of, find_char_exec, find_char_from, slice_chars, string_of};
use crate::epub_path::{lemma_find_char_bounds, to_standard_content_path};
use crate::toc_tree::{copy_entry, lemma_toc_views, opt_view, toc_view, toc_views, TocView};

verus! {

// ---------------------------------------------------------------------------
// Changing one entry
// ---------------------------------------------------------------------------

/// The view of an optional string slice.
pub open spec fn opt_str_view(o: Option<&str>) -> Option<Seq<char>> {
    match o {
        Some(s) => Some(s@),
        None => None,
    }
}

/// The first `n` entries of `vs` after looking, in document order, for the
/// first entry with id `id` and changing it; whether it was found.
pub open spec fn updated_prefix(
    vs: Seq<TocView>,
    n: nat,
    id: Seq<char>,
    label: Option<Seq<char>>,
    src: Option<Seq<char>>,
) -> (Seq<TocView>, bool)
    decreases vs, n + 1,
{
    if n == 0 || n > vs.len() {
        (seq![], false)
    } else {
        let prev = updated_prefix(vs, (n - 1) as nat, id, label, src);
        if prev.1 {
            (prev.0.push(vs[n - 1]), true)
        } else {
            let e = updated_entry(vs[n - 1], id, label, src);
            (prev.0.push(e.0), e.1)
        }
    }
}

/// The entry `v` changed if it has id `id`, else with the first such
/// entry among its descendants changed; whether one was found.
pub open spec fn updated_entry(
    v: TocView,
    id: Seq<char>,
    label: Option<Seq<char>>,
    src: Option<Seq<char>>,
) -> (TocView, bool)
    decreases v, 0nat,
{
    if v.id == id {
        let v1 = match label {
            Some(l) => TocView { label: l, ..v },
            None => v,
        };
        let v2 = match src {
            Some(s) => TocView {
                content_src: s,
                file_path: Some(spec_to_standard_content_path(s)),
                ..v1
            },
            None => v1,
        };
        (v2, true)
    } else {
        let c = updated_prefix(v.children, v.children.len(), id, label, src);
        (TocView { children: c.0, ..v }, c.1)
    }
}

/// The entry after the change, and whether the id was found.
fn update_entry_copy(
    e: &TocChapterDto,
    entry_id: &str,
    new_label: Option<&str>,
    new_content_src: Option<&str>,
) -> (r: (TocChapterDto, bool))
    ensures
        (toc_view(r.0), r.1) == updated_entry(
            toc_view(*e),
            entry_id@,
            opt_str_view(new_label),
            opt_str_view(new_content_src),
        ),
    decreases *e, 0nat,
{
    let eid = chars_of(e.id.as_str());
    let want = chars_of(entry_id);
    if chars_eq(eid.as_slice(), want.as_slice()) {
        let mut c = copy_entry(e);
        match new_label {
            Some(l) => {
                c.label = string_of(chars_of(l).as_slice());
            },
            None => {},
        }
        match new_content_src {
            Some(s) => {
                c.content_src = string_of(chars_of(s).as_slice());
                c.file_path = Some(to_standard_content_path(s));
            },
            None => {},
        }
        proof {
            let r = updated_entry(toc_view(*e), entry_id@, opt_str_view(new_label), opt_str_view(new_content_src));
            assert(toc_view(c) =~= r.0);
        }
        (c, true)
    } else {
        let (children, found) = update_slice_copy(e.children.as_slice(), entry_id, new_label, new_content_src);
        let mut c = copy_entry(e);
        c.children = children;
        proof {
            lemma_toc_views(e.children@);
            let r = updated_entry(toc_view(*e), entry_id@, opt_str_view(new_label), opt_str_view(new_content_src));
            assert(toc_view(c) =~= r.0);
        }
        (c, found)
    }
}

/// The entries after the change, and whether the id was found.
fn update_slice_copy(
    es: &[TocChapterDto],
    entry_id: &str,
    new_label: Option<&str>,
    new_content_src: Option<&str>,
) -> (r: (Vec<TocChapterDto>, bool))
    ensures
        (toc_views(r.0@), r.1) == updated_prefix(
            toc_views(es@),
            es@.len(),
            entry_id@,
            opt_str_view(new_label),
            opt_str_view(new_content_src),
        ),
    decreases es@, 1nat,
{
    let n = es.len();
    let ghost vs = toc_views(es@);
    let ghost id = entry_id@;
    let ghost lab = opt_str_view(new_label);
    let ghost src = opt_str_view(new_content_src);
    proof {
        lemma_toc_views(es@);
    }
    let mut out: Vec<TocChapterDto> = Vec::new();
    let mut found = false;
    let mut i: usize = 0;
    while i < n
        invariant
            n == es@.len(),
            vs == toc_views(es@),
            vs.len() == n,
            forall|k: int| 0 <= k < n ==> #[trigger] vs[k] == toc_view(es@[k]),
            id == entry_id@,
            lab == opt_str_view(new_label),
            src == opt_str_view(new_content_src),
            i <= n,
            (toc_views(out@), found) == updated_prefix(vs, i as nat, id, lab, src),
        decreases n - i,
    {
        let ghost before = out@;
        let ghost was_found = found;
        if found {
            let c = copy_entry(&es[i]);
            assert(toc_view(c) == vs[i as int]);
            out.push(c);
        } else {
            let (c, f) = update_entry_copy(&es[i], entry_id, new_label, new_content_src);
            assert(toc_view(c) == updated_entry(vs[i as int], id, lab, src).0);
            assert(f == updated_entry(vs[i as int], id, lab, src).1);
            out.push(c);
            found = f;
        }
        proof {
            assert(out@.drop_last() =~= before);
            assert(toc_views(out@) == toc_views(before).push(toc_view(out@.last())));
            let prev = updated_prefix(vs, i as nat, id, lab, src);
            assert(prev == (toc_views(before), was_found));
            assert(updated_prefix(vs, (i + 1) as nat, id, lab, src) == (if prev.1 {
                (prev.0.push(vs[i as int]), true)
            } else {
                let e = updated_entry(vs[i as int], id, lab, src);
                (prev.0.push(e.0), e.1)
            }));
        }
        i += 1;
    }
    (out, found)
}

/// Changes the label and/or the reference of the first entry, in document
/// order, with id `entry_id`; says whether there was one. A new reference
/// also gives the entry the standard path of its target as file path.
pub fn update_toc_entry_recursive(
    entries: &mut Vec<TocChapterDto>,
    entry_id: &str,
    new_label: Option<&str>,
    new_content_src: Option<&str>,
) -> (found: bool)
    ensures
        (toc_views(final(entries)@), found) == updated_prefix(
            toc_views(old(entries)@),
            old(entries)@.len(),
            entry_id@,
            opt_str_view(new_label),
            opt_str_view(new_content_src),
        ),
{
    let (new_entries, found) = update_slice_copy(entries.as_slice(), entry_id, new_label, new_content_src);
    *entries = new_entries;
    found
}


// ---------------------------------------------------------------------------
// A new order from the user
// ---------------------------------------------------------------------------

/// The number of entries in the tree of `o`, `o` included.
pub open spec fn order_entry_count(o: TocOrderDto) -> nat
    decreases o, 0nat,
{
    1 + order_count(o.children@)
}

/// The number of entries in the trees of `os`.
pub open spec fn order_count(os: Seq<TocOrderDto>) -> nat
    decreases os, 1nat,
{
    if os.len() == 0 {
        0
    } else {
        order_count(os.drop_last()) + order_entry_count(os.last())
    }
}

/// The entry made from `o` at `level` with number `order`: its file path
/// the standard path of its reference, its children numbered after it.
pub open spec fn order_entry_view(o: TocOrderDto, level: nat, order: nat) -> TocView
    decreases o, 0nat,
{
    TocView {
        id: o.id@,
        label: o.label@,
        content_src: o.content_src@,
        file_path: Some(spec_to_standard_content_path(o.content_src@)),
        file_paths: seq![],
        file_name: None,
        file_names: seq![],
        anchor: None,
        level,
        order,
        children: order_views(o.children@, level + 1, order + 1),
    }
}

/// The entries made from `os` at `level`, numbered in document order from `start`.
pub open spec fn order_views(os: Seq<TocOrderDto>, level: nat, start: nat) -> Seq<TocView>
    decreases os, 1nat,
{
    if os.len() == 0 {
        seq![]
    } else {
        let prev = os.drop_last();
        order_views(prev, level, start).push(
            order_entry_view(os.last(), level, start + order_count(prev)),
        )
    }
}

/// The entries of a prefix are no more than those of the whole list.
proof fn lemma_order_count_prefix(os: Seq<TocOrderDto>, n: int)
    requires
        0 <= n <= os.len(),
    ensures
        order_count(os.take(n)) <= order_count(os),
    decreases os.len(),
{
    if n < os.len() {
        assert(os.drop_last().take(n) =~= os.take(n));
        lemma_order_count_prefix(os.drop_last(), n);
    } else {
        assert(os.take(n) =~= os);
    }
}

/// The entry made from `o`.
fn convert_order_entry(o: &TocOrderDto, level: usize, order_counter: &mut usize) -> (r: TocChapterDto)
    requires
        *old(order_counter) + order_entry_count(*o) <= usize::MAX,
        level + order_entry_count(*o) <= usize::MAX,
    ensures
        toc_view(r) == order_entry_view(*o, level as nat, *old(order_counter) as nat),
        *final(order_counter) == *old(order_counter) + order_entry_count(*o),
    decreases *o, 0nat,
{
    let order = *order_counter;
    *order_counter = *order_counter + 1;
    let children = convert_order_to_toc(o.children.as_slice(), level + 1, order_counter);
    let r = TocChapterDto {
        id: o.id.clone(),
        label: o.label.clone(),
        content_src: o.content_src.clone(),
        file_path: Some(to_standard_content_path(o.content_src.as_str())),
        file_paths: Vec::new(),
        file_name: None,
        file_names: Vec::new(),
        anchor: None,
        level,
        order,
        children,
    };
    proof {
        assert(toc_view(r) =~= order_entry_view(*o, level as nat, order as nat));
    }
    r
}

/// The entries, numbered in document order from `*order_counter`, made from
/// an order chosen by the user; each takes the standard path of its
/// reference as file path.
pub fn convert_order_to_toc(order: &[TocOrderDto], level: usize, order_counter: &mut usize) -> (r: Vec<TocChapterDto>)
    requires
        *old(order_counter) + order_count(order@) <= usize::MAX,
        level + order_count(order@) <= usize::MAX,
    ensures
        toc_views(r@) == order_views(order@, level as nat, *old(order_counter) as nat),
        *final(order_counter) == *old(order_counter) + order_count(order@),
    decreases order@, 1nat,
{
    let n = order.len();
    let ghost os = order@;
    let ghost c0 = *order_counter as nat;
    proof {
        assert(os.take(0) =~= Seq::<TocOrderDto>::empty());
    }
    let mut out: Vec<TocChapterDto> = Vec::new();
    let mut i: usize = 0;
    while i < n
        invariant
            n == os.len(),
            os == order@,
            i <= n,
            c0 == *old(order_counter),
            c0 + order_count(os) <= usize::MAX,
            level + order_count(os) <= usize::MAX,
            *order_counter == c0 + order_count(os.take(i as int)),
            toc_views(out@) == order_views(os.take(i as int), level as nat, c0),
        decreases n - i,
    {
        proof {
            assert(os.take(i + 1).drop_last() =~= os.take(i as int));
            assert(os.take(i + 1).last() == os[i as int]);
            lemma_order_count_prefix(os, i + 1);
        }
        let d = convert_order_entry(&order[i], level, order_counter);
        let ghost before = out@;
        out.push(d);
        proof {
            assert(out@.drop_last() =~= before);
        }
        i += 1;
    }
    proof {
        assert(os.take(n as int) =~= os);
    }
    out
}

// ---------------------------------------------------------------------------
// Navigation and reading order from the table of contents
// ---------------------------------------------------------------------------

/// The mathematical value of a navigation entry.
#[verifier::ext_equal]
pub ghost struct NavView {
    pub id: Seq<char>,
    pub label: Seq<char>,
    pub content_src: Seq<char>,
    pub level: nat,
    pub children: Seq<NavView>,
}

/// The view of a navigation entry.
pub open spec fn nav_view(t: TocEntry) -> NavView
    decreases t, 0nat,
{
    NavView {
        id: t.id@,
        label: t.label@,
        content_src: t.content_src@,
        level: t.level as nat,
        children: nav_views(t.children@),
    }
}

/// The views of navigation entries.
pub open spec fn nav_views(ts: Seq<TocEntry>) -> Seq<NavView>
    decreases ts, 1nat,
{
    if ts.len() == 0 {
        seq![]
    } else {
        nav_views(ts.drop_last()).push(nav_view(ts.last()))
    }
}

/// The navigation entry of a table-of-contents entry: its id, label,
/// reference and level, and those of its children.
pub open spec fn toc_nav(v: TocView) -> NavView
    decreases v, 0nat,
{
    NavView {
        id: v.id,
        label: v.label,
        content_src: v.content_src,
        level: v.level,
        children: toc_navs(v.children),
    }
}

/// The navigation entries of table-of-contents entries.
pub open spec fn toc_navs(vs: Seq<TocView>) -> Seq<NavView>
    decreases vs, 1nat,
{
    if vs.len() == 0 {
        seq![]
    } else {
        toc_navs(vs.drop_last()).push(toc_nav(vs.last()))
    }
}

/// The navigation entry of one table-of-contents entry.
fn nav_entry(e: &TocChapterDto) -> (r: TocEntry)
    ensures
        nav_view(r) == toc_nav(toc_view(*e)),
    decreases *e, 0nat,
{
    let children = nav_entries(e.children.as_slice());
    let r = TocEntry {
        id: e.id.clone(),
        label: e.label.clone(),
        content_src: e.content_src.clone(),
        level: e.level,
        children,
    };
    proof {
        assert(nav_view(r) =~= toc_nav(toc_view(*e)));
    }
    r
}

/// The navigation entries of table-of-contents entries.
fn nav_entries(es: &[TocChapterDto]) -> (r: Vec<TocEntry>)
    ensures
        nav_views(r@) == toc_navs(toc_views(es@)),
    decreases es@, 1nat,
{
    let n = es.len();
    let mut out: Vec<TocEntry> = Vec::new();
    let mut i: usize = 0;
    while i < n
        invariant
            n == es@.len(),
            i <= n,
            nav_views(out@) == toc_navs(toc_views(es@.take(i as int))),
        decreases n - i,
    {
        let ghost before = out@;
        out.push(nav_entry(&es[i]));
        proof {
            assert(out@.drop_last() =~= before);
            let t = es@.take(i + 1);
            assert(t.drop_last() =~= es@.take(i as int));
            let tv = toc_views(t);
            assert(tv.drop_last() =~= toc_views(es@.take(i as int)));
        }
        i += 1;
    }
    proof {
        assert(es@.take(n as int) =~= es@);
    }
    out
}

/// The navigation that the table of contents describes.
pub fn toc_to_navigation(toc: &[TocChapterDto]) -> (r: Navigation)
    ensures
        nav_views(r.toc@) == toc_navs(toc_views(toc@)),
{
    Navigation { toc: nav_entries(toc) }
}

/// Each entry followed by its descendants, in document order.
pub open spec fn flat_views(vs: Seq<TocView>) -> Seq<TocView>
    decreases vs, 1nat,
{
    if vs.len() == 0 {
        seq![]
    } else {
        flat_views(vs.drop_last()) + flat_entry(vs.last())
    }
}

/// An entry followed by its descendants, in document order.
pub open spec fn flat_entry(v: TocView) -> Seq<TocView>
    decreases v, 0nat,
{
    seq![v] + flat_views(v.children)
}

/// Appends copies of `e` and its descendants, in document order.
fn flatten_entry(e: &TocChapterDto, result: &mut Vec<TocChapterDto>)
    ensures
        toc_views(final(result)@) == toc_views(old(result)@) + flat_entry(toc_view(*e)),
    decreases *e, 0nat,
{
    let ghost before = result@;
    result.push(copy_entry(e));
    proof {
        assert(result@.drop_last() =~= before);
    }
    flatten_toc_recursive(e.children.as_slice(), result);
    proof {
        assert(toc_views(before) + flat_entry(toc_view(*e)) =~= toc_views(before).push(toc_view(*e))
            + flat_views(toc_view(*e).children));
    }
}

/// Appends copies of the entries and their descendants, in document order.
fn flatten_toc_recursive(toc: &[TocChapterDto], result: &mut Vec<TocChapterDto>)
    ensures
        toc_views(final(result)@) == toc_views(old(result)@) + flat_views(toc_views(toc@)),
    decreases toc@, 1nat,
{
    let ghost base = toc_views(result@);
    let n = toc.len();
    let mut i: usize = 0;
    proof {
        assert(base + flat_views(toc_views(toc@.take(0))) =~= base);
    }
    while i < n
        invariant
            n == toc@.len(),
            i <= n,
            toc_views(result@) == base + flat_views(toc_views(toc@.take(i as int))),
        decreases n - i,
    {
        flatten_entry(&toc[i], result);
        proof {
            let t = toc@.take(i + 1);
            assert(t.drop_last() =~= toc@.take(i as int));
            assert(toc_views(t).drop_last() =~= toc_views(toc@.take(i as int)));
            let a = flat_views(toc_views(toc@.take(i as int)));
            assert(base + a + flat_entry(toc_view(toc@[i as int])) =~= base + (a + flat_entry(toc_view(toc@[i as int]))));
        }
        i += 1;
    }
    proof {
        assert(toc@.take(n as int) =~= toc@);
    }
}

/// Copies of all entries, each followed by its descendants, in document order.
pub fn flatten_toc(toc: &[TocChapterDto]) -> (r: Vec<TocChapterDto>)
    ensures
        toc_views(r@) == flat_views(toc_views(toc@)),
{
    let mut result: Vec<TocChapterDto> = Vec::new();
    flatten_toc_recursive(toc, &mut result);
    proof {
        assert(Seq::<TocView>::empty() + flat_views(toc_views(toc@)) =~= flat_views(toc_views(toc@)));
    }
    result
}

/// The part of a reference before its first `#`.
pub open spec fn before_hash(s: Seq<char>) -> Seq<char> {
    match find_char_from(s, '#', 0) {
        Some(i) => s.take(i),
        None => s,
    }
}

/// The manifest href an entry's reference names.
pub open spec fn entry_href(v: TocView) -> Seq<char> {
    spec_strip_oebps_prefix(before_hash(v.content_src))
}

/// The first manifest item with href `h`, from position `i` on.
pub open spec fn first_item_from(items: Seq<StandardManifestItem>, h: Seq<char>, i: int) -> Option<int>
    decreases items.len() - i,
{
    if i < 0 || i >= items.len() {
        None
    } else if items[i].href@ == h {
        Some(i)
    } else {
        first_item_from(items, h, i + 1)
    }
}

/// Where the item search can land.
proof fn lemma_first_item_bounds(items: Seq<StandardManifestItem>, h: Seq<char>, i: int)
    ensures
        first_item_from(items, h, i) matches Some(k) ==> 0 <= i <= k < items.len() && items[k].href@ == h,
    decreases items.len() - i,
{
    if !(i < 0 || i >= items.len()) && items[i].href@ != h {
        lemma_first_item_bounds(items, h, i + 1);
    }
}

/// The ids of the reading order for entries taken in this order: for each
/// entry whose href names a manifest item, the id of the first such item.
pub open spec fn spine_ids(flat: Seq<TocView>, items: Seq<StandardManifestItem>) -> Seq<Seq<char>>
    decreases flat.len(),
{
    if flat.len() == 0 {
        seq![]
    } else {
        let prev = spine_ids(flat.drop_last(), items);
        match first_item_from(items, entry_href(flat.last()), 0) {
            Some(k) => prev.push(items[k].id@),
            None => prev,
        }
    }
}

/// `s` holds no `#`.
pub open spec fn hash_free(s: Seq<char>) -> bool {
    forall|j: int| 0 <= j < s.len() ==> s[j] != '#'
}

/// `r` is the reference `h`, or `h` followed by a `#` and a fragment.
pub open spec fn with_optional_fragment(r: Seq<char>, h: Seq<char>) -> bool {
    r == h || (h.len() < r.len() && r.take(h.len() as int) == h && r[h.len() as int] == '#')
}

proof fn lemma_first_hash(r: Seq<char>, h: Seq<char>, i: int)
    requires
        hash_free(h),
        0 <= i,
        with_optional_fragment(r, h),
    ensures
        r == h ==> find_char_from(r, '#', i) is None,
        r != h && i <= h.len() ==> find_char_from(r, '#', i) == Some(h.len() as int),
    decreases r.len() - i,
{
    if i < r.len() {
        if i < h.len() {
            assert(r[i] == r.take(h.len() as int)[i]);
            lemma_first_hash(r, h, i + 1);
        } else if r == h {
        }
    }
}

/// A reference followed by a fragment names the same href as the reference.
proof fn lemma_fragment_href(r: Seq<char>, h: Seq<char>)
    requires
        hash_free(h),
        with_optional_fragment(r, h),
    ensures
        before_hash(r) == h,
{
    lemma_first_hash(r, h, 0);
    if r != h {
        assert(r.take(h.len() as int) =~= h);
    }
}

/// The fragment of a reference does not matter to the reading order: two
/// lists of entries whose references are the same `#`-free hrefs, in one
/// list possibly followed by `#` and a fragment, give the same spine.
pub proof fn law_fragment_ignored_in_spine(
    with_fragments: Seq<TocView>,
    plain: Seq<TocView>,
    items: Seq<StandardManifestItem>,
)
    requires
        with_fragments.len() == plain.len(),
        forall|i: int| 0 <= i < plain.len() ==> hash_free(#[trigger] plain[i].content_src),
        forall|i: int|
            0 <= i < plain.len() ==> with_optional_fragment(
                #[trigger] with_fragments[i].content_src,
                plain[i].content_src,
            ),
    ensures
        spine_ids(with_fragments, items) == spine_ids(plain, items),
    decreases plain.len(),
{
    if plain.len() > 0 {
        let n = plain.len() - 1;
        assert(hash_free(plain[n as int].content_src));
        assert(with_optional_fragment(with_fragments[n as int].content_src, plain[n as int].content_src));
        lemma_fragment_href(with_fragments[n as int].content_src, plain[n as int].content_src);
        lemma_fragment_href(plain[n as int].content_src, plain[n as int].content_src);
        assert forall|i: int| 0 <= i < plain.drop_last().len() implies hash_free(#[trigger] plain.drop_last()[i].content_src) by {
            assert(plain.drop_last()[i] == plain[i]);
        }
        assert forall|i: int| 0 <= i < plain.drop_last().len() implies with_optional_fragment(
            #[trigger] with_fragments.drop_last()[i].content_src,
            plain.drop_last()[i].content_src,
        ) by {
            assert(plain.drop_last()[i] == plain[i]);
            assert(with_fragments.drop_last()[i] == with_fragments[i]);
        }
        law_fragment_ignored_in_spine(with_fragments.drop_last(), plain.drop_last(), items);
    }
}

proof fn lemma_first_item_at(items: Seq<StandardManifestItem>, h: Seq<char>, k: int, i: int)
    requires
        0 <= i <= k < items.len(),
        items[k].href@ == h,
        forall|j: int| 0 <= j < k ==> items[j].href@ != h,
    ensures
        first_item_from(items, h, i) == Some(k),
    decreases k - i,
{
    if i < k {
        lemma_first_item_at(items, h, k, i + 1);
    }
}

/// An entry whose reference is the href `h` of a manifest item (a `#`-free
/// path relative to `OEBPS/`), with or without a `#` fragment, puts the id
/// of the first item with that href in the reading order.
pub proof fn law_entry_reads_its_item(v: TocView, items: Seq<StandardManifestItem>, k: int)
    requires
        0 <= k < items.len(),
        forall|j: int| 0 <= j < k ==> items[j].href@ != items[k].href@,
        hash_free(items[k].href@),
        spec_strip_oebps_prefix(items[k].href@) == items[k].href@,
        with_optional_fragment(v.content_src, items[k].href@),
    ensures
        spine_ids(seq![v], items) == seq![items[k].id@],
{
    lemma_fragment_href(v.content_src, items[k].href@);
    lemma_first_item_at(items, items[k].href@, k, 0);
    assert(seq![v].drop_last() =~= Seq::<TocView>::empty());
    assert(seq![v].last() == v);
    assert(spine_ids(Seq::<TocView>::empty(), items) =~= Seq::<Seq<char>>::empty());
    assert(Seq::<Seq<char>>::empty().push(items[k].id@) =~= seq![items[k].id@]);
}

/// The views of the ids of spine items.
pub open spec fn spine_idrefs(refs: Seq<StandardSpineItemref>) -> Seq<Seq<char>> {
    refs.map_values(|r: StandardSpineItemref| r.idref@)
}

/// The position of the first manifest item with href `h`.
fn find_item(items: &Vec<StandardManifestItem>, h: &[char]) -> (r: Option<usize>)
    ensures
        match r {
            Some(k) => first_item_from(items@, h@, 0) == Some(k as int),
            None => first_item_from(items@, h@, 0) is None,
        },
{
    let mut i: usize = 0;
    while i < items.len()
        invariant
            i <= items@.len(),
            first_item_from(items@, h@, 0) == first_item_from(items@, h@, i as int),
        decreases items@.len() - i,
    {
        let hv = chars_of(items[i].href.as_str());
        if chars_eq(hv.as_slice(), h) {
            return Some(i);
        }
        i += 1;
    }
    None
}

/// The reading order that follows the table of contents: the entries in
/// document order, each as the first manifest item with its href, linear;
/// entries whose href names no item are left out.
pub fn spine_from_toc(toc: &[TocChapterDto], manifest: &StandardManifest) -> (r: StandardSpine)
    ensures
        spine_idrefs(r.itemrefs@) == spine_ids(flat_views(toc_views(toc@)), manifest.items@),
        forall|i: int| 0 <= i < r.itemrefs@.len() ==> (#[trigger] r.itemrefs@[i]).linear == Some(true),
{
    let flat = flatten_toc(toc);
    let ghost fv = flat_views(toc_views(toc@));
    proof {
        lemma_toc_views(flat@);
    }
    let mut itemrefs: Vec<StandardSpineItemref> = Vec::new();
    let mut i: usize = 0;
    while i < flat.len()
        invariant
            fv == toc_views(flat@),
            fv.len() == flat@.len(),
            forall|k: int| 0 <= k < flat@.len() ==> #[trigger] fv[k] == toc_view(flat@[k]),
            i <= flat@.len(),
            spine_idrefs(itemrefs@) == spine_ids(fv.take(i as int), manifest.items@),
            forall|k: int| 0 <= k < itemrefs@.len() ==> (#[trigger] itemrefs@[k]).linear == Some(true),
        decreases flat@.len() - i,
    {
        let src = chars_of(flat[i].content_src.as_str());
        proof {
            lemma_find_char_bounds(src@, '#', 0);
        }
        let path = match find_char_exec(src.as_slice(), '#', 0) {
            Some(p) => slice_chars(src.as_slice(), 0, p),
            None => src,
        };
        let href = strip_oebps_prefix_chars(path.as_slice());
        proof {
            assert(fv.take(i + 1).drop_last() =~= fv.take(i as int));
            assert(fv.take(i + 1).last() == fv[i as int]);
            assert(href@ == entry_href(fv[i as int]));
        }
        let ghost before = itemrefs@;
        match find_item(&manifest.items, href.as_slice()) {
            Some(k) => {
                proof {
                    lemma_first_item_bounds(manifest.items@, href@, 0);
                }
                itemrefs.push(StandardSpineItemref { idref: manifest.items[k].id.clone(), linear: Some(true) });
                proof {
                    assert(spine_idrefs(itemrefs@) =~= spine_idrefs(before).push(manifest.items@[k as int].id@));
                }
            },
            None => {},
        }
        i += 1;
    }
    proof {
        assert(fv.take(flat@.len() as int) =~= fv);
    }
    StandardSpine { itemrefs }
}

} // verus!
