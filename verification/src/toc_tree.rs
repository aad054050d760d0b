//! The table of contents as a tree of values: the identity of an entry,
//! removal of duplicate entries and numbering in document order.

use vstd::prelude::*;
use crate::epub_path::{
    casefold_chars, spec_casefold, spec_to_standard_content_path, suffix_part, suffix_pos_exec,
    to_standard_content_path_chars,
};
use crate::models::TocChapterDto;
use crate::text::{
    chars_eq, chars_of, extend_chars, is_ws, is_ws_exec, lowercase, lowercase_chars, slice_chars,
    string_of, trim, trim_chars,
};

verus! {

// ---------------------------------------------------------------------------
// The value of an entry
// ---------------------------------------------------------------------------

/// The mathematical value of a table-of-contents entry.
#[verifier::ext_equal]
pub ghost struct TocView {
    pub id: Seq<char>,
    pub label: Seq<char>,
    pub content_src: Seq<char>,
    pub file_path: Option<Seq<char>>,
    pub file_paths: Seq<Seq<char>>,
    pub file_name: Option<Seq<char>>,
    pub file_names: Seq<Seq<char>>,
    pub anchor: Option<Seq<char>>,
    pub level: nat,
    pub order: nat,
    pub children: Seq<TocView>,
}

/// The view of an optional string.
pub open spec fn opt_view(o: Option<String>) -> Option<Seq<char>> {
    match o {
        Some(s) => Some(s@),
        None => None,
    }
}

/// The view of one entry.
pub open spec fn toc_view(d: TocChapterDto) -> TocView
    decreases d, 0nat,
{
    TocView {
        id: d.id@,
        label: d.label@,
        content_src: d.content_src@,
        file_path: opt_view(d.file_path),
        file_paths: d.file_paths@.map_values(|s: String| s@),
        file_name: opt_view(d.file_name),
        file_names: d.file_names@.map_values(|s: String| s@),
        anchor: opt_view(d.anchor),
        level: d.level as nat,
        order: d.order as nat,
        children: toc_views(d.children@),
    }
}

/// The views of a list of entries.
pub open spec fn toc_views(ds: Seq<TocChapterDto>) -> Seq<TocView>
    decreases ds, 1nat,
{
    if ds.len() == 0 {
        seq![]
    } else {
        toc_views(ds.drop_last()).push(toc_view(ds.last()))
    }
}

/// The views of a list are the views of its entries, one by one.
pub proof fn lemma_toc_views(ds: Seq<TocChapterDto>)
    ensures
        toc_views(ds).len() == ds.len(),
        forall|i: int| 0 <= i < ds.len() ==> #[trigger] toc_views(ds)[i] == toc_view(ds[i]),
    decreases ds.len(),
{
    if ds.len() > 0 {
        lemma_toc_views(ds.drop_last());
        assert forall|i: int| 0 <= i < ds.len() implies #[trigger] toc_views(ds)[i] == toc_view(
            ds[i],
        ) by {
            if i < ds.len() - 1 {
                assert(ds.drop_last()[i] == ds[i]);
            }
        }
    }
}

/// Copies of the strings `v`.
pub fn copy_strings(v: &Vec<String>) -> (r: Vec<String>)
    ensures
        r@ == v@,
{
    let mut out: Vec<String> = Vec::new();
    let mut i: usize = 0;
    while i < v.len()
        invariant
            i <= v@.len(),
            out@ == v@.take(i as int),
        decreases v@.len() - i,
    {
        out.push(v[i].clone());
        i += 1;
        assert(out@ =~= v@.take(i as int));
    }
    assert(v@.take(v@.len() as int) =~= v@);
    out
}

/// A copy of an optional string.
pub fn copy_opt(o: &Option<String>) -> (r: Option<String>)
    ensures
        r == *o,
{
    match o {
        Some(s) => Some(s.clone()),
        None => None,
    }
}

// ---------------------------------------------------------------------------
// Identity of an entry
// ---------------------------------------------------------------------------

/// Scanning `s` from the left: the words read so far, separated by single
/// spaces, and whether white space followed the last of them.
pub open spec fn collapse_state(s: Seq<char>) -> (Seq<char>, bool)
    decreases s.len(),
{
    if s.len() == 0 {
        (seq![], false)
    } else {
        let prev = collapse_state(s.drop_last());
        let c = s.last();
        if is_ws(c) {
            (prev.0, true)
        } else if prev.1 && prev.0.len() > 0 {
            (prev.0.push(' ').push(c), false)
        } else {
            (prev.0.push(c), false)
        }
    }
}

/// The white-space-separated words of `s` joined by single spaces.
pub open spec fn collapse_ws(s: Seq<char>) -> Seq<char> {
    collapse_state(s).0
}

/// The white-space-separated words of `s` joined by single spaces.
pub fn collapse_ws_chars(s: &[char]) -> (r: Vec<char>)
    ensures
        r@ == collapse_ws(s@),
{
    let mut out: Vec<char> = Vec::new();
    let mut pending = false;
    let mut i: usize = 0;
    while i < s.len()
        invariant
            i <= s@.len(),
            (out@, pending) == collapse_state(s@.take(i as int)),
        decreases s@.len() - i,
    {
        assert(s@.take(i + 1).drop_last() =~= s@.take(i as int));
        let c = s[i];
        if is_ws_exec(c) {
            pending = true;
        } else {
            if pending && out.len() > 0 {
                out.push(' ');
            }
            out.push(c);
            pending = false;
        }
        i += 1;
    }
    assert(s@.take(s@.len() as int) =~= s@);
    out
}

/// The file an entry points at, for comparing entries: the case-folded
/// standard path of its file path (of its reference, where the file path is
/// missing or blank), followed by the query and fragment of its reference.
pub open spec fn spec_canonical_target(v: TocView) -> Seq<char> {
    let source = match v.file_path {
        Some(p) => if trim(p).len() > 0 {
            p
        } else {
            v.content_src
        },
        None => v.content_src,
    };
    spec_casefold(spec_to_standard_content_path(source)) + suffix_part(v.content_src)
}

/// Two entries with the same key are the same entry: the lowercase label
/// with its white space collapsed, `|`, and the canonical target.
pub open spec fn spec_identity_key(v: TocView) -> Seq<char> {
    lowercase(collapse_ws(v.label)) + seq!['|'] + spec_canonical_target(v)
}

/// The canonical target of an entry, as characters.
fn canonical_target_chars(e: &TocChapterDto) -> (r: Vec<char>)
    ensures
        r@ == spec_canonical_target(toc_view(*e)),
{
    let src = chars_of(e.content_src.as_str());
    let source = match &e.file_path {
        Some(p) => {
            let pv = chars_of(p.as_str());
            let t = trim_chars(pv.as_slice());
            if t.len() > 0 {
                pv
            } else {
                chars_of(e.content_src.as_str())
            }
        },
        None => chars_of(e.content_src.as_str()),
    };
    let sp = to_standard_content_path_chars(source.as_slice());
    let mut out = casefold_chars(sp.as_slice());
    let pos = suffix_pos_exec(src.as_slice());
    let suffix = slice_chars(src.as_slice(), pos, src.len());
    extend_chars(&mut out, suffix.as_slice());
    out
}

/// The identity key of an entry, as characters.
fn identity_key_chars(e: &TocChapterDto) -> (r: Vec<char>)
    ensures
        r@ == spec_identity_key(toc_view(*e)),
{
    let label = chars_of(e.label.as_str());
    let collapsed = collapse_ws_chars(label.as_slice());
    let mut out = lowercase_chars(collapsed.as_slice());
    out.push('|');
    let target = canonical_target_chars(e);
    extend_chars(&mut out, target.as_slice());
    out
}


// ---------------------------------------------------------------------------
// Duplicate entries
// ---------------------------------------------------------------------------

/// No entry after `vs[i]` has its identity key.
pub open spec fn is_last_of_key(vs: Seq<TocView>, i: int) -> bool {
    forall|j: int| i < j < vs.len() ==> spec_identity_key(#[trigger] vs[j]) != spec_identity_key(vs[i])
}

/// Of the first `n` entries of `vs`, those whose identity key does not come
/// again later in `vs`, in their order, each with its children deduplicated.
pub open spec fn dedupe_prefix(vs: Seq<TocView>, n: nat) -> Seq<TocView>
    decreases vs, n + 1,
{
    if n == 0 || n > vs.len() {
        seq![]
    } else {
        let rest = dedupe_prefix(vs, (n - 1) as nat);
        if is_last_of_key(vs, n - 1) {
            rest.push(dedupe_view(vs[n - 1]))
        } else {
            rest
        }
    }
}

/// An entry with its children deduplicated.
pub open spec fn dedupe_view(v: TocView) -> TocView
    decreases v, 0nat,
{
    TocView { children: dedupe_views(v.children), ..v }
}

/// The entries of `vs`, keeping of each identity key only the last entry,
/// at every level of the tree.
pub open spec fn dedupe_views(vs: Seq<TocView>) -> Seq<TocView>
    decreases vs, vs.len() + 2,
{
    dedupe_prefix(vs, vs.len())
}

/// A copy of an entry, its children included.
pub fn copy_entry(e: &TocChapterDto) -> (r: TocChapterDto)
    ensures
        toc_view(r) == toc_view(*e),
    decreases *e, 0nat,
{
    let children = copy_slice(e.children.as_slice());
    TocChapterDto {
        id: e.id.clone(),
        label: e.label.clone(),
        content_src: e.content_src.clone(),
        file_path: copy_opt(&e.file_path),
        file_paths: copy_strings(&e.file_paths),
        file_name: copy_opt(&e.file_name),
        file_names: copy_strings(&e.file_names),
        anchor: copy_opt(&e.anchor),
        level: e.level,
        order: e.order,
        children,
    }
}

/// Copies of the entries `es`, their children included.
pub fn copy_slice(es: &[TocChapterDto]) -> (r: Vec<TocChapterDto>)
    ensures
        toc_views(r@) == toc_views(es@),
    decreases es@, 1nat,
{
    let n = es.len();
    proof {
        lemma_toc_views(es@);
    }
    let mut out: Vec<TocChapterDto> = Vec::new();
    let mut i: usize = 0;
    while i < n
        invariant
            n == es@.len(),
            i <= n,
            toc_views(out@) == toc_views(es@.take(i as int)),
        decreases n - i,
    {
        let ghost before = out@;
        out.push(copy_entry(&es[i]));
        proof {
            assert(out@.drop_last() =~= before);
            assert(es@.take(i + 1).drop_last() =~= es@.take(i as int));
        }
        i += 1;
    }
    proof {
        assert(es@.take(n as int) =~= es@);
    }
    out
}

/// A copy of an entry with its children deduplicated.
fn dedupe_entry(e: &TocChapterDto) -> (r: TocChapterDto)
    ensures
        toc_view(r) == dedupe_view(toc_view(*e)),
    decreases *e, 0nat,
{
    let children = dedupe_slice(e.children.as_slice());
    TocChapterDto {
        id: e.id.clone(),
        label: e.label.clone(),
        content_src: e.content_src.clone(),
        file_path: copy_opt(&e.file_path),
        file_paths: copy_strings(&e.file_paths),
        file_name: copy_opt(&e.file_name),
        file_names: copy_strings(&e.file_names),
        anchor: copy_opt(&e.anchor),
        level: e.level,
        order: e.order,
        children,
    }
}

/// The entries of `es` without earlier duplicates, at every level.
fn dedupe_slice(es: &[TocChapterDto]) -> (r: Vec<TocChapterDto>)
    ensures
        toc_views(r@) == dedupe_views(toc_views(es@)),
    decreases es@, 1nat,
{
    let n = es.len();
    let ghost vs = toc_views(es@);
    proof {
        lemma_toc_views(es@);
    }
    let mut keys: Vec<Vec<char>> = Vec::new();
    let mut k: usize = 0;
    while k < n
        invariant
            n == es@.len(),
            vs == toc_views(es@),
            vs.len() == n,
            forall|i: int| 0 <= i < n ==> #[trigger] vs[i] == toc_view(es@[i]),
            k <= n,
            keys@.len() == k,
            forall|i: int| 0 <= i < k ==> (#[trigger] keys@[i])@ == spec_identity_key(vs[i]),
        decreases n - k,
    {
        keys.push(identity_key_chars(&es[k]));
        k += 1;
    }
    let mut out: Vec<TocChapterDto> = Vec::new();
    let mut i: usize = 0;
    while i < n
        invariant
            n == es@.len(),
            vs == toc_views(es@),
            vs.len() == n,
            forall|i: int| 0 <= i < n ==> #[trigger] vs[i] == toc_view(es@[i]),
            keys@.len() == n,
            forall|i: int| 0 <= i < n ==> (#[trigger] keys@[i])@ == spec_identity_key(vs[i]),
            i <= n,
            toc_views(out@) == dedupe_prefix(vs, i as nat),
        decreases n - i,
    {
        let mut later = false;
        let mut j: usize = i + 1;
        while j < n
            invariant
                i < n,
                keys@.len() == n,
                forall|i: int| 0 <= i < n ==> (#[trigger] keys@[i])@ == spec_identity_key(vs[i]),
                vs.len() == n,
                i + 1 <= j <= n,
                later == exists|m: int| i < m < j && spec_identity_key(#[trigger] vs[m]) == spec_identity_key(vs[i as int]),
            decreases n - j,
        {
            if chars_eq(keys[j].as_slice(), keys[i].as_slice()) {
                later = true;
            }
            j += 1;
        }
        proof {
            assert(dedupe_prefix(vs, (i + 1) as nat) == {
                let rest = dedupe_prefix(vs, i as nat);
                if is_last_of_key(vs, i as int) { rest.push(dedupe_view(vs[i as int])) } else { rest }
            });
        }
        if !later {
            let d = dedupe_entry(&es[i]);
            let ghost before = out@;
            out.push(d);
            proof {
                assert(out@.drop_last() =~= before);
            }
        }
        i += 1;
    }
    out
}


// ---------------------------------------------------------------------------
// Numbering
// ---------------------------------------------------------------------------

/// The number of entries in the tree of `v`, `v` included.
pub open spec fn entry_count(v: TocView) -> nat
    decreases v, 0nat,
{
    1 + tree_count(v.children)
}

/// The number of entries in the trees of `vs`.
pub open spec fn tree_count(vs: Seq<TocView>) -> nat
    decreases vs, 1nat,
{
    if vs.len() == 0 {
        0
    } else {
        tree_count(vs.drop_last()) + entry_count(vs.last())
    }
}

/// The entries `vs` at `level`, numbered in document order from `start`:
/// an entry before its children, its children before its next sibling.
pub open spec fn renumbered(vs: Seq<TocView>, level: nat, start: nat) -> Seq<TocView>
    decreases vs, 1nat,
{
    if vs.len() == 0 {
        seq![]
    } else {
        let prev = vs.drop_last();
        renumbered(prev, level, start).push(
            renumbered_entry(vs.last(), level, start + tree_count(prev)),
        )
    }
}

/// The entry `v` at `level` with number `order`, its children numbered after it.
pub open spec fn renumbered_entry(v: TocView, level: nat, order: nat) -> TocView
    decreases v, 0nat,
{
    TocView { level, order, children: renumbered(v.children, level + 1, order + 1), ..v }
}

/// The entries of a prefix are no more than those of the whole list.
pub proof fn lemma_tree_count_prefix(vs: Seq<TocView>, n: int)
    requires
        0 <= n <= vs.len(),
    ensures
        tree_count(vs.take(n)) <= tree_count(vs),
    decreases vs.len(),
{
    if n < vs.len() {
        assert(vs.drop_last().take(n) =~= vs.take(n));
        lemma_tree_count_prefix(vs.drop_last(), n);
    } else {
        assert(vs.take(n) =~= vs);
    }
}

/// A copy of an entry at `level` numbered `*order_counter`, its children
/// numbered after it.
fn renumber_entry(e: &TocChapterDto, level: usize, order_counter: &mut usize) -> (r: TocChapterDto)
    requires
        *old(order_counter) + entry_count(toc_view(*e)) <= usize::MAX,
        level + entry_count(toc_view(*e)) <= usize::MAX,
    ensures
        toc_view(r) == renumbered_entry(toc_view(*e), level as nat, *old(order_counter) as nat),
        *final(order_counter) == *old(order_counter) + entry_count(toc_view(*e)),
    decreases *e, 0nat,
{
    let order = *order_counter;
    *order_counter = *order_counter + 1;
    let children = renumber_slice(e.children.as_slice(), level + 1, order_counter);
    TocChapterDto {
        id: e.id.clone(),
        label: e.label.clone(),
        content_src: e.content_src.clone(),
        file_path: copy_opt(&e.file_path),
        file_paths: copy_strings(&e.file_paths),
        file_name: copy_opt(&e.file_name),
        file_names: copy_strings(&e.file_names),
        anchor: copy_opt(&e.anchor),
        level,
        order,
        children,
    }
}

/// Copies of the entries `es` at `level`, numbered in document order from
/// `*order_counter`.
fn renumber_slice(es: &[TocChapterDto], level: usize, order_counter: &mut usize) -> (r: Vec<TocChapterDto>)
    requires
        *old(order_counter) + tree_count(toc_views(es@)) <= usize::MAX,
        level + tree_count(toc_views(es@)) <= usize::MAX,
    ensures
        toc_views(r@) == renumbered(toc_views(es@), level as nat, *old(order_counter) as nat),
        *final(order_counter) == *old(order_counter) + tree_count(toc_views(es@)),
    decreases es@, 1nat,
{
    let n = es.len();
    let ghost vs = toc_views(es@);
    let ghost c0 = *order_counter as nat;
    proof {
        lemma_toc_views(es@);
        assert(vs.take(0) =~= Seq::<TocView>::empty());
    }
    let mut out: Vec<TocChapterDto> = Vec::new();
    let mut i: usize = 0;
    while i < n
        invariant
            n == es@.len(),
            vs == toc_views(es@),
            vs.len() == n,
            forall|k: int| 0 <= k < n ==> #[trigger] vs[k] == toc_view(es@[k]),
            i <= n,
            c0 == *old(order_counter),
            c0 + tree_count(vs) <= usize::MAX,
            level + tree_count(vs) <= usize::MAX,
            *order_counter == c0 + tree_count(vs.take(i as int)),
            toc_views(out@) == renumbered(vs.take(i as int), level as nat, c0),
        decreases n - i,
    {
        let ghost t = vs.take(i + 1);
        proof {
            assert(t.drop_last() =~= vs.take(i as int));
            assert(t.last() == vs[i as int]);
            lemma_tree_count_prefix(vs, i + 1);
        }
        let d = renumber_entry(&es[i], level, order_counter);
        let ghost before = out@;
        out.push(d);
        proof {
            assert(out@.drop_last() =~= before);
        }
        i += 1;
    }
    proof {
        assert(vs.take(n as int) =~= vs);
    }
    out
}

/// Removing duplicates leaves no more entries than there were.
pub proof fn lemma_dedupe_count(vs: Seq<TocView>)
    ensures
        tree_count(dedupe_views(vs)) <= tree_count(vs),
    decreases vs, vs.len() + 2,
{
    lemma_dedupe_prefix_count(vs, vs.len());
    assert(vs.take(vs.len() as int) =~= vs);
}

/// Removing duplicates from a prefix leaves no more entries than it had.
pub proof fn lemma_dedupe_prefix_count(vs: Seq<TocView>, n: nat)
    requires
        n <= vs.len(),
    ensures
        tree_count(dedupe_prefix(vs, n)) <= tree_count(vs.take(n as int)),
    decreases vs, n + 1,
{
    if n > 0 {
        lemma_dedupe_prefix_count(vs, (n - 1) as nat);
        assert(vs.take(n as int).drop_last() =~= vs.take(n - 1));
        let rest = dedupe_prefix(vs, (n - 1) as nat);
        if is_last_of_key(vs, n - 1) {
            lemma_dedupe_entry_count(vs[n - 1]);
            assert(rest.push(dedupe_view(vs[n - 1])).drop_last() =~= rest);
        }
    }
}

/// Removing duplicates below an entry leaves no more entries than there were.
pub proof fn lemma_dedupe_entry_count(v: TocView)
    ensures
        entry_count(dedupe_view(v)) <= entry_count(v),
    decreases v, 0nat,
{
    lemma_dedupe_count(v.children);
}

impl crate::toc_manager::TocManager {
    /// The entries without duplicates, numbered again in document order
    /// from 0 at level 0: of entries with the same identity key (at the same
    /// place in the tree) only the last stays.
    pub fn normalize_toc_entries(entries: Vec<TocChapterDto>) -> (r: Vec<TocChapterDto>)
        requires
            tree_count(toc_views(entries@)) <= usize::MAX,
        ensures
            toc_views(r@) == renumbered(dedupe_views(toc_views(entries@)), 0, 0),
    {
        let deduped = dedupe_slice(entries.as_slice());
        proof {
            lemma_dedupe_count(toc_views(entries@));
        }
        let mut order_counter: usize = 0;
        renumber_slice(deduped.as_slice(), 0, &mut order_counter)
    }

    /// The key by which duplicate entries are recognized.
    pub fn toc_entry_identity_key(entry: &TocChapterDto) -> (r: String)
        ensures
            r@ == spec_identity_key(toc_view(*entry)),
    {
        string_of(identity_key_chars(entry).as_slice())
    }

    /// The target of an entry as duplicates are compared by it.
    pub fn canonical_toc_target(entry: &TocChapterDto) -> (r: String)
        ensures
            r@ == spec_canonical_target(toc_view(*entry)),
    {
        string_of(canonical_target_chars(entry).as_slice())
    }
}


// ---------------------------------------------------------------------------
// What normalizing guarantees
// ---------------------------------------------------------------------------

/// No two entries of `vs` share an identity key.
pub open spec fn keys_distinct(vs: Seq<TocView>) -> bool {
    forall|a: int, b: int|
        0 <= a < b < vs.len() ==> spec_identity_key(#[trigger] vs[a]) != spec_identity_key(
            #[trigger] vs[b],
        )
}

/// Some entry of `vs` has the key `k`.
pub open spec fn has_key(vs: Seq<TocView>, k: Seq<char>) -> bool {
    exists|a: int| 0 <= a < vs.len() && spec_identity_key(#[trigger] vs[a]) == k
}

/// The numbers of the entries of `vs` and their descendants in document order.
pub open spec fn flat_orders(vs: Seq<TocView>) -> Seq<nat>
    decreases vs, 1nat,
{
    if vs.len() == 0 {
        seq![]
    } else {
        flat_orders(vs.drop_last()) + entry_orders(vs.last())
    }
}

/// The number of `v` followed by those of its descendants in document order.
pub open spec fn entry_orders(v: TocView) -> Seq<nat>
    decreases v, 0nat,
{
    seq![v.order] + flat_orders(v.children)
}

/// The numbers `start`, `start + 1`, ... (`n` of them).
pub open spec fn count_from(start: nat, n: nat) -> Seq<nat> {
    Seq::new(n, |k: int| (start + k) as nat)
}

/// Each kept entry is the last of its key, and no two kept entries share a key.
proof fn lemma_dedupe_prefix_distinct(vs: Seq<TocView>, n: nat)
    requires
        n <= vs.len(),
    ensures
        keys_distinct(dedupe_prefix(vs, n)),
        forall|a: int|
            0 <= a < dedupe_prefix(vs, n).len() ==> exists|m: int|
                0 <= m < n && is_last_of_key(vs, m) && spec_identity_key(
                    #[trigger] dedupe_prefix(vs, n)[a],
                ) == spec_identity_key(vs[m]),
    decreases n,
{
    if n > 0 {
        lemma_dedupe_prefix_distinct(vs, (n - 1) as nat);
        let rest = dedupe_prefix(vs, (n - 1) as nat);
        if is_last_of_key(vs, n - 1) {
            let d = rest.push(dedupe_view(vs[n - 1]));
            assert(spec_identity_key(dedupe_view(vs[n - 1])) == spec_identity_key(vs[n - 1]));
            assert forall|a: int| 0 <= a < d.len() implies exists|m: int|
                0 <= m < n && is_last_of_key(vs, m) && spec_identity_key(#[trigger] d[a])
                    == spec_identity_key(vs[m]) by {
                if a < rest.len() {
                    assert(d[a] == rest[a]);
                } else {
                    assert(is_last_of_key(vs, n - 1) && spec_identity_key(d[a]) == spec_identity_key(vs[n - 1]));
                }
            }
            assert forall|a: int, b: int| 0 <= a < b < d.len() implies spec_identity_key(
                #[trigger] d[a],
            ) != spec_identity_key(#[trigger] d[b]) by {
                if b < rest.len() {
                    assert(d[a] == rest[a] && d[b] == rest[b]);
                } else {
                    assert(d[a] == rest[a]);
                    let m = choose|m: int|
                        0 <= m < n - 1 && is_last_of_key(vs, m) && spec_identity_key(
                            #[trigger] rest[a],
                        ) == spec_identity_key(vs[m]);
                    assert(spec_identity_key(vs[n - 1]) != spec_identity_key(vs[m]));
                }
            }
        }
    }
}

/// An entry that is the last of its key is kept.
proof fn lemma_dedupe_prefix_keeps(vs: Seq<TocView>, n: nat, j: int)
    requires
        n <= vs.len(),
        0 <= j < n,
        is_last_of_key(vs, j),
    ensures
        has_key(dedupe_prefix(vs, n), spec_identity_key(vs[j])),
    decreases n,
{
    let rest = dedupe_prefix(vs, (n - 1) as nat);
    if j == n - 1 {
        let d = rest.push(dedupe_view(vs[j]));
        assert(d[rest.len() as int] == dedupe_view(vs[j]));
        assert(spec_identity_key(dedupe_view(vs[j])) == spec_identity_key(vs[j]));
    } else {
        lemma_dedupe_prefix_keeps(vs, (n - 1) as nat, j);
        let a = choose|a: int| 0 <= a < rest.len() && spec_identity_key(#[trigger] rest[a]) == spec_identity_key(vs[j]);
        if is_last_of_key(vs, n - 1) {
            assert(rest.push(dedupe_view(vs[n - 1]))[a] == rest[a]);
        }
    }
}

/// Every entry has a later entry (or itself) that is the last of its key.
proof fn lemma_last_of_key_exists(vs: Seq<TocView>, i: int)
    requires
        0 <= i < vs.len(),
    ensures
        exists|j: int| i <= j < vs.len() && is_last_of_key(vs, j) && spec_identity_key(#[trigger] vs[j])
            == spec_identity_key(vs[i]),
    decreases vs.len() - i,
{
    if !is_last_of_key(vs, i) {
        let j = choose|j: int| i < j < vs.len() && spec_identity_key(#[trigger] vs[j]) == spec_identity_key(vs[i]);
        lemma_last_of_key_exists(vs, j);
    } else {
        assert(spec_identity_key(vs[i]) == spec_identity_key(vs[i]));
    }
}

/// Numbering keeps the identity keys and the length.
proof fn lemma_renumbered_keys(vs: Seq<TocView>, level: nat, start: nat)
    ensures
        renumbered(vs, level, start).len() == vs.len(),
        forall|i: int| 0 <= i < vs.len() ==> spec_identity_key(#[trigger] renumbered(vs, level, start)[i])
            == spec_identity_key(vs[i]),
        forall|i: int| 0 <= i < vs.len() ==> (#[trigger] renumbered(vs, level, start)[i]).level == level,
    decreases vs.len(),
{
    if vs.len() > 0 {
        let prev = vs.drop_last();
        lemma_renumbered_keys(prev, level, start);
        let r = renumbered(vs, level, start);
        let e = renumbered_entry(vs.last(), level, start + tree_count(prev));
        assert(spec_identity_key(e) == spec_identity_key(vs.last()));
        assert forall|i: int| 0 <= i < vs.len() implies spec_identity_key(#[trigger] r[i])
            == spec_identity_key(vs[i]) && r[i].level == level by {
            if i < prev.len() {
                assert(r[i] == renumbered(prev, level, start)[i]);
                assert(vs[i] == prev[i]);
            }
        }
    }
}

/// Numbering from `start` gives the numbers `start ..` in document order.
proof fn lemma_renumbered_orders(vs: Seq<TocView>, level: nat, start: nat)
    ensures
        flat_orders(renumbered(vs, level, start)) == count_from(start, tree_count(vs)),
    decreases vs, 1nat,
{
    if vs.len() == 0 {
        assert(count_from(start, 0) =~= Seq::<nat>::empty());
    } else {
        let prev = vs.drop_last();
        let o = start + tree_count(prev);
        lemma_renumbered_orders(prev, level, start);
        lemma_renumbered_entry_orders(vs.last(), level, o);
        let r = renumbered(vs, level, start);
        assert(r.drop_last() =~= renumbered(prev, level, start));
        assert(count_from(start, tree_count(prev)) + count_from(o, entry_count(vs.last()))
            =~= count_from(start, tree_count(vs)));
    }
}

/// The numbers of a numbered entry and its descendants.
proof fn lemma_renumbered_entry_orders(v: TocView, level: nat, order: nat)
    ensures
        entry_orders(renumbered_entry(v, level, order)) == count_from(order, entry_count(v)),
    decreases v, 0nat,
{
    lemma_renumbered_orders(v.children, level + 1, order + 1);
    assert(seq![order] + count_from(order + 1, tree_count(v.children)) =~= count_from(
        order,
        entry_count(v),
    ));
}

/// What normalizing a table of contents gives: at the top level no two
/// entries share an identity key, every identity key of the input is still
/// there, all entries are at level 0, and the entries of the whole tree are
/// numbered 0, 1, 2, ... in document order.
pub proof fn law_normalized_toc(vs: Seq<TocView>)
    ensures
        ({
            let r = renumbered(dedupe_views(vs), 0, 0);
            &&& keys_distinct(r)
            &&& forall|i: int| 0 <= i < vs.len() ==> has_key(r, spec_identity_key(#[trigger] vs[i]))
            &&& forall|i: int| 0 <= i < r.len() ==> (#[trigger] r[i]).level == 0
            &&& flat_orders(r) == count_from(0, tree_count(dedupe_views(vs)))
        }),
{
    let d = dedupe_views(vs);
    let r = renumbered(d, 0, 0);
    lemma_dedupe_prefix_distinct(vs, vs.len());
    lemma_renumbered_keys(d, 0, 0);
    lemma_renumbered_orders(d, 0, 0);
    assert forall|a: int, b: int| 0 <= a < b < r.len() implies spec_identity_key(#[trigger] r[a])
        != spec_identity_key(#[trigger] r[b]) by {
        assert(spec_identity_key(d[a]) != spec_identity_key(d[b]));
    }
    assert forall|i: int| 0 <= i < vs.len() implies has_key(r, spec_identity_key(#[trigger] vs[i])) by {
        lemma_last_of_key_exists(vs, i);
        let j = choose|j: int| i <= j < vs.len() && is_last_of_key(vs, j) && spec_identity_key(#[trigger] vs[j])
            == spec_identity_key(vs[i]);
        lemma_dedupe_prefix_keeps(vs, vs.len(), j);
        let a = choose|a: int| 0 <= a < d.len() && spec_identity_key(#[trigger] d[a]) == spec_identity_key(vs[j]);
        assert(spec_identity_key(r[a]) == spec_identity_key(d[a]));
    }
}

} // verus!
