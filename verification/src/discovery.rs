//! Finding the files that the chapters and styles reference but the
//! manifest does not list, among the entries of the EPUB archive.

use vstd::prelude::*;
use crate::analyzer::{
    all_standard_paths, allocate_unique_standard_paths, allocated_all, build_file_map, categorize_resources,
    chapter_info_view, first_nav_named, identify_chapters, identify_special_files, last_href_with_role,
    spec_identify_chapters, categorized, is_file_map, same_but_paths_r,
    chapter_info_views, classify_resource_path, classify_resource_type,
    infer_media_type, inferred_id_base, make_unique_inferred_id, resource_view, resource_views,
    sort_resource_files, spec_classify_resource_path, spec_classify_resource_type,
    spec_infer_media_type, stable_sort, ChapterInfoView, ResourceType, ResourceView,
};
use crate::epub_path::{
    casefold_chars, normalize_chars, parent_chars, resolve_relative_chars, should_skip_reference_chars,
    is_text_like_file_chars, path_part, spec_casefold, spec_normalize, spec_parent, spec_resolve_relative,
    spec_should_skip_reference, spec_is_text_like_file, string_views, suffix_pos_exec,
};
use crate::models::{EpubStructureAnalysis, ExtendedChapterInfo, ParsedEpub, RefactorError, ResourceCollection, ResourceFile};
use crate::pattern::opt_seq;
use crate::opf_document::id_candidate;
use crate::pattern::{group_texts, pieces_view, push_group_texts, regex_compiles, regex_split, split_by_pattern};
use crate::text::{
    chars_eq, chars_of, contains_string, extend_chars, replace_backslashes, replace_char, slice_chars,
    starts_with, starts_with_exec, string_of, trim, trim_chars,
};

verus! {

// ---------------------------------------------------------------------------
// References in content
// ---------------------------------------------------------------------------

/// `src`, `href` and `xlink:href` attributes in double quotes.
pub open spec fn attribute_reference_pattern() -> Seq<char> {
    "(src|href|xlink:href)=\"([^\"]+)\""@
}

/// CSS `url(...)` references, quoted or not.
pub open spec fn css_url_pattern() -> Seq<char> {
    "url\\(\\s*(['\"]?)([^'\")]+)(['\"]?)\\s*\\)"@
}

/// The references a text holds: the values of its `src`, `href` and
/// `xlink:href` attributes, then its CSS `url(...)` targets, trimmed, in
/// the order `regex` finds them (none for a pattern that would not compile).
pub open spec fn references_in(attr_matches: Seq<(Seq<char>, Seq<Option<Seq<char>>>)>, css_matches: Seq<(Seq<char>, Seq<Option<Seq<char>>>)>) -> Seq<Seq<char>> {
    group_texts(attr_matches, 2) + group_texts(css_matches, 2)
}

/// The matches `regex` finds of `pattern` in `t`, none where the pattern
/// does not compile.
pub open spec fn matches_of(pattern: Seq<char>, t: Seq<char>) -> Seq<(Seq<char>, Seq<Option<Seq<char>>>)> {
    if regex_compiles(pattern) {
        regex_split(pattern, t).0
    } else {
        seq![]
    }
}

/// The references of the text `t`: attribute values, then CSS `url(...)`
/// targets.
pub open spec fn text_references(t: Seq<char>) -> Seq<Seq<char>> {
    references_in(matches_of(attribute_reference_pattern(), t), matches_of(css_url_pattern(), t))
}

/// The references of `content`.
pub fn collect_resource_references(content: &str) -> (r: Vec<String>)
    ensures
        string_views(r@) == text_references(content@),
{
    let attr = split_by_pattern("(src|href|xlink:href)=\"([^\"]+)\"", content);
    let css = split_by_pattern("url\\(\\s*(['\"]?)([^'\")]+)(['\"]?)\\s*\\)", content);
    let mut out: Vec<String> = Vec::new();
    push_group_texts(&mut out, &attr.0, 2);
    push_group_texts(&mut out, &css.0, 2);
    proof {
        assert(string_views(out@) =~= references_in(pieces_view(attr.0@), pieces_view(css.0@)));
    }
    out
}


// ---------------------------------------------------------------------------
// The entries of the archive
// ---------------------------------------------------------------------------

/// One entry of the EPUB archive: its name, whether it is a directory, and
/// its content if that is UTF-8 text.
pub struct ZipEntry {
    pub name: String,
    pub is_dir: bool,
    pub text: Option<String>,
}

/// The archive entries by normalized name and by case-folded normalized
/// name; each maps to the entry's name with `\` as `/`, the first entry
/// winning.
pub struct ZipIndex {
    pub exact: Vec<(String, String)>,
    pub folded: Vec<(String, String)>,
}

/// The views of string pairs.
pub open spec fn pairs_of(ps: Seq<(String, String)>) -> Seq<(Seq<char>, Seq<char>)> {
    ps.map_values(|p: (String, String)| (p.0@, p.1@))
}

/// The value of the first pair with key `k`, from `i` on.
pub open spec fn first_value(m: Seq<(Seq<char>, Seq<char>)>, k: Seq<char>, i: int) -> Option<Seq<char>>
    decreases m.len() - i,
{
    if i < 0 || i >= m.len() {
        None
    } else if m[i].0 == k {
        Some(m[i].1)
    } else {
        first_value(m, k, i + 1)
    }
}

/// The name an archive entry is referred to by.
pub open spec fn entry_path(e: ZipEntry) -> Seq<char> {
    replace_char(e.name@, '\\', '/')
}

/// `m` with `(k, v)` added unless `k` is already a key.
pub open spec fn insert_first(m: Seq<(Seq<char>, Seq<char>)>, k: Seq<char>, v: Seq<char>) -> Seq<(Seq<char>, Seq<char>)> {
    if first_value(m, k, 0) is Some {
        m
    } else {
        m.push((k, v))
    }
}

/// The index of the first `n` entries, keyed by `key` (0: normalized name,
/// otherwise case-folded normalized name).
pub open spec fn index_of(entries: Seq<ZipEntry>, n: nat, folded: bool) -> Seq<(Seq<char>, Seq<char>)>
    decreases n,
{
    if n == 0 || n > entries.len() {
        seq![]
    } else {
        let prev = index_of(entries, (n - 1) as nat, folded);
        let e = entries[n - 1];
        if e.is_dir {
            prev
        } else {
            let a = spec_normalize(e.name@);
            insert_first(prev, if folded { spec_casefold(a) } else { a }, entry_path(e))
        }
    }
}

/// Every value of the index is the path of some entry.
pub open spec fn values_are_entries(m: Seq<(Seq<char>, Seq<char>)>, entries: Seq<ZipEntry>) -> bool {
    forall|i: int| 0 <= i < m.len() ==> exists|k: int| 0 <= k < entries.len() && #[trigger] m[i].1 == entry_path(entries[k])
}

/// Adds `(k, v)` to a pair list unless `k` is a key already.
fn pairs_insert_first(m: &mut Vec<(String, String)>, k: Vec<char>, v: Vec<char>)
    ensures
        pairs_of(final(m)@) == insert_first(pairs_of(old(m)@), k@, v@),
{
    let ghost mv = pairs_of(m@);
    let mut i: usize = 0;
    while i < m.len()
        invariant
            i <= m@.len(),
            m@ == old(m)@,
            mv == pairs_of(m@),
            first_value(mv, k@, 0) == first_value(mv, k@, i as int),
        decreases m@.len() - i,
    {
        if chars_eq(chars_of(m[i].0.as_str()).as_slice(), k.as_slice()) {
            assert(mv[i as int].0 == k@);
            return;
        }
        i += 1;
    }
    m.push((string_of(k.as_slice()), string_of(v.as_slice())));
    assert(pairs_of(m@) =~= mv.push((k@, v@)));
}

/// Indexes the file entries of the archive by normalized name and by
/// case-folded normalized name, the first entry winning.
pub fn collect_zip_entries(entries: &Vec<ZipEntry>) -> (r: ZipIndex)
    ensures
        pairs_of(r.exact@) == index_of(entries@, entries@.len(), false),
        pairs_of(r.folded@) == index_of(entries@, entries@.len(), true),
        values_are_entries(pairs_of(r.exact@), entries@),
        values_are_entries(pairs_of(r.folded@), entries@),
{
    let mut exact: Vec<(String, String)> = Vec::new();
    let mut folded: Vec<(String, String)> = Vec::new();
    let mut i: usize = 0;
    while i < entries.len()
        invariant
            i <= entries@.len(),
            pairs_of(exact@) == index_of(entries@, i as nat, false),
            pairs_of(folded@) == index_of(entries@, i as nat, true),
            values_are_entries(pairs_of(exact@), entries@),
            values_are_entries(pairs_of(folded@), entries@),
        decreases entries@.len() - i,
    {
        let e = &entries[i];
        if !e.is_dir {
            let a = normalize_chars(chars_of(e.name.as_str()).as_slice());
            let v = replace_backslashes(chars_of(e.name.as_str()).as_slice());
            let f = casefold_chars(a.as_slice());
            let ghost eb = pairs_of(exact@);
            let ghost fb = pairs_of(folded@);
            pairs_insert_first(&mut exact, a, v.clone());
            pairs_insert_first(&mut folded, f, v);
            proof {
                assert(spec_casefold(spec_normalize(e.name@)) == spec_casefold(a@));
                assert forall|q: int| 0 <= q < pairs_of(exact@).len() implies exists|k: int|
                    0 <= k < entries@.len() && #[trigger] pairs_of(exact@)[q].1 == entry_path(entries@[k]) by {
                    if q < eb.len() {
                        assert(pairs_of(exact@)[q] == eb[q]);
                    } else {
                        assert(pairs_of(exact@)[q].1 == entry_path(entries@[i as int]));
                    }
                }
                assert forall|q: int| 0 <= q < pairs_of(folded@).len() implies exists|k: int|
                    0 <= k < entries@.len() && #[trigger] pairs_of(folded@)[q].1 == entry_path(entries@[k]) by {
                    if q < fb.len() {
                        assert(pairs_of(folded@)[q] == fb[q]);
                    } else {
                        assert(pairs_of(folded@)[q].1 == entry_path(entries@[i as int]));
                    }
                }
            }
        }
        i += 1;
    }
    ZipIndex { exact, folded }
}

/// The value for key `k`.
fn lookup(m: &Vec<(String, String)>, k: &[char]) -> (r: Option<String>)
    ensures
        match r {
            Some(v) => first_value(pairs_of(m@), k@, 0) == Some(v@),
            None => first_value(pairs_of(m@), k@, 0) is None,
        },
{
    let mut i: usize = 0;
    while i < m.len()
        invariant
            i <= m@.len(),
            first_value(pairs_of(m@), k@, 0) == first_value(pairs_of(m@), k@, i as int),
        decreases m@.len() - i,
    {
        if chars_eq(chars_of(m[i].0.as_str()).as_slice(), k) {
            return Some(m[i].1.clone());
        }
        i += 1;
    }
    None
}

/// A found value is a value of the pairs.
proof fn lemma_first_value_in(m: Seq<(Seq<char>, Seq<char>)>, k: Seq<char>, i: int)
    ensures
        first_value(m, k, i) matches Some(v) ==> exists|q: int| 0 <= q < m.len() && m[q].1 == v,
    decreases m.len() - i,
{
    if !(i < 0 || i >= m.len()) && m[i].0 != k {
        lemma_first_value_in(m, k, i + 1);
    }
}

/// The archive entry a candidate path names: by its normalized name, else
/// by its case-folded normalized name.
pub open spec fn entry_for(candidate: Seq<char>, exact: Seq<(Seq<char>, Seq<char>)>, folded: Seq<(Seq<char>, Seq<char>)>) -> Option<Seq<char>> {
    match first_value(exact, candidate, 0) {
        Some(v) => Some(v),
        None => first_value(folded, spec_casefold(candidate), 0),
    }
}

/// The archive entry a path names: the normalized path itself, then (if
/// the package document is in a directory and the path is not already
/// under it) the path under that directory.
pub open spec fn spec_find_zip_entry(path: Seq<char>, opf_dir: Seq<char>, exact: Seq<(Seq<char>, Seq<char>)>, folded: Seq<(Seq<char>, Seq<char>)>) -> Option<Seq<char>> {
    let n = spec_normalize(path);
    match entry_for(n, exact, folded) {
        Some(v) => Some(v),
        None => if opf_dir.len() > 0 && !starts_with(n, opf_dir.push('/')) {
            entry_for(spec_normalize(opf_dir.push('/') + n), exact, folded)
        } else {
            None
        },
    }
}

/// The archive entry a path names.
pub fn find_zip_entry(path: &[char], opf_dir: &[char], index: &ZipIndex) -> (r: Option<String>)
    ensures
        match r {
            Some(v) => spec_find_zip_entry(path@, opf_dir@, pairs_of(index.exact@), pairs_of(index.folded@)) == Some(v@),
            None => spec_find_zip_entry(path@, opf_dir@, pairs_of(index.exact@), pairs_of(index.folded@)) is None,
        },
{
    let n = normalize_chars(path);
    match lookup(&index.exact, n.as_slice()) {
        Some(v) => return Some(v),
        None => {},
    }
    match lookup(&index.folded, casefold_chars(n.as_slice()).as_slice()) {
        Some(v) => return Some(v),
        None => {},
    }
    let mut dir: Vec<char> = slice_chars(opf_dir, 0, opf_dir.len());
    assert(dir@ =~= opf_dir@);
    dir.push('/');
    if opf_dir.len() > 0 && !starts_with_exec(n.as_slice(), dir.as_slice()) {
        let mut joined = dir.clone();
        extend_chars(&mut joined, n.as_slice());
        let c = normalize_chars(joined.as_slice());
        match lookup(&index.exact, c.as_slice()) {
            Some(v) => return Some(v),
            None => {},
        }
        return lookup(&index.folded, casefold_chars(c.as_slice()).as_slice());
    }
    None
}

/// A found entry path is the path of an archive entry.
pub proof fn lemma_found_is_entry(path: Seq<char>, opf_dir: Seq<char>, index: ZipIndex, entries: Seq<ZipEntry>)
    requires
        values_are_entries(pairs_of(index.exact@), entries),
        values_are_entries(pairs_of(index.folded@), entries),
    ensures
        spec_find_zip_entry(path, opf_dir, pairs_of(index.exact@), pairs_of(index.folded@)) matches Some(v)
            ==> exists|k: int| 0 <= k < entries.len() && v == entry_path(entries[k]),
{
    let ex = pairs_of(index.exact@);
    let fo = pairs_of(index.folded@);
    let n = spec_normalize(path);
    let c = spec_normalize(opf_dir.push('/') + n);
    lemma_first_value_in(ex, n, 0);
    lemma_first_value_in(fo, spec_casefold(n), 0);
    lemma_first_value_in(ex, c, 0);
    lemma_first_value_in(fo, spec_casefold(c), 0);
    match spec_find_zip_entry(path, opf_dir, ex, fo) {
        Some(v) => {
            if exists|q: int| 0 <= q < ex.len() && ex[q].1 == v {
                let q = choose|q: int| 0 <= q < ex.len() && ex[q].1 == v;
                assert(exists|k: int| 0 <= k < entries.len() && #[trigger] ex[q].1 == entry_path(entries[k]));
            } else {
                let q = choose|q: int| 0 <= q < fo.len() && fo[q].1 == v;
                assert(exists|k: int| 0 <= k < entries.len() && #[trigger] fo[q].1 == entry_path(entries[k]));
            }
        },
        None => {},
    }
}


// ---------------------------------------------------------------------------
// Discovery
// ---------------------------------------------------------------------------

/// `id` is the inferred id for `path` given the ids `used`: the base id,
/// then with `_1`, `_2`, ... appended, the first not used (or the last one
/// tried, if the suffixes ran out).
pub open spec fn inferred_id_for(path: Seq<char>, id: Seq<char>, used: Seq<Seq<char>>) -> bool {
    exists|j: nat|
        id == id_candidate(inferred_id_base(path), j) && (forall|i: nat|
            i < j ==> used.contains(#[trigger] id_candidate(inferred_id_base(path), i))) && (!used.contains(id)
            || j + 1 == usize::MAX)
}

/// The case-folded original paths of the chapters and resources.
pub open spec fn known_keys(cs: Seq<ExtendedChapterInfo>, rc: ResourceCollection) -> Seq<Seq<char>> {
    cs.map_values(|c: ExtendedChapterInfo| spec_casefold(c.original_path@))
        + rc.styles@.map_values(|r: ResourceFile| spec_casefold(r.original_path@))
        + rc.images@.map_values(|r: ResourceFile| spec_casefold(r.original_path@))
        + rc.fonts@.map_values(|r: ResourceFile| spec_casefold(r.original_path@))
        + rc.misc@.map_values(|r: ResourceFile| spec_casefold(r.original_path@))
}

/// The ids of the chapters and resources.
pub open spec fn known_ids(cs: Seq<ExtendedChapterInfo>, rc: ResourceCollection) -> Seq<Seq<char>> {
    cs.map_values(|c: ExtendedChapterInfo| c.id@) + rc.styles@.map_values(|r: ResourceFile| r.id@)
        + rc.images@.map_values(|r: ResourceFile| r.id@) + rc.fonts@.map_values(|r: ResourceFile| r.id@)
        + rc.misc@.map_values(|r: ResourceFile| r.id@)
}

/// The `k`-th file found outside the manifest is an archive entry, not yet
/// known by its case-folded path, with the media type its extension gives,
/// the standard path of its kind, and a fresh inferred id.
pub open spec fn well_found(found: Seq<ResourceView>, k: int, entries: Seq<ZipEntry>, keys0: Seq<Seq<char>>, ids0: Seq<Seq<char>>) -> bool {
    let f = found[k];
    &&& exists|q: int| 0 <= q < entries.len() && f.original_path == entry_path(#[trigger] entries[q])
    &&& !(keys0 + found.take(k).map_values(|g: ResourceView| spec_casefold(g.original_path))).contains(spec_casefold(f.original_path))
    &&& f.media_type == spec_infer_media_type(f.original_path)
    &&& f.standard_path == spec_classify_resource_path(f.media_type, f.original_path)
    &&& inferred_id_for(f.original_path, f.id, ids0 + found.take(k).map_values(|g: ResourceView| g.id))
}

/// The found files of kind `kind`, in the order found.
pub open spec fn found_of_kind(found: Seq<ResourceView>, kind: ResourceType) -> Seq<ResourceView> {
    found.filter(|f: ResourceView| spec_classify_resource_type(f.media_type) == kind)
}

/// The text of the first archive entry from `i` on named exactly `name`,
/// if that entry is text.
pub open spec fn entry_text_from(entries: Seq<ZipEntry>, name: Seq<char>, i: int) -> Option<Seq<char>>
    decreases entries.len() - i,
{
    if i < 0 || i >= entries.len() {
        None
    } else if entries[i].name@ == name {
        opt_seq(entries[i].text)
    } else {
        entry_text_from(entries, name, i + 1)
    }
}

/// The text of the archive entry named exactly `name`, if it is text.
fn entry_text(entries: &Vec<ZipEntry>, name: &[char]) -> (r: Option<String>)
    ensures
        opt_seq(r) == entry_text_from(entries@, name@, 0),
{
    let mut i: usize = 0;
    while i < entries.len()
        invariant
            i <= entries@.len(),
            entry_text_from(entries@, name@, 0) == entry_text_from(entries@, name@, i as int),
        decreases entries@.len() - i,
    {
        if chars_eq(chars_of(entries[i].name.as_str()).as_slice(), name) {
            return match &entries[i].text {
                Some(t) => Some(t.clone()),
                None => None,
            };
        }
        i += 1;
    }
    None
}

/// The archive entry a reference made in a file of directory `source_dir`
/// points to: none for an external or empty reference; else the entry its
/// path names resolved against the directory, or taken as it is.
pub open spec fn reference_target(
    reference: Seq<char>,
    source_dir: Seq<char>,
    opf_dir: Seq<char>,
    ex: Seq<(Seq<char>, Seq<char>)>,
    fo: Seq<(Seq<char>, Seq<char>)>,
) -> Option<Seq<char>> {
    if spec_should_skip_reference(reference) {
        None
    } else {
        let part = path_part(reference);
        if trim(part).len() == 0 {
            None
        } else {
            match spec_find_zip_entry(spec_resolve_relative(source_dir, part), opf_dir, ex, fo) {
                Some(a) => Some(a),
                None => spec_find_zip_entry(part, opf_dir, ex, fo),
            }
        }
    }
}

/// The target of a reference, if it has one, is known by its case-folded path.
pub open spec fn target_known(
    reference: Seq<char>,
    source_dir: Seq<char>,
    opf_dir: Seq<char>,
    ex: Seq<(Seq<char>, Seq<char>)>,
    fo: Seq<(Seq<char>, Seq<char>)>,
    known: Seq<Seq<char>>,
) -> bool {
    reference_target(reference, source_dir, opf_dir, ex, fo) matches Some(x) ==> known.contains(spec_casefold(x))
}

/// The targets of all the references are known.
pub open spec fn refs_all_known(
    refs: Seq<Seq<char>>,
    source_dir: Seq<char>,
    opf_dir: Seq<char>,
    ex: Seq<(Seq<char>, Seq<char>)>,
    fo: Seq<(Seq<char>, Seq<char>)>,
    known: Seq<Seq<char>>,
) -> bool {
    forall|i: int| 0 <= i < refs.len() ==> #[trigger] target_known(refs[i], source_dir, opf_dir, ex, fo, known)
}

/// The archive entry `actual` has been read: it is not text, or the targets
/// of the references found in its text are known.
pub open spec fn scanned_file_ok(
    actual: Seq<char>,
    entries: Seq<ZipEntry>,
    opf_dir: Seq<char>,
    ex: Seq<(Seq<char>, Seq<char>)>,
    fo: Seq<(Seq<char>, Seq<char>)>,
    known: Seq<Seq<char>>,
) -> bool {
    match entry_text_from(entries, actual, 0) {
        None => true,
        Some(t) => refs_all_known(text_references(t), spec_parent(actual), opf_dir, ex, fo, known),
    }
}

/// A source path has been scanned: it names no archive entry, or one whose
/// case-folded path is that of a scanned entry.
pub open spec fn source_scanned(
    s: Seq<char>,
    scanned: Seq<Seq<char>>,
    opf_dir: Seq<char>,
    ex: Seq<(Seq<char>, Seq<char>)>,
    fo: Seq<(Seq<char>, Seq<char>)>,
) -> bool {
    spec_find_zip_entry(s, opf_dir, ex, fo) matches Some(a) ==> exists|i: int|
        0 <= i < scanned.len() && spec_casefold(#[trigger] scanned[i]) == spec_casefold(a)
}

/// The references of a source are all resolved: it names no archive entry,
/// or an entry with its case-folded path has been read with the targets of
/// its references known.
pub open spec fn source_closed(
    s: Seq<char>,
    entries: Seq<ZipEntry>,
    opf_dir: Seq<char>,
    ex: Seq<(Seq<char>, Seq<char>)>,
    fo: Seq<(Seq<char>, Seq<char>)>,
    known: Seq<Seq<char>>,
) -> bool {
    spec_find_zip_entry(s, opf_dir, ex, fo) matches Some(a) ==> exists|a2: Seq<char>|
        spec_casefold(a2) == spec_casefold(a) && #[trigger] scanned_file_ok(a2, entries, opf_dir, ex, fo, known)
}

/// `b` is `a` with more strings after it.
pub open spec fn grows(a: Seq<Seq<char>>, b: Seq<Seq<char>>) -> bool {
    a.len() <= b.len() && b.take(a.len() as int) == a
}

/// What a list holds stays in it as it grows.
pub proof fn lemma_grows_contains(a: Seq<Seq<char>>, b: Seq<Seq<char>>, x: Seq<char>)
    requires
        grows(a, b),
        a.contains(x),
    ensures
        b.contains(x),
{
    let i = choose|i: int| 0 <= i < a.len() && a[i] == x;
    assert(b.take(a.len() as int)[i] == b[i]);
}

/// A file read with its references' targets known stays so as more files
/// become known.
pub proof fn lemma_scanned_file_ok_grows(
    actual: Seq<char>,
    entries: Seq<ZipEntry>,
    opf_dir: Seq<char>,
    ex: Seq<(Seq<char>, Seq<char>)>,
    fo: Seq<(Seq<char>, Seq<char>)>,
    known: Seq<Seq<char>>,
    known2: Seq<Seq<char>>,
)
    requires
        scanned_file_ok(actual, entries, opf_dir, ex, fo, known),
        grows(known, known2),
    ensures
        scanned_file_ok(actual, entries, opf_dir, ex, fo, known2),
{
    match entry_text_from(entries, actual, 0) {
        None => {},
        Some(t) => {
            let refs = text_references(t);
            assert forall|i: int| 0 <= i < refs.len() implies #[trigger] target_known(refs[i], spec_parent(actual), opf_dir, ex, fo, known2) by {
                assert(target_known(refs[i], spec_parent(actual), opf_dir, ex, fo, known));
                match reference_target(refs[i], spec_parent(actual), opf_dir, ex, fo) {
                    Some(x) => lemma_grows_contains(known, known2, spec_casefold(x)),
                    None => {},
                }
            }
            assert(refs_all_known(refs, spec_parent(actual), opf_dir, ex, fo, known2));
        },
    }
}

/// The case-folded entry paths of the archive.
pub open spec fn entry_keys(entries: Seq<ZipEntry>) -> Set<Seq<char>> {
    entries.map_values(|e: ZipEntry| spec_casefold(entry_path(e))).to_set()
}

/// What the discovery keeps true: the known keys and used ids are the
/// initial ones followed by those of the files found, every found file is
/// well found, and the found keys are distinct archive entries.
pub open spec fn disc_inv(
    entries: Seq<ZipEntry>,
    keys0: Seq<Seq<char>>,
    ids0: Seq<Seq<char>>,
    known: Seq<Seq<char>>,
    used: Seq<Seq<char>>,
    found: Seq<ResourceView>,
    fkeys: Set<Seq<char>>,
) -> bool {
    &&& known == keys0 + found.map_values(|g: ResourceView| spec_casefold(g.original_path))
    &&& used == ids0 + found.map_values(|g: ResourceView| g.id)
    &&& forall|k: int| 0 <= k < found.len() ==> #[trigger] well_found(found, k, entries, keys0, ids0)
    &&& fkeys.finite()
    &&& fkeys.subset_of(entry_keys(entries))
    &&& fkeys.len() == found.len()
    &&& forall|k: int| 0 <= k < found.len() ==> fkeys.contains(#[trigger] spec_casefold(found[k].original_path))
    &&& forall|x: Seq<char>| #[trigger] fkeys.contains(x) ==> exists|k: int| 0 <= k < found.len() && spec_casefold(found[k].original_path) == x
}

/// Adding a newly found file keeps the discovery invariant.
proof fn lemma_push_found(
    entries: Seq<ZipEntry>,
    keys0: Seq<Seq<char>>,
    ids0: Seq<Seq<char>>,
    known: Seq<Seq<char>>,
    used: Seq<Seq<char>>,
    found: Seq<ResourceView>,
    fkeys: Set<Seq<char>>,
    f: ResourceView,
)
    requires
        disc_inv(entries, keys0, ids0, known, used, found, fkeys),
        exists|q: int| 0 <= q < entries.len() && f.original_path == entry_path(#[trigger] entries[q]),
        !known.contains(spec_casefold(f.original_path)),
        f.media_type == spec_infer_media_type(f.original_path),
        f.standard_path == spec_classify_resource_path(f.media_type, f.original_path),
        inferred_id_for(f.original_path, f.id, used),
    ensures
        disc_inv(
            entries,
            keys0,
            ids0,
            known.push(spec_casefold(f.original_path)),
            used.push(f.id),
            found.push(f),
            fkeys.insert(spec_casefold(f.original_path)),
        ),
{
    let key = spec_casefold(f.original_path);
    let fv = found.push(f);
    let nk = fkeys.insert(key);
    assert(fv.take(found.len() as int) =~= found);
    let q = choose|q: int| 0 <= q < entries.len() && f.original_path == entry_path(#[trigger] entries[q]);
    assert(entries.map_values(|e: ZipEntry| spec_casefold(entry_path(e)))[q] == key);
    assert(entry_keys(entries).contains(key));
    assert(!fkeys.contains(key)) by {
        if fkeys.contains(key) {
            let k = choose|k: int| 0 <= k < found.len() && spec_casefold(found[k].original_path) == key;
            assert(found.map_values(|g: ResourceView| spec_casefold(g.original_path))[k] == key);
            assert(known[keys0.len() + k] == key);
        }
    }
    assert(known.push(key) =~= keys0 + fv.map_values(|g: ResourceView| spec_casefold(g.original_path)));
    assert(used.push(f.id) =~= ids0 + fv.map_values(|g: ResourceView| g.id));
    assert(well_found(fv, found.len() as int, entries, keys0, ids0));
    assert forall|k: int| 0 <= k < fv.len() implies #[trigger] well_found(fv, k, entries, keys0, ids0) by {
        if k < found.len() {
            assert(well_found(found, k, entries, keys0, ids0));
            assert(fv.take(k) =~= found.take(k));
            assert(fv[k] == found[k]);
        }
    }
    assert forall|k: int| 0 <= k < fv.len() implies nk.contains(#[trigger] spec_casefold(fv[k].original_path)) by {
        if k < found.len() {
            assert(fv[k] == found[k]);
        }
    }
    assert forall|x: Seq<char>| #[trigger] nk.contains(x) implies exists|k: int| 0 <= k < fv.len() && spec_casefold(fv[k].original_path) == x by {
        if x == key {
            assert(spec_casefold(fv[found.len() as int].original_path) == x);
        } else {
            let k = choose|k: int| 0 <= k < found.len() && spec_casefold(found[k].original_path) == x;
            assert(fv[k] == found[k]);
        }
    }
}

/// The files of a kind after one more found file.
proof fn lemma_found_of_kind_push(s: Seq<ResourceView>, x: ResourceView, kind: ResourceType)
    ensures
        found_of_kind(s.push(x), kind) == if spec_classify_resource_type(x.media_type) == kind {
            found_of_kind(s, kind).push(x)
        } else {
            found_of_kind(s, kind)
        },
{
    let p = |f: ResourceView| spec_classify_resource_type(f.media_type) == kind;
    reveal(Seq::filter);
    assert(s.push(x).drop_last() =~= s);
    assert(s.push(x).last() == x);
    assert(s.push(x).filter(p) == (if p(x) { s.filter(p).push(x) } else { s.filter(p) }));
}

/// `x` is the path of a text file found from position `f0` on.
pub open spec fn is_found_text(found: Seq<ResourceFile>, f0: int, x: Seq<char>) -> bool {
    exists|k: int| f0 <= k < found.len() && #[trigger] found[k].original_path@ == x && spec_is_text_like_file(x)
}

/// The strings added to a queue from position `q0` on are the paths of text
/// files found from position `f0` on.
pub open spec fn queued_found(q0: int, q: Seq<Seq<char>>, f0: int, found: Seq<ResourceFile>) -> bool {
    forall|p: int| q0 <= p < q.len() ==> is_found_text(found, f0, #[trigger] q[p])
}

/// `x` is the target of one of the first `ri` references.
pub open spec fn target_of_refs(rv: Seq<Seq<char>>, ri: int, dir: Seq<char>, opf_dir: Seq<char>, ex: Seq<(Seq<char>, Seq<char>)>, fo: Seq<(Seq<char>, Seq<char>)>, x: Seq<char>) -> bool {
    exists|i: int| 0 <= i < ri && reference_target(#[trigger] rv[i], dir, opf_dir, ex, fo) == Some(x)
}

/// Takes one reference of a scanned file: a reference to an archive entry
/// not yet known becomes a found file (and is queued for scanning if it is
/// text); the found keys are returned.
fn consider_reference(
    reference: &[char],
    source_dir: &[char],
    opf_dir: &[char],
    index: &ZipIndex,
    entries: &Vec<ZipEntry>,
    known: &mut Vec<String>,
    used_ids: &mut Vec<String>,
    found: &mut Vec<ResourceFile>,
    queue: &mut Vec<String>,
    Ghost(keys0): Ghost<Seq<Seq<char>>>,
    Ghost(ids0): Ghost<Seq<Seq<char>>>,
    Ghost(fkeys): Ghost<Set<Seq<char>>>,
) -> (r: Ghost<Set<Seq<char>>>)
    requires
        values_are_entries(pairs_of(index.exact@), entries@),
        values_are_entries(pairs_of(index.folded@), entries@),
        disc_inv(entries@, keys0, ids0, string_views(old(known)@), string_views(old(used_ids)@), resource_views(old(found)@), fkeys),
    ensures
        disc_inv(entries@, keys0, ids0, string_views(final(known)@), string_views(final(used_ids)@), resource_views(final(found)@), r@),
        final(found)@.len() >= old(found)@.len(),
        final(queue)@.len() <= old(queue)@.len() + (final(found)@.len() - old(found)@.len()),
        grows(string_views(old(known)@), string_views(final(known)@)),
        grows(string_views(old(queue)@), string_views(final(queue)@)),
        final(found)@.take(old(found)@.len() as int) == old(found)@,
        forall|k: int| old(found)@.len() <= k < final(found)@.len() && spec_is_text_like_file(#[trigger] final(found)@[k].original_path@)
            ==> string_views(final(queue)@).contains(final(found)@[k].original_path@),
        target_known(reference@, source_dir@, opf_dir@, pairs_of(index.exact@), pairs_of(index.folded@), string_views(final(known)@)),
        queued_found(old(queue)@.len() as int, string_views(final(queue)@), old(found)@.len() as int, final(found)@),
        forall|k: int| old(found)@.len() <= k < final(found)@.len() ==> reference_target(reference@, source_dir@, opf_dir@,
            pairs_of(index.exact@), pairs_of(index.folded@)) == Some(#[trigger] final(found)@[k].original_path@),
{
    proof {
        assert(string_views(known@).take(known@.len() as int) =~= string_views(known@));
        assert(string_views(queue@).take(queue@.len() as int) =~= string_views(queue@));
        assert(found@.take(found@.len() as int) =~= found@);
    }
    if should_skip_reference_chars(reference) {
        return Ghost(fkeys);
    }
    let pos = suffix_pos_exec(reference);
    let part = slice_chars(reference, 0, pos);
    assert(part@ =~= path_part(reference@));
    if trim_chars(part.as_slice()).len() == 0 {
        return Ghost(fkeys);
    }
    let resolved = resolve_relative_chars(source_dir, part.as_slice());
    let actual2 = match find_zip_entry(resolved.as_slice(), opf_dir, index) {
        Some(a) => {
            proof {
                lemma_found_is_entry(resolved@, opf_dir@, *index, entries@);
            }
            a
        },
        None => match find_zip_entry(part.as_slice(), opf_dir, index) {
            Some(a) => {
                proof {
                    lemma_found_is_entry(part@, opf_dir@, *index, entries@);
                }
                a
            },
            None => return Ghost(fkeys),
        },
    };
    let key = casefold_chars(chars_of(actual2.as_str()).as_slice());
    assert(reference_target(reference@, source_dir@, opf_dir@, pairs_of(index.exact@), pairs_of(index.folded@)) == Some(actual2@));
    if contains_string(known, key.as_slice()) {
        assert(string_views(known@).contains(key@));
        return Ghost(fkeys);
    }
    let media_type = infer_media_type(actual2.as_str());
    let standard_path = classify_resource_path(media_type.as_str(), actual2.as_str());
    let id = make_unique_inferred_id(actual2.as_str(), used_ids);
    let file = ResourceFile { id, original_path: actual2.clone(), standard_path, media_type };
    let ghost fb = resource_views(found@);
    let ghost kb = string_views(known@);
    let ghost ub = string_views(old(used_ids)@);
    proof {
        let q = choose|q: int| 0 <= q < entries@.len() && actual2@ == entry_path(entries@[q]);
        assert(actual2@ == entry_path(entries@[q]));
        lemma_push_found(entries@, keys0, ids0, kb, ub, fb, fkeys, resource_view(file));
    }
    let ghost f0 = found@;
    let ghost qb = string_views(queue@);
    found.push(file);
    known.push(string_of(key.as_slice()));
    let ghost nk = fkeys.insert(key@);
    proof {
        assert(resource_views(found@) =~= fb.push(resource_view(file)));
        assert(string_views(known@) =~= kb.push(key@));
        assert(string_views(known@).take(kb.len() as int) =~= kb);
        assert(string_views(known@)[kb.len() as int] == key@);
        assert(found@.take(f0.len() as int) =~= f0);
        assert(found@[f0.len() as int].original_path@ == actual2@);
    }
    if is_text_like_file_chars(chars_of(actual2.as_str()).as_slice()) {
        queue.push(actual2);
        proof {
            assert(string_views(queue@) =~= qb.push(actual2@));
            assert forall|p: int| qb.len() <= p < string_views(queue@).len() implies is_found_text(found@, f0.len() as int, #[trigger] string_views(queue@)[p]) by {
                assert(found@[f0.len() as int].original_path@ == actual2@);
            }
            assert(string_views(queue@).take(qb.len() as int) =~= qb);
            assert(string_views(queue@)[qb.len() as int] == actual2@);
        }
    } else {
        proof {
            assert(string_views(queue@).take(qb.len() as int) =~= qb);
        }
    }
    Ghost(nk)
}

/// A string in a list other than its last is in the list without its last.
proof fn lemma_contains_drop_last(q: Seq<Seq<char>>, t: Seq<char>)
    requires
        q.len() > 0,
        q.contains(t),
        t != q.last(),
    ensures
        q.drop_last().contains(t),
{
    let i = choose|i: int| 0 <= i < q.len() && q[i] == t;
    assert(i != q.len() - 1);
    assert(q.drop_last()[i] == t);
}

/// A string in a list is in it after a push.
proof fn lemma_push_contains(q: Seq<Seq<char>>, x: Seq<char>, t: Seq<char>)
    requires
        q.contains(t),
    ensures
        q.push(x).contains(t),
{
    let i = choose|i: int| 0 <= i < q.len() && q[i] == t;
    assert(q.push(x)[i] == t);
}

/// A scanned source stays scanned as more files are read.
proof fn lemma_source_scanned_grows(
    s: Seq<char>,
    scanned: Seq<Seq<char>>,
    scanned2: Seq<Seq<char>>,
    opf_dir: Seq<char>,
    ex: Seq<(Seq<char>, Seq<char>)>,
    fo: Seq<(Seq<char>, Seq<char>)>,
)
    requires
        source_scanned(s, scanned, opf_dir, ex, fo),
        scanned.len() <= scanned2.len(),
        scanned2.take(scanned.len() as int) == scanned,
    ensures
        source_scanned(s, scanned2, opf_dir, ex, fo),
{
    match spec_find_zip_entry(s, opf_dir, ex, fo) {
        Some(a) => {
            let i = choose|i: int| 0 <= i < scanned.len() && spec_casefold(#[trigger] scanned[i]) == spec_casefold(a);
            assert(scanned2.take(scanned.len() as int)[i] == scanned2[i]);
        },
        None => {},
    }
}

/// A scanned source whose read files have their references' targets known
/// has all its references resolved.
proof fn lemma_source_closed(
    s: Seq<char>,
    scanned: Seq<Seq<char>>,
    entries: Seq<ZipEntry>,
    opf_dir: Seq<char>,
    ex: Seq<(Seq<char>, Seq<char>)>,
    fo: Seq<(Seq<char>, Seq<char>)>,
    known: Seq<Seq<char>>,
)
    requires
        source_scanned(s, scanned, opf_dir, ex, fo),
        forall|i: int| 0 <= i < scanned.len() ==> #[trigger] scanned_file_ok(scanned[i], entries, opf_dir, ex, fo, known),
    ensures
        source_closed(s, entries, opf_dir, ex, fo, known),
{
    match spec_find_zip_entry(s, opf_dir, ex, fo) {
        Some(a) => {
            let i = choose|i: int| 0 <= i < scanned.len() && spec_casefold(#[trigger] scanned[i]) == spec_casefold(a);
            assert(scanned_file_ok(scanned[i], entries, opf_dir, ex, fo, known));
        },
        None => {},
    }
}

/// `b` grows into `c`, so `a` does too where it grows into `b`.
proof fn lemma_grows_trans(a: Seq<Seq<char>>, b: Seq<Seq<char>>, c: Seq<Seq<char>>)
    requires
        grows(a, b),
        grows(b, c),
    ensures
        grows(a, c),
{
    assert(c.take(a.len() as int) =~= c.take(b.len() as int).take(a.len() as int));
}

/// What reading the references of a file keeps true after one more
/// reference has been considered.
proof fn lemma_reference_step(
    entries: Seq<ZipEntry>,
    opf_dir: Seq<char>,
    ex: Seq<(Seq<char>, Seq<char>)>,
    fo: Seq<(Seq<char>, Seq<char>)>,
    sact: Seq<Seq<char>>,
    rv: Seq<Seq<char>>,
    ri: int,
    dir: Seq<char>,
    k0: Seq<Seq<char>>,
    kb: Seq<Seq<char>>,
    kn: Seq<Seq<char>>,
    q0: Seq<Seq<char>>,
    qb: Seq<Seq<char>>,
    qn: Seq<Seq<char>>,
    f0: Seq<ResourceFile>,
    fb: Seq<ResourceFile>,
    fnew: Seq<ResourceFile>,
    n0: int,
)
    requires
        grows(k0, kb),
        grows(kb, kn),
        grows(q0, qb),
        grows(qb, qn),
        0 <= n0 <= fb.len() <= fnew.len(),
        fb.take(n0) == f0,
        fnew.take(fb.len() as int) == fb,
        forall|k: int| n0 <= k < fb.len() && spec_is_text_like_file(#[trigger] fb[k].original_path@)
            ==> qb.contains(fb[k].original_path@),
        forall|k: int| fb.len() <= k < fnew.len() && spec_is_text_like_file(#[trigger] fnew[k].original_path@)
            ==> qn.contains(fnew[k].original_path@),
        forall|i: int| 0 <= i < sact.len() ==> #[trigger] scanned_file_ok(sact[i], entries, opf_dir, ex, fo, kb),
        forall|i: int| 0 <= i < ri ==> #[trigger] target_known(rv[i], dir, opf_dir, ex, fo, kb),
        0 <= ri < rv.len(),
        target_known(rv[ri], dir, opf_dir, ex, fo, kn),
    ensures
        grows(k0, kn),
        grows(q0, qn),
        fnew.take(n0) == f0,
        forall|k: int| n0 <= k < fnew.len() && spec_is_text_like_file(#[trigger] fnew[k].original_path@)
            ==> qn.contains(fnew[k].original_path@),
        forall|i: int| 0 <= i < sact.len() ==> #[trigger] scanned_file_ok(sact[i], entries, opf_dir, ex, fo, kn),
        forall|i: int| 0 <= i < ri + 1 ==> #[trigger] target_known(rv[i], dir, opf_dir, ex, fo, kn),
{
    lemma_grows_trans(k0, kb, kn);
    lemma_grows_trans(q0, qb, qn);
    assert(fnew.take(n0) =~= fnew.take(fb.len() as int).take(n0));
    lemma_files_stay_ok(entries, opf_dir, ex, fo, sact, kb, kn);
    lemma_targets_stay_known(opf_dir, ex, fo, rv, ri, dir, kb, kn);
    lemma_queued_stay(qb, qn, fb, fnew, n0);
}

/// Read files keep their references' targets known as more become known.
proof fn lemma_files_stay_ok(
    entries: Seq<ZipEntry>,
    opf_dir: Seq<char>,
    ex: Seq<(Seq<char>, Seq<char>)>,
    fo: Seq<(Seq<char>, Seq<char>)>,
    sact: Seq<Seq<char>>,
    kb: Seq<Seq<char>>,
    kn: Seq<Seq<char>>,
)
    requires
        grows(kb, kn),
        forall|i: int| 0 <= i < sact.len() ==> #[trigger] scanned_file_ok(sact[i], entries, opf_dir, ex, fo, kb),
    ensures
        forall|i: int| 0 <= i < sact.len() ==> #[trigger] scanned_file_ok(sact[i], entries, opf_dir, ex, fo, kn),
{
    assert forall|i: int| 0 <= i < sact.len() implies #[trigger] scanned_file_ok(sact[i], entries, opf_dir, ex, fo, kn) by {
        lemma_scanned_file_ok_grows(sact[i], entries, opf_dir, ex, fo, kb, kn);
    }
}

/// Known targets stay known as more files become known.
proof fn lemma_targets_stay_known(
    opf_dir: Seq<char>,
    ex: Seq<(Seq<char>, Seq<char>)>,
    fo: Seq<(Seq<char>, Seq<char>)>,
    rv: Seq<Seq<char>>,
    ri: int,
    dir: Seq<char>,
    kb: Seq<Seq<char>>,
    kn: Seq<Seq<char>>,
)
    requires
        grows(kb, kn),
        forall|i: int| 0 <= i < ri ==> #[trigger] target_known(rv[i], dir, opf_dir, ex, fo, kb),
        0 <= ri < rv.len(),
        target_known(rv[ri], dir, opf_dir, ex, fo, kn),
    ensures
        forall|i: int| 0 <= i < ri + 1 ==> #[trigger] target_known(rv[i], dir, opf_dir, ex, fo, kn),
{
    assert forall|i: int| 0 <= i < ri + 1 implies #[trigger] target_known(rv[i], dir, opf_dir, ex, fo, kn) by {
        if i < ri {
            assert(target_known(rv[i], dir, opf_dir, ex, fo, kb));
            match reference_target(rv[i], dir, opf_dir, ex, fo) {
                Some(x) => lemma_grows_contains(kb, kn, spec_casefold(x)),
                None => {},
            }
        }
    }
}

/// Queued text files stay queued as the queue grows and files are found.
proof fn lemma_queued_stay(
    qb: Seq<Seq<char>>,
    qn: Seq<Seq<char>>,
    fb: Seq<ResourceFile>,
    fnew: Seq<ResourceFile>,
    n0: int,
)
    requires
        grows(qb, qn),
        0 <= n0 <= fb.len() <= fnew.len(),
        fnew.take(fb.len() as int) == fb,
        forall|k: int| n0 <= k < fb.len() && spec_is_text_like_file(#[trigger] fb[k].original_path@)
            ==> qb.contains(fb[k].original_path@),
        forall|k: int| fb.len() <= k < fnew.len() && spec_is_text_like_file(#[trigger] fnew[k].original_path@)
            ==> qn.contains(fnew[k].original_path@),
    ensures
        forall|k: int| n0 <= k < fnew.len() && spec_is_text_like_file(#[trigger] fnew[k].original_path@)
            ==> qn.contains(fnew[k].original_path@),
{
    assert forall|k: int| n0 <= k < fnew.len() && spec_is_text_like_file(#[trigger] fnew[k].original_path@)
        implies qn.contains(fnew[k].original_path@) by {
        if k < fb.len() {
            assert(fnew.take(fb.len() as int)[k] == fnew[k]);
            assert(fb[k] == fnew[k]);
            lemma_grows_contains(qb, qn, fb[k].original_path@);
        }
    }
}

/// `x` is the target of a reference in the text of the archive entry that
/// the source path `s` names.
pub open spec fn referenced_from(
    s: Seq<char>,
    x: Seq<char>,
    entries: Seq<ZipEntry>,
    opf_dir: Seq<char>,
    ex: Seq<(Seq<char>, Seq<char>)>,
    fo: Seq<(Seq<char>, Seq<char>)>,
) -> bool {
    match spec_find_zip_entry(s, opf_dir, ex, fo) {
        None => false,
        Some(a) => match entry_text_from(entries, a, 0) {
            None => false,
            Some(t) => exists|i: int|
                0 <= i < text_references(t).len()
                    && reference_target(#[trigger] text_references(t)[i], spec_parent(a), opf_dir, ex, fo) == Some(x),
        },
    }
}

/// Queued found text files stay so described as the queue and the found
/// files grow.
proof fn lemma_queued_found_step(
    q0: int,
    qb: Seq<Seq<char>>,
    qn: Seq<Seq<char>>,
    n0: int,
    fb: Seq<ResourceFile>,
    fnew: Seq<ResourceFile>,
)
    requires
        0 <= q0 <= qb.len(),
        0 <= n0 <= fb.len(),
        queued_found(q0, qb, n0, fb),
        grows(qb, qn),
        fb.len() <= fnew.len(),
        fnew.take(fb.len() as int) == fb,
        queued_found(qb.len() as int, qn, fb.len() as int, fnew),
    ensures
        queued_found(q0, qn, n0, fnew),
{
    assert forall|p: int| q0 <= p < qn.len() implies is_found_text(fnew, n0, #[trigger] qn[p]) by {
        if p < qb.len() {
            assert(qn.take(qb.len() as int)[p] == qn[p]);
            assert(is_found_text(fb, n0, qb[p]));
            let k = choose|k: int| n0 <= k < fb.len() && #[trigger] fb[k].original_path@ == qb[p] && spec_is_text_like_file(qb[p]);
            assert(fnew.take(fb.len() as int)[k] == fnew[k]);
            assert(fnew[k].original_path@ == qn[p]);
        } else {
            assert(is_found_text(fnew, fb.len() as int, qn[p]));
            let k = choose|k: int| fb.len() <= k < fnew.len() && #[trigger] fnew[k].original_path@ == qn[p] && spec_is_text_like_file(qn[p]);
            assert(fnew[k].original_path@ == qn[p]);
        }
    }
}

/// The files found while reading a file's references are targets of the
/// references read so far.
proof fn lemma_targets_found_step(
    rv: Seq<Seq<char>>,
    ri: int,
    dir: Seq<char>,
    opf_dir: Seq<char>,
    ex: Seq<(Seq<char>, Seq<char>)>,
    fo: Seq<(Seq<char>, Seq<char>)>,
    n0: int,
    fb: Seq<ResourceFile>,
    fnew: Seq<ResourceFile>,
)
    requires
        0 <= ri < rv.len(),
        0 <= n0 <= fb.len() <= fnew.len(),
        fnew.take(fb.len() as int) == fb,
        forall|k: int| n0 <= k < fb.len() ==> target_of_refs(rv, ri, dir, opf_dir, ex, fo, #[trigger] fb[k].original_path@),
        forall|k: int| fb.len() <= k < fnew.len() ==> reference_target(rv[ri], dir, opf_dir, ex, fo) == Some(#[trigger] fnew[k].original_path@),
    ensures
        forall|k: int| n0 <= k < fnew.len() ==> target_of_refs(rv, ri + 1, dir, opf_dir, ex, fo, #[trigger] fnew[k].original_path@),
{
    assert forall|k: int| n0 <= k < fnew.len() implies target_of_refs(rv, ri + 1, dir, opf_dir, ex, fo, #[trigger] fnew[k].original_path@) by {
        if k < fb.len() {
            assert(fnew.take(fb.len() as int)[k] == fnew[k]);
            assert(fnew[k] == fb[k]);
            assert(target_of_refs(rv, ri, dir, opf_dir, ex, fo, fb[k].original_path@));
            let i = choose|i: int| 0 <= i < ri && reference_target(#[trigger] rv[i], dir, opf_dir, ex, fo) == Some(fb[k].original_path@);
            assert(reference_target(rv[i], dir, opf_dir, ex, fo) == Some(fnew[k].original_path@));
        } else {
            assert(reference_target(rv[ri], dir, opf_dir, ex, fo) == Some(fnew[k].original_path@));
        }
    }
}

/// Reads one queued source: the archive entry it names, unless one with the
/// same case-folded path was read already, and each reference in its text
/// (see `consider_reference`). Returns the found keys and the read entries.
#[verifier::rlimit(60)]
#[verifier::spinoff_prover]
fn scan_source(
    source: &[char],
    opf_dir: &[char],
    index: &ZipIndex,
    entries: &Vec<ZipEntry>,
    known: &mut Vec<String>,
    used_ids: &mut Vec<String>,
    found: &mut Vec<ResourceFile>,
    queue: &mut Vec<String>,
    scanned: &mut Vec<String>,
    Ghost(keys0): Ghost<Seq<Seq<char>>>,
    Ghost(ids0): Ghost<Seq<Seq<char>>>,
    Ghost(fkeys): Ghost<Set<Seq<char>>>,
    Ghost(sact): Ghost<Seq<Seq<char>>>,
) -> (r: (Ghost<Set<Seq<char>>>, Ghost<Seq<Seq<char>>>))
    requires
        values_are_entries(pairs_of(index.exact@), entries@),
        values_are_entries(pairs_of(index.folded@), entries@),
        disc_inv(entries@, keys0, ids0, string_views(old(known)@), string_views(old(used_ids)@), resource_views(old(found)@), fkeys),
        string_views(old(scanned)@) == sact.map_values(|a: Seq<char>| spec_casefold(a)),
        forall|i: int| 0 <= i < sact.len() ==> #[trigger] scanned_file_ok(sact[i], entries@, opf_dir@, pairs_of(index.exact@), pairs_of(index.folded@), string_views(old(known)@)),
    ensures
        disc_inv(entries@, keys0, ids0, string_views(final(known)@), string_views(final(used_ids)@), resource_views(final(found)@), r.0@),
        final(found)@.len() >= old(found)@.len(),
        final(queue)@.len() <= old(queue)@.len() + (final(found)@.len() - old(found)@.len()),
        grows(string_views(old(known)@), string_views(final(known)@)),
        grows(string_views(old(queue)@), string_views(final(queue)@)),
        final(found)@.take(old(found)@.len() as int) == old(found)@,
        forall|k: int| old(found)@.len() <= k < final(found)@.len() && spec_is_text_like_file(#[trigger] final(found)@[k].original_path@)
            ==> string_views(final(queue)@).contains(final(found)@[k].original_path@),
        string_views(final(scanned)@) == r.1@.map_values(|a: Seq<char>| spec_casefold(a)),
        sact.len() <= r.1@.len(),
        r.1@.take(sact.len() as int) == sact,
        forall|i: int| 0 <= i < r.1@.len() ==> #[trigger] scanned_file_ok(r.1@[i], entries@, opf_dir@, pairs_of(index.exact@), pairs_of(index.folded@), string_views(final(known)@)),
        source_scanned(source@, r.1@, opf_dir@, pairs_of(index.exact@), pairs_of(index.folded@)),
        queued_found(old(queue)@.len() as int, string_views(final(queue)@), old(found)@.len() as int, final(found)@),
        forall|k: int| old(found)@.len() <= k < final(found)@.len() ==> #[trigger] referenced_from(source@, final(found)@[k].original_path@,
            entries@, opf_dir@, pairs_of(index.exact@), pairs_of(index.folded@)),
{
    let ghost ex = pairs_of(index.exact@);
    let ghost fo = pairs_of(index.folded@);
    proof {
        assert(string_views(known@).take(known@.len() as int) =~= string_views(known@));
        assert(string_views(queue@).take(queue@.len() as int) =~= string_views(queue@));
        assert(found@.take(found@.len() as int) =~= found@);
        assert(sact.take(sact.len() as int) =~= sact);
    }
    let actual = match find_zip_entry(source, opf_dir, index) {
        Some(a) => a,
        None => return (Ghost(fkeys), Ghost(sact)),
    };
    let skey = casefold_chars(chars_of(actual.as_str()).as_slice());
    if contains_string(scanned, skey.as_slice()) {
        proof {
            assert(string_views(scanned@).contains(skey@));
            let i = choose|i: int| 0 <= i < string_views(scanned@).len() && #[trigger] string_views(scanned@)[i] == skey@;
            assert(sact.map_values(|a: Seq<char>| spec_casefold(a))[i] == spec_casefold(sact[i]));
        }
        return (Ghost(fkeys), Ghost(sact));
    }
    let ghost sb = string_views(scanned@);
    scanned.push(string_of(skey.as_slice()));
    let ghost sact2 = sact.push(actual@);
    proof {
        assert(string_views(scanned@) =~= sb.push(skey@));
        assert(string_views(scanned@) =~= sact2.map_values(|a: Seq<char>| spec_casefold(a)));
        assert(sact2.take(sact.len() as int) =~= sact);
        assert(spec_casefold(sact2[sact.len() as int]) == spec_casefold(actual@));
    }
    let content = match entry_text(entries, chars_of(actual.as_str()).as_slice()) {
        Some(t) => t,
        None => {
            proof {
                assert(scanned_file_ok(sact2[sact.len() as int], entries@, opf_dir@, ex, fo, string_views(known@)));
                assert forall|i: int| 0 <= i < sact2.len() implies #[trigger] scanned_file_ok(sact2[i], entries@, opf_dir@, ex, fo, string_views(known@)) by {
                    if i < sact.len() {
                        assert(sact2[i] == sact[i]);
                    }
                }
            }
            return (Ghost(fkeys), Ghost(sact2));
        },
    };
    let source_dir = parent_chars(chars_of(actual.as_str()).as_slice());
    let references = collect_resource_references(content.as_str());
    let ghost k0 = string_views(known@);
    let ghost q0v = string_views(queue@);
    let ghost f0 = found@;
    let ghost n0 = found@.len();
    let ghost q0 = queue@.len();
    let ghost rv = string_views(references@);
    let ghost mut fk = fkeys;
    let mut ri: usize = 0;
    while ri < references.len()
        invariant
            values_are_entries(pairs_of(index.exact@), entries@),
            values_are_entries(pairs_of(index.folded@), entries@),
            ex == pairs_of(index.exact@),
            fo == pairs_of(index.folded@),
            rv == string_views(references@),
            ri <= references@.len(),
            disc_inv(entries@, keys0, ids0, string_views(known@), string_views(used_ids@), resource_views(found@), fk),
            found@.len() >= n0,
            queue@.len() <= q0 + (found@.len() - n0),
            grows(k0, string_views(known@)),
            grows(q0v, string_views(queue@)),
            found@.take(n0 as int) == f0,
            forall|k: int| n0 <= k < found@.len() && spec_is_text_like_file(#[trigger] found@[k].original_path@)
                ==> string_views(queue@).contains(found@[k].original_path@),
            forall|i: int| 0 <= i < sact.len() ==> #[trigger] scanned_file_ok(sact[i], entries@, opf_dir@, ex, fo, string_views(known@)),
            forall|i: int| 0 <= i < ri ==> #[trigger] target_known(rv[i], spec_parent(actual@), opf_dir@, ex, fo, string_views(known@)),
            source_dir@ == spec_parent(actual@),
            queued_found(q0v.len() as int, string_views(queue@), n0 as int, found@),
            forall|k: int| n0 <= k < found@.len() ==> target_of_refs(rv, ri as int, spec_parent(actual@), opf_dir@, ex, fo, #[trigger] found@[k].original_path@),
        decreases references@.len() - ri,
    {
        let reference = chars_of(references[ri].as_str());
        let ghost kb = string_views(known@);
        let ghost qb = string_views(queue@);
        let ghost fb = found@;
        let g = consider_reference(
            reference.as_slice(),
            source_dir.as_slice(),
            opf_dir,
            index,
            entries,
            known,
            used_ids,
            found,
            queue,
            Ghost(keys0),
            Ghost(ids0),
            Ghost(fk),
        );
        proof {
            fk = g@;
            lemma_reference_step(
                entries@, opf_dir@, ex, fo, sact, rv, ri as int, spec_parent(actual@),
                k0, kb, string_views(known@), q0v, qb, string_views(queue@), f0, fb, found@, n0 as int,
            );
            lemma_queued_found_step(q0v.len() as int, qb, string_views(queue@), n0 as int, fb, found@);
            assert(rv[ri as int] == reference@);
            lemma_targets_found_step(rv, ri as int, spec_parent(actual@), opf_dir@, ex, fo, n0 as int, fb, found@);
        }
        ri += 1;
    }
    proof {
        let kn = string_views(known@);
        assert(rv == text_references(content@));
        assert(refs_all_known(text_references(content@), spec_parent(actual@), opf_dir@, ex, fo, kn));
        assert(entry_text_from(entries@, actual@, 0) == Some(content@));
        assert(scanned_file_ok(actual@, entries@, opf_dir@, ex, fo, kn));
        assert forall|i: int| 0 <= i < sact2.len() implies #[trigger] scanned_file_ok(sact2[i], entries@, opf_dir@, ex, fo, kn) by {
            if i < sact.len() {
                assert(sact2[i] == sact[i]);
            }
        }
    }
    (Ghost(fk), Ghost(sact2))
}

/// A tracked source that was queued or scanned before one more source was
/// taken off the queue and read is still queued or scanned.
proof fn lemma_tracked_step(
    t: Seq<char>,
    qv: Seq<Seq<char>>,
    qn: Seq<Seq<char>>,
    s: Seq<char>,
    s0: Seq<Seq<char>>,
    s1: Seq<Seq<char>>,
    opf_dir: Seq<char>,
    ex: Seq<(Seq<char>, Seq<char>)>,
    fo: Seq<(Seq<char>, Seq<char>)>,
)
    requires
        qv.len() > 0,
        s == qv.last(),
        grows(qv.drop_last(), qn),
        qv.contains(t) || source_scanned(t, s0, opf_dir, ex, fo),
        s0.len() <= s1.len(),
        s1.take(s0.len() as int) == s0,
        source_scanned(s, s1, opf_dir, ex, fo),
    ensures
        qn.contains(t) || source_scanned(t, s1, opf_dir, ex, fo),
{
    if source_scanned(t, s0, opf_dir, ex, fo) {
        lemma_source_scanned_grows(t, s0, s1, opf_dir, ex, fo);
    } else if t != s {
        lemma_contains_drop_last(qv, t);
        lemma_grows_contains(qv.drop_last(), qn, t);
    }
}

/// The original paths of chapters.
pub open spec fn chapter_paths(cs: Seq<ExtendedChapterInfo>) -> Seq<Seq<char>> {
    cs.map_values(|c: ExtendedChapterInfo| c.original_path@)
}

/// The original paths of resources.
pub open spec fn resource_paths(rs: Seq<ResourceFile>) -> Seq<Seq<char>> {
    rs.map_values(|r: ResourceFile| r.original_path@)
}

/// `s` is a path the discovery reads: a chapter's, a style's, or that of a
/// text file found before position `k`.
pub open spec fn tracked_source(s: Seq<char>, cps: Seq<Seq<char>>, sps: Seq<Seq<char>>, found: Seq<ResourceView>, k: int) -> bool {
    cps.contains(s) || sps.contains(s) || exists|j: int|
        0 <= j < k && #[trigger] found[j].original_path == s && spec_is_text_like_file(s)
}

/// The `k`-th found file is the target of a reference in a file the
/// discovery reads, reached before it.
pub open spec fn discovered(
    found: Seq<ResourceView>,
    k: int,
    cps: Seq<Seq<char>>,
    sps: Seq<Seq<char>>,
    entries: Seq<ZipEntry>,
    opf_dir: Seq<char>,
    ex: Seq<(Seq<char>, Seq<char>)>,
    fo: Seq<(Seq<char>, Seq<char>)>,
) -> bool {
    exists|s: Seq<char>| #[trigger] referenced_from(s, found[k].original_path, entries, opf_dir, ex, fo)
        && tracked_source(s, cps, sps, found, k)
}

/// A tracked source stays tracked as more files are found.
proof fn lemma_tracked_extend(s: Seq<char>, cps: Seq<Seq<char>>, sps: Seq<Seq<char>>, f: Seq<ResourceView>, n: int, f2: Seq<ResourceView>, m: int)
    requires
        tracked_source(s, cps, sps, f, n),
        0 <= n <= f.len(),
        n <= m,
        f.len() <= f2.len(),
        f2.take(f.len() as int) == f,
    ensures
        tracked_source(s, cps, sps, f2, m),
{
    if !cps.contains(s) && !sps.contains(s) {
        let j = choose|j: int| 0 <= j < n && #[trigger] f[j].original_path == s && spec_is_text_like_file(s);
        assert(f2.take(f.len() as int)[j] == f2[j]);
        assert(f2[j].original_path == s);
    }
}

/// After one source is read, the found files are still explained by the
/// sources read.
proof fn lemma_justify_found(
    cps: Seq<Seq<char>>,
    sps: Seq<Seq<char>>,
    entries: Seq<ZipEntry>,
    opf_dir: Seq<char>,
    ex: Seq<(Seq<char>, Seq<char>)>,
    fo: Seq<(Seq<char>, Seq<char>)>,
    vb: Seq<ResourceView>,
    vn: Seq<ResourceView>,
    source: Seq<char>,
)
    requires
        vb.len() <= vn.len(),
        vn.take(vb.len() as int) == vb,
        forall|k: int| 0 <= k < vb.len() ==> #[trigger] discovered(vb, k, cps, sps, entries, opf_dir, ex, fo),
        tracked_source(source, cps, sps, vb, vb.len() as int),
        forall|k: int| vb.len() <= k < vn.len() ==> #[trigger] referenced_from(source, vn[k].original_path, entries, opf_dir, ex, fo),
    ensures
        forall|k: int| 0 <= k < vn.len() ==> #[trigger] discovered(vn, k, cps, sps, entries, opf_dir, ex, fo),
{
    assert forall|k: int| 0 <= k < vn.len() implies #[trigger] discovered(vn, k, cps, sps, entries, opf_dir, ex, fo) by {
        if k < vb.len() {
            assert(discovered(vb, k, cps, sps, entries, opf_dir, ex, fo));
            let s = choose|s: Seq<char>| #[trigger] referenced_from(s, vb[k].original_path, entries, opf_dir, ex, fo)
                && tracked_source(s, cps, sps, vb, k);
            lemma_tracked_extend(s, cps, sps, vb, k, vn, k);
            assert(vn.take(vb.len() as int)[k] == vn[k]);
            assert(referenced_from(s, vn[k].original_path, entries, opf_dir, ex, fo));
        } else {
            assert(referenced_from(source, vn[k].original_path, entries, opf_dir, ex, fo));
            lemma_tracked_extend(source, cps, sps, vb, vb.len() as int, vn, k);
        }
    }
}

/// After one source is read, the queue still holds only sources to read.
proof fn lemma_justify_queue(
    cps: Seq<Seq<char>>,
    sps: Seq<Seq<char>>,
    qv: Seq<Seq<char>>,
    qn: Seq<Seq<char>>,
    fb: Seq<ResourceFile>,
    fnew: Seq<ResourceFile>,
)
    requires
        qv.len() > 0,
        grows(qv.drop_last(), qn),
        fb.len() <= fnew.len(),
        fnew.take(fb.len() as int) == fb,
        forall|p: int| 0 <= p < qv.len() ==> tracked_source(#[trigger] qv[p], cps, sps, resource_views(fb), fb.len() as int),
        queued_found(qv.len() - 1, qn, fb.len() as int, fnew),
    ensures
        forall|p: int| 0 <= p < qn.len() ==> tracked_source(#[trigger] qn[p], cps, sps, resource_views(fnew), fnew.len() as int),
{
    let vb = resource_views(fb);
    let vn = resource_views(fnew);
    assert(vn.take(vb.len() as int) =~= vb);
    let qd = qv.drop_last();
    assert forall|p: int| 0 <= p < qn.len() implies tracked_source(#[trigger] qn[p], cps, sps, vn, fnew.len() as int) by {
        if p < qd.len() {
            assert(qn.take(qd.len() as int)[p] == qn[p]);
            assert(qd[p] == qv[p]);
            assert(tracked_source(qv[p], cps, sps, vb, fb.len() as int));
            lemma_tracked_extend(qv[p], cps, sps, vb, fb.len() as int, vn, fnew.len() as int);
        } else {
            assert(is_found_text(fnew, fb.len() as int, qn[p]));
            let k = choose|k: int| fb.len() <= k < fnew.len() && #[trigger] fnew[k].original_path@ == qn[p] && spec_is_text_like_file(qn[p]);
            assert(vn[k].original_path == qn[p]);
        }
    }
}

/// What the discovery of unlisted files makes of the resources `before`,
/// for chapters with case-folded paths and ids starting `keys0` and `ids0`
/// and original paths `cps`, in an archive whose package document is in
/// `dir`: the files `found`, each an archive entry not yet known, with an
/// inferred id and the kind its extension gives, reached by following
/// references from the chapters and styles and from the text files found;
/// every reference of a file so read names a known file; and each kind
/// holds its resources and the files found of that kind, ordered by
/// original path.
pub open spec fn discovered_into(
    entries: Seq<ZipEntry>,
    dir: Seq<char>,
    keys0: Seq<Seq<char>>,
    ids0: Seq<Seq<char>>,
    cps: Seq<Seq<char>>,
    before: ResourceCollection,
    after: ResourceCollection,
) -> bool {
    exists|found: Seq<ResourceView>| #![trigger found_of_kind(found, ResourceType::Style)] {
        let known = keys0 + found.map_values(|g: ResourceView| spec_casefold(g.original_path));
        let ex = index_of(entries, entries.len() as nat, false);
        let fo = index_of(entries, entries.len() as nat, true);
        &&& forall|k: int| 0 <= k < found.len() ==> #[trigger] well_found(found, k, entries, keys0, ids0)
        &&& forall|k: int| 0 <= k < found.len() ==> #[trigger] discovered(found, k, cps, resource_paths(before.styles@), entries, dir, ex, fo)
        &&& forall|i: int| 0 <= i < cps.len() ==> #[trigger] source_closed(cps[i], entries, dir, ex, fo, known)
        &&& forall|i: int| 0 <= i < before.styles@.len() ==> #[trigger] source_closed(before.styles@[i].original_path@, entries, dir, ex, fo, known)
        &&& forall|k: int| 0 <= k < found.len() && spec_is_text_like_file(found[k].original_path) ==> #[trigger] source_closed(found[k].original_path, entries, dir, ex, fo, known)
        &&& resource_views(after.styles@) == stable_sort(resource_views(before.styles@) + found_of_kind(found, ResourceType::Style))
        &&& resource_views(after.images@) == stable_sort(resource_views(before.images@) + found_of_kind(found, ResourceType::Image))
        &&& resource_views(after.fonts@) == stable_sort(resource_views(before.fonts@) + found_of_kind(found, ResourceType::Font))
        &&& resource_views(after.misc@) == stable_sort(resource_views(before.misc@) + found_of_kind(found, ResourceType::Misc))
    }
}

/// Scans the chapters and styles (styles first, each list in order) and
/// every text file found on the way for `src`, `href`, `xlink:href` and
/// CSS `url(...)` references; each reference that is not external, resolved
/// against its file's directory (else taken as it is), that names an archive
/// entry not yet known becomes a resource of the kind its extension gives,
/// with an inferred id. The resource lists end ordered by original path.
#[verifier::rlimit(50)]
pub fn discover_unmanifested_resources(
    entries: &Vec<ZipEntry>,
    opf_path: &str,
    chapters: &[ExtendedChapterInfo],
    resources: &mut ResourceCollection,
) -> (r: Result<(), RefactorError>)
    ensures
        r is Ok,
        discovered_into(entries@, spec_parent(opf_path@), known_keys(chapters@, *old(resources)),
            known_ids(chapters@, *old(resources)), chapter_paths(chapters@), *old(resources), *final(resources)),
{
    let ghost keys0 = known_keys(chapters@, *resources);
    let ghost ids0 = known_ids(chapters@, *resources);
    let ghost styles0 = resources.styles@;
    let ghost cps = chapter_paths(chapters@);
    let ghost sps = resource_paths(styles0);
    let index = collect_zip_entries(entries);
    let opf_dir = parent_chars(chars_of(opf_path).as_slice());
    let ghost ex = pairs_of(index.exact@);
    let ghost fo = pairs_of(index.folded@);
    let mut known: Vec<String> = Vec::new();
    let mut used_ids: Vec<String> = Vec::new();
    push_chapter_keys(&mut known, &mut used_ids, chapters);
    push_resource_keys(&mut known, &mut used_ids, &resources.styles);
    push_resource_keys(&mut known, &mut used_ids, &resources.images);
    push_resource_keys(&mut known, &mut used_ids, &resources.fonts);
    push_resource_keys(&mut known, &mut used_ids, &resources.misc);
    assert(string_views(known@) =~= keys0);
    assert(string_views(used_ids@) =~= ids0);
    let mut queue: Vec<String> = Vec::new();
    let mut c = chapters.len();
    while c > 0
        invariant
            c <= chapters@.len(),
            forall|j: int| c <= j < chapters@.len() ==> string_views(queue@).contains(#[trigger] chapters@[j].original_path@),
            cps == chapter_paths(chapters@),
            forall|p: int| 0 <= p < queue@.len() ==> cps.contains(#[trigger] string_views(queue@)[p]),
        decreases c,
    {
        c -= 1;
        let ghost qb = string_views(queue@);
        queue.push(chapters[c].original_path.clone());
        proof {
            assert(string_views(queue@) =~= qb.push(chapters@[c as int].original_path@));
            assert(string_views(queue@)[qb.len() as int] == chapters@[c as int].original_path@);
            assert forall|j: int| c <= j < chapters@.len() implies string_views(queue@).contains(#[trigger] chapters@[j].original_path@) by {
                if j > c {
                    lemma_push_contains(qb, chapters@[c as int].original_path@, chapters@[j].original_path@);
                }
            }
            assert(cps[c as int] == chapters@[c as int].original_path@);
            assert forall|p: int| 0 <= p < queue@.len() implies cps.contains(#[trigger] string_views(queue@)[p]) by {
                if p < qb.len() {
                    assert(string_views(queue@)[p] == qb[p]);
                }
            }
        }
    }
    let mut st = resources.styles.len();
    while st > 0
        invariant
            st <= resources.styles@.len(),
            styles0 == resources.styles@,
            forall|j: int| 0 <= j < chapters@.len() ==> string_views(queue@).contains(#[trigger] chapters@[j].original_path@),
            forall|j: int| st <= j < styles0.len() ==> string_views(queue@).contains(#[trigger] styles0[j].original_path@),
            sps == resource_paths(styles0),
            forall|p: int| 0 <= p < queue@.len() ==> cps.contains(#[trigger] string_views(queue@)[p]) || sps.contains(string_views(queue@)[p]),
        decreases st,
    {
        st -= 1;
        let ghost qb = string_views(queue@);
        queue.push(resources.styles[st].original_path.clone());
        proof {
            let x = styles0[st as int].original_path@;
            assert(string_views(queue@) =~= qb.push(x));
            assert(string_views(queue@)[qb.len() as int] == x);
            assert forall|j: int| 0 <= j < chapters@.len() implies string_views(queue@).contains(#[trigger] chapters@[j].original_path@) by {
                lemma_push_contains(qb, x, chapters@[j].original_path@);
            }
            assert forall|j: int| st <= j < styles0.len() implies string_views(queue@).contains(#[trigger] styles0[j].original_path@) by {
                if j > st {
                    lemma_push_contains(qb, x, styles0[j].original_path@);
                }
            }
            assert(sps[st as int] == x);
            assert forall|p: int| 0 <= p < queue@.len() implies cps.contains(#[trigger] string_views(queue@)[p]) || sps.contains(string_views(queue@)[p]) by {
                if p < qb.len() {
                    assert(string_views(queue@)[p] == qb[p]);
                }
            }
        }
    }
    let mut scanned: Vec<String> = Vec::new();
    let mut found: Vec<ResourceFile> = Vec::new();
    let ghost mut fkeys: Set<Seq<char>> = Set::empty();
    let ghost mut sact: Seq<Seq<char>> = Seq::empty();
    let ghost ekeys = entry_keys(entries@);
    proof {
        entries@.map_values(|e: ZipEntry| spec_casefold(entry_path(e))).lemma_cardinality_of_set();
        assert(resource_views(found@) =~= Seq::<ResourceView>::empty());
        assert(resource_views(found@).take(0) =~= Seq::<ResourceView>::empty());
        assert(keys0 + resource_views(found@).map_values(|g: ResourceView| spec_casefold(g.original_path)) =~= keys0);
        assert(ids0 + resource_views(found@).map_values(|g: ResourceView| g.id) =~= ids0);
        assert(string_views(scanned@) =~= sact.map_values(|a: Seq<char>| spec_casefold(a)));
        assert forall|p: int| 0 <= p < queue@.len() implies tracked_source(#[trigger] string_views(queue@)[p], cps, sps, resource_views(found@), found@.len() as int) by {
            assert(cps.contains(string_views(queue@)[p]) || sps.contains(string_views(queue@)[p]));
        }
    }
    while queue.len() > 0
        invariant
            values_are_entries(pairs_of(index.exact@), entries@),
            values_are_entries(pairs_of(index.folded@), entries@),
            ex == pairs_of(index.exact@),
            fo == pairs_of(index.folded@),
            ekeys == entry_keys(entries@),
            ekeys.finite(),
            ekeys.len() <= entries@.len(),
            disc_inv(entries@, keys0, ids0, string_views(known@), string_views(used_ids@), resource_views(found@), fkeys),
            found@.len() <= entries@.len(),
            string_views(scanned@) == sact.map_values(|a: Seq<char>| spec_casefold(a)),
            forall|i: int| 0 <= i < sact.len() ==> #[trigger] scanned_file_ok(sact[i], entries@, opf_dir@, ex, fo, string_views(known@)),
            forall|j: int| 0 <= j < chapters@.len() ==> string_views(queue@).contains(#[trigger] chapters@[j].original_path@)
                || source_scanned(chapters@[j].original_path@, sact, opf_dir@, ex, fo),
            forall|j: int| 0 <= j < styles0.len() ==> string_views(queue@).contains(#[trigger] styles0[j].original_path@)
                || source_scanned(styles0[j].original_path@, sact, opf_dir@, ex, fo),
            forall|k: int| 0 <= k < found@.len() && spec_is_text_like_file(#[trigger] found@[k].original_path@)
                ==> string_views(queue@).contains(found@[k].original_path@) || source_scanned(found@[k].original_path@, sact, opf_dir@, ex, fo),
            forall|k: int| 0 <= k < found@.len() ==> #[trigger] discovered(resource_views(found@), k, cps, sps, entries@, opf_dir@, ex, fo),
            forall|p: int| 0 <= p < queue@.len() ==> tracked_source(#[trigger] string_views(queue@)[p], cps, sps, resource_views(found@), found@.len() as int),
        decreases entries@.len() - found@.len(), queue@.len(),
    {
        let ghost qv = string_views(queue@);
        let ghost s0 = sact;
        let ghost fb = found@;
        let source = queue.pop().unwrap();
        proof {
            assert(string_views(queue@) =~= qv.drop_last());
            assert(source@ == qv.last());
        }
        let ghost qd = string_views(queue@);
        let g = scan_source(
            chars_of(source.as_str()).as_slice(),
            opf_dir.as_slice(),
            &index,
            entries,
            &mut known,
            &mut used_ids,
            &mut found,
            &mut queue,
            &mut scanned,
            Ghost(keys0),
            Ghost(ids0),
            Ghost(fkeys),
            Ghost(sact),
        );
        proof {
            fkeys = g.0@;
            sact = g.1@;
            assert(resource_views(found@).take(fb.len() as int) =~= resource_views(fb));
            assert(tracked_source(qv[qv.len() - 1], cps, sps, resource_views(fb), fb.len() as int));
            lemma_justify_found(cps, sps, entries@, opf_dir@, ex, fo, resource_views(fb), resource_views(found@), source@);
            lemma_justify_queue(cps, sps, qv, string_views(queue@), fb, found@);
            vstd::set_lib::lemma_len_subset(fkeys, ekeys);
            let qn = string_views(queue@);
            assert forall|j: int| 0 <= j < chapters@.len() implies string_views(queue@).contains(#[trigger] chapters@[j].original_path@)
                || source_scanned(chapters@[j].original_path@, sact, opf_dir@, ex, fo) by {
                lemma_tracked_step(chapters@[j].original_path@, qv, qn, source@, s0, sact, opf_dir@, ex, fo);
            }
            assert forall|j: int| 0 <= j < styles0.len() implies string_views(queue@).contains(#[trigger] styles0[j].original_path@)
                || source_scanned(styles0[j].original_path@, sact, opf_dir@, ex, fo) by {
                lemma_tracked_step(styles0[j].original_path@, qv, qn, source@, s0, sact, opf_dir@, ex, fo);
            }
            assert forall|k: int| 0 <= k < found@.len() && spec_is_text_like_file(#[trigger] found@[k].original_path@)
                implies string_views(queue@).contains(found@[k].original_path@) || source_scanned(found@[k].original_path@, sact, opf_dir@, ex, fo) by {
                if k < fb.len() {
                    assert(found@.take(fb.len() as int)[k] == found@[k]);
                    assert(fb[k] == found@[k]);
                    lemma_tracked_step(found@[k].original_path@, qv, qn, source@, s0, sact, opf_dir@, ex, fo);
                }
            }
        }
    }
    proof {
        let kn = string_views(known@);
        assert forall|j: int| 0 <= j < cps.len() implies #[trigger] source_closed(cps[j], entries@, opf_dir@, ex, fo, kn) by {
            assert(cps[j] == chapters@[j].original_path@);
            assert(!string_views(queue@).contains(chapters@[j].original_path@));
            lemma_source_closed(chapters@[j].original_path@, sact, entries@, opf_dir@, ex, fo, kn);
        }
        assert forall|j: int| 0 <= j < styles0.len() implies #[trigger] source_closed(styles0[j].original_path@, entries@, opf_dir@, ex, fo, kn) by {
            assert(!string_views(queue@).contains(styles0[j].original_path@));
            lemma_source_closed(styles0[j].original_path@, sact, entries@, opf_dir@, ex, fo, kn);
        }
        assert forall|k: int| 0 <= k < found@.len() && spec_is_text_like_file(#[trigger] found@[k].original_path@)
            implies source_closed(found@[k].original_path@, entries@, opf_dir@, ex, fo, kn) by {
            assert(!string_views(queue@).contains(found@[k].original_path@));
            lemma_source_closed(found@[k].original_path@, sact, entries@, opf_dir@, ex, fo, kn);
        }
    }
    let ghost fv = resource_views(found@);
    let mut styles = copy_resources(&resources.styles);
    let mut images = copy_resources(&resources.images);
    let mut fonts = copy_resources(&resources.fonts);
    let mut misc = copy_resources(&resources.misc);
    let ghost s0 = resource_views(styles@);
    let ghost i0 = resource_views(images@);
    let ghost f0 = resource_views(fonts@);
    let ghost m0 = resource_views(misc@);
    let mut k: usize = 0;
    while k < found.len()
        invariant
            k <= found@.len(),
            fv == resource_views(found@),
            resource_views(styles@) == s0 + found_of_kind(fv.take(k as int), ResourceType::Style),
            resource_views(images@) == i0 + found_of_kind(fv.take(k as int), ResourceType::Image),
            resource_views(fonts@) == f0 + found_of_kind(fv.take(k as int), ResourceType::Font),
            resource_views(misc@) == m0 + found_of_kind(fv.take(k as int), ResourceType::Misc),
        decreases found@.len() - k,
    {
        let f = copy_resource(&found[k]);
        proof {
            let t = fv.take(k + 1);
            assert(t.drop_last() =~= fv.take(k as int));
            assert(t.last() == resource_view(f));
        }
        proof {
            let t = fv.take(k as int);
            lemma_found_of_kind_push(t, resource_view(f), ResourceType::Style);
            lemma_found_of_kind_push(t, resource_view(f), ResourceType::Image);
            lemma_found_of_kind_push(t, resource_view(f), ResourceType::Font);
            lemma_found_of_kind_push(t, resource_view(f), ResourceType::Misc);
            assert(fv.take(k + 1) =~= t.push(resource_view(f)));
        }
        let ghost sb = resource_views(styles@);
        let ghost ib = resource_views(images@);
        let ghost fb = resource_views(fonts@);
        let ghost mb = resource_views(misc@);
        match classify_resource_type(f.media_type.as_str()) {
            ResourceType::Style => {
                styles.push(f);
                assert(resource_views(styles@) =~= sb.push(resource_view(f)));
            },
            ResourceType::Image => {
                images.push(f);
                assert(resource_views(images@) =~= ib.push(resource_view(f)));
            },
            ResourceType::Font => {
                fonts.push(f);
                assert(resource_views(fonts@) =~= fb.push(resource_view(f)));
            },
            ResourceType::Misc => {
                misc.push(f);
                assert(resource_views(misc@) =~= mb.push(resource_view(f)));
            },
        }
        k += 1;
    }
    proof {
        assert(fv.take(found@.len() as int) =~= fv);
    }
    *resources = ResourceCollection {
        styles: sort_resource_files(styles),
        images: sort_resource_files(images),
        fonts: sort_resource_files(fonts),
        misc: sort_resource_files(misc),
    };
    assert(forall|k: int| 0 <= k < fv.len() ==> #[trigger] well_found(fv, k, entries@, keys0, ids0));
    Ok(())
}


/// A copy of a resource.
fn copy_resource(r: &ResourceFile) -> (c: ResourceFile)
    ensures
        resource_view(c) == resource_view(*r),
{
    ResourceFile {
        id: r.id.clone(),
        original_path: r.original_path.clone(),
        standard_path: r.standard_path.clone(),
        media_type: r.media_type.clone(),
    }
}

/// Copies of resources.
fn copy_resources(v: &Vec<ResourceFile>) -> (c: Vec<ResourceFile>)
    ensures
        resource_views(c@) == resource_views(v@),
{
    let mut out: Vec<ResourceFile> = Vec::new();
    let mut i: usize = 0;
    while i < v.len()
        invariant
            i <= v@.len(),
            resource_views(out@) == resource_views(v@.take(i as int)),
        decreases v@.len() - i,
    {
        let ghost ob = out@;
        out.push(copy_resource(&v[i]));
        assert(resource_views(out@) =~= resource_views(ob).push(resource_view(v@[i as int])));
        assert(resource_views(v@.take(i + 1)) =~= resource_views(v@.take(i as int)).push(resource_view(v@[i as int])));
        i += 1;
    }
    assert(v@.take(v@.len() as int) =~= v@);
    out
}

/// Appends the case-folded original paths and the ids of chapters.
fn push_chapter_keys(keys: &mut Vec<String>, ids: &mut Vec<String>, cs: &[ExtendedChapterInfo])
    ensures
        string_views(final(keys)@) == string_views(old(keys)@) + cs@.map_values(|c: ExtendedChapterInfo| spec_casefold(c.original_path@)),
        string_views(final(ids)@) == string_views(old(ids)@) + cs@.map_values(|c: ExtendedChapterInfo| c.id@),
{
    let ghost k0 = string_views(keys@);
    let ghost i0 = string_views(ids@);
    let mut i: usize = 0;
    while i < cs.len()
        invariant
            i <= cs@.len(),
            string_views(keys@) == k0 + cs@.take(i as int).map_values(|c: ExtendedChapterInfo| spec_casefold(c.original_path@)),
            string_views(ids@) == i0 + cs@.take(i as int).map_values(|c: ExtendedChapterInfo| c.id@),
        decreases cs@.len() - i,
    {
        let ghost kb = string_views(keys@);
        let ghost ib = string_views(ids@);
        let key = casefold_chars(chars_of(cs[i].original_path.as_str()).as_slice());
        keys.push(string_of(key.as_slice()));
        ids.push(cs[i].id.clone());
        assert(string_views(keys@) =~= kb.push(key@));
        assert(string_views(ids@) =~= ib.push(cs@[i as int].id@));
        assert(cs@.take(i + 1).map_values(|c: ExtendedChapterInfo| spec_casefold(c.original_path@)) =~= cs@.take(i as int).map_values(
            |c: ExtendedChapterInfo| spec_casefold(c.original_path@),
        ).push(key@));
        assert(cs@.take(i + 1).map_values(|c: ExtendedChapterInfo| c.id@) =~= cs@.take(i as int).map_values(
            |c: ExtendedChapterInfo| c.id@,
        ).push(cs@[i as int].id@));
        i += 1;
    }
    assert(cs@.take(cs@.len() as int) =~= cs@);
}

/// Appends the case-folded original paths and the ids of resources.
fn push_resource_keys(keys: &mut Vec<String>, ids: &mut Vec<String>, rs: &Vec<ResourceFile>)
    ensures
        string_views(final(keys)@) == string_views(old(keys)@) + rs@.map_values(|r: ResourceFile| spec_casefold(r.original_path@)),
        string_views(final(ids)@) == string_views(old(ids)@) + rs@.map_values(|r: ResourceFile| r.id@),
{
    let ghost k0 = string_views(keys@);
    let ghost i0 = string_views(ids@);
    let mut i: usize = 0;
    while i < rs.len()
        invariant
            i <= rs@.len(),
            string_views(keys@) == k0 + rs@.take(i as int).map_values(|r: ResourceFile| spec_casefold(r.original_path@)),
            string_views(ids@) == i0 + rs@.take(i as int).map_values(|r: ResourceFile| r.id@),
        decreases rs@.len() - i,
    {
        let ghost kb = string_views(keys@);
        let ghost ib = string_views(ids@);
        let key = casefold_chars(chars_of(rs[i].original_path.as_str()).as_slice());
        keys.push(string_of(key.as_slice()));
        ids.push(rs[i].id.clone());
        assert(string_views(keys@) =~= kb.push(key@));
        assert(string_views(ids@) =~= ib.push(rs@[i as int].id@));
        assert(rs@.take(i + 1).map_values(|r: ResourceFile| spec_casefold(r.original_path@)) =~= rs@.take(i as int).map_values(
            |r: ResourceFile| spec_casefold(r.original_path@),
        ).push(key@));
        assert(rs@.take(i + 1).map_values(|r: ResourceFile| r.id@) =~= rs@.take(i as int).map_values(
            |r: ResourceFile| r.id@,
        ).push(rs@[i as int].id@));
        i += 1;
    }
    assert(rs@.take(rs@.len() as int) =~= rs@);
}


// ---------------------------------------------------------------------------
// The whole analysis
// ---------------------------------------------------------------------------

/// Analyzes a parsed package for standardization: its chapters, its
/// resources by kind (with the files its content references outside the
/// manifest), its special files, unique standard paths for all of them
/// (ignoring case), and the map between original and standard paths.
pub fn analyze_epub_structure(parsed: &ParsedEpub, opf_path: &str, entries: &Vec<ZipEntry>) -> (r: Result<EpubStructureAnalysis, RefactorError>)
    ensures
        match spec_identify_chapters(*parsed) {
            Err(m) => r matches Err(e) && e matches RefactorError::InvalidStructure(s) && s@ == m,
            Ok(cs) => r matches Ok(a) && {
                &&& a.chapters@.len() == cs.len()
                &&& forall|k: int| 0 <= k < cs.len() ==> {
                    &&& (#[trigger] a.chapters@[k]).id@ == cs[k].id
                    &&& a.chapters@[k].original_path@ == cs[k].original_path
                    &&& opt_seq(a.chapters@[k].title) == cs[k].title
                    &&& a.chapters@[k].order == cs[k].order
                    &&& a.chapters@[k].media_type@ == cs[k].media_type
                }
                &&& exists|c0: Seq<ExtendedChapterInfo>, r0: ResourceCollection, r1: ResourceCollection|
                    #![trigger discovered_into(entries@, spec_parent(opf_path@), known_keys(c0, r0), known_ids(c0, r0), chapter_paths(c0), r0, r1)]
                    {
                        &&& chapter_info_views(c0) == cs
                        &&& categorized(parsed.manifest.items@, cs.map_values(|c: ChapterInfoView| c.id), r0)
                        &&& discovered_into(entries@, spec_parent(opf_path@), known_keys(c0, r0), known_ids(c0, r0), chapter_paths(c0), r0, r1)
                        &&& same_but_paths_r(a.resources.styles@, r1.styles@)
                        &&& same_but_paths_r(a.resources.images@, r1.images@)
                        &&& same_but_paths_r(a.resources.fonts@, r1.fonts@)
                        &&& same_but_paths_r(a.resources.misc@, r1.misc@)
                        &&& allocated_all(all_standard_paths(c0, r1), all_standard_paths(a.chapters@, a.resources))
                    }
                &&& is_file_map(a.chapters@, a.resources, a.special_files, a.file_map)
                &&& {
                    let items = parsed.manifest.items@;
                    let n = items.len() as int;
                    let nav = last_href_with_role(items, 1, n);
                    &&& opt_seq(a.special_files.cover) == last_href_with_role(items, 0, n)
                    &&& opt_seq(a.special_files.nav) == if nav is Some { nav } else { first_nav_named(items, 0) }
                    &&& opt_seq(a.special_files.ncx) == last_href_with_role(items, 2, n)
                }
            },
        },
{
    let mut chapters = match identify_chapters(parsed) {
        Ok(c) => c,
        Err(e) => return Err(e),
    };
    let ghost cs = chapter_info_views(chapters@);
    let mut resources = match categorize_resources(parsed, chapters.as_slice()) {
        Ok(r) => r,
        Err(e) => return Err(e),
    };
    let ghost r0 = resources;
    match discover_unmanifested_resources(entries, opf_path, chapters.as_slice(), &mut resources) {
        Ok(()) => {},
        Err(e) => return Err(e),
    }
    let special_files = match identify_special_files(parsed) {
        Ok(s) => s,
        Err(e) => return Err(e),
    };
    let ghost r1 = resources;
    let ghost before = all_standard_paths(chapters@, resources);
    let ghost c0 = chapters@;
    allocate_unique_standard_paths(&mut chapters, &mut resources);
    proof {
        assert(allocated_all(before, all_standard_paths(chapters@, resources)));
        assert(cs.len() == c0.len());
        assert forall|k: int| 0 <= k < cs.len() implies {
            &&& (#[trigger] chapters@[k]).id@ == cs[k].id
            &&& chapters@[k].original_path@ == cs[k].original_path
            &&& opt_seq(chapters@[k].title) == cs[k].title
            &&& chapters@[k].order == cs[k].order
            &&& chapters@[k].media_type@ == cs[k].media_type
        } by {
            assert(cs[k] == chapter_info_view(c0[k]));
        }
    }
    let file_map = build_file_map(chapters.as_slice(), &resources, &special_files);
    let a = EpubStructureAnalysis { chapters, resources, special_files, file_map };
    proof {
        assert(discovered_into(entries@, spec_parent(opf_path@), known_keys(c0, r0), known_ids(c0, r0), chapter_paths(c0), r0, r1));
    }
    assert(allocated_all(before, all_standard_paths(a.chapters@, a.resources)));
    Ok(a)
}

} // verus!
