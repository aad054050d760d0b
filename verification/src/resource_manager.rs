//! Rewriting the references inside moved files so that they point at the
//! standard paths of their targets, and deciding which files are copied
//! and rewritten during standardization.

use vstd::prelude::*;
use crate::analyzer::{pair_lookup, pair_views};
use crate::epub_path::{
    casefold_chars, is_text_like_file_chars, normalize_chars, oebps, spec_is_text_like_file, path_part, relative_path_chars, resolve_relative_chars,
    should_skip_reference_chars, spec_casefold, spec_normalize, spec_parent, spec_relative_path, spec_resolve_relative,
    spec_should_skip_reference, starts_with_oebps, suffix_part, suffix_pos_exec, trim_leading_slashes,
    trim_leading_slashes_chars,
};
use crate::models::{EpubStructureAnalysis, ExtendedChapterInfo, FileMap, ResourceFile};
use crate::pattern::{pieces_view, pieces_well_formed, reassembled, regex_compiles, regex_split, split_by_pattern, MatchPiece};
use crate::text::{chars_eq, chars_of, extend_chars, extend_str, slice_chars, starts_with, string_of, trim, trim_chars};

verus! {

// ---------------------------------------------------------------------------
// Finding the standard path of a referenced file
// ---------------------------------------------------------------------------

/// The standard path of the first pair whose case-folded original path is `key`.
pub open spec fn casefold_lookup(m: Seq<(Seq<char>, Seq<char>)>, key: Seq<char>, i: int) -> Option<Seq<char>>
    decreases m.len() - i,
{
    if i < 0 || i >= m.len() {
        None
    } else if spec_casefold(m[i].0) == key {
        Some(m[i].1)
    } else {
        casefold_lookup(m, key, i + 1)
    }
}

/// The standard path of a referenced file: by its path as written, by its
/// normalized path, by that without or with `OEBPS/`, by its case-folded
/// path; a normalized path under `OEBPS/` is taken as already standard.
pub open spec fn spec_find_standard_path(path: Seq<char>, m: Seq<(Seq<char>, Seq<char>)>) -> Option<Seq<char>> {
    let n = spec_normalize(path);
    if pair_lookup(m, path, 0) is Some {
        pair_lookup(m, path, 0)
    } else if pair_lookup(m, n, 0) is Some {
        pair_lookup(m, n, 0)
    } else if starts_with(n, oebps()) && pair_lookup(m, n.skip(6), 0) is Some {
        pair_lookup(m, n.skip(6), 0)
    } else if pair_lookup(m, oebps() + trim_leading_slashes(n), 0) is Some {
        pair_lookup(m, oebps() + trim_leading_slashes(n), 0)
    } else if casefold_lookup(m, spec_casefold(n), 0) is Some {
        casefold_lookup(m, spec_casefold(n), 0)
    } else if starts_with(n, oebps()) {
        Some(n)
    } else {
        None
    }
}

/// The value for key `k` in a pair list.
pub fn pairs_get(m: &Vec<(String, String)>, k: &[char]) -> (r: Option<Vec<char>>)
    ensures
        match r {
            Some(v) => pair_lookup(pair_views(m@), k@, 0) == Some(v@),
            None => pair_lookup(pair_views(m@), k@, 0) is None,
        },
{
    let mut i: usize = 0;
    while i < m.len()
        invariant
            i <= m@.len(),
            pair_lookup(pair_views(m@), k@, 0) == pair_lookup(pair_views(m@), k@, i as int),
        decreases m@.len() - i,
    {
        if chars_eq(chars_of(m[i].0.as_str()).as_slice(), k) {
            return Some(chars_of(m[i].1.as_str()));
        }
        i += 1;
    }
    None
}

/// The value of the first pair whose case-folded key is `key`.
fn pairs_get_casefold(m: &Vec<(String, String)>, key: &[char]) -> (r: Option<Vec<char>>)
    ensures
        match r {
            Some(v) => casefold_lookup(pair_views(m@), key@, 0) == Some(v@),
            None => casefold_lookup(pair_views(m@), key@, 0) is None,
        },
{
    let mut i: usize = 0;
    while i < m.len()
        invariant
            i <= m@.len(),
            casefold_lookup(pair_views(m@), key@, 0) == casefold_lookup(pair_views(m@), key@, i as int),
        decreases m@.len() - i,
    {
        let k = casefold_chars(chars_of(m[i].0.as_str()).as_slice());
        if chars_eq(k.as_slice(), key) {
            return Some(chars_of(m[i].1.as_str()));
        }
        i += 1;
    }
    None
}

/// The standard path of a referenced file.
pub fn find_standard_path_chars(path: &[char], file_map: &FileMap) -> (r: Option<Vec<char>>)
    ensures
        match r {
            Some(v) => spec_find_standard_path(path@, pair_views(file_map.original_to_standard@)) == Some(v@),
            None => spec_find_standard_path(path@, pair_views(file_map.original_to_standard@)) is None,
        },
{
    let m = &file_map.original_to_standard;
    let n = normalize_chars(path);
    match pairs_get(m, path) {
        Some(v) => return Some(v),
        None => {},
    }
    match pairs_get(m, n.as_slice()) {
        Some(v) => return Some(v),
        None => {},
    }
    if starts_with_oebps(n.as_slice()) {
        let rest = slice_chars(n.as_slice(), 6, n.len());
        assert(rest@ =~= n@.skip(6));
        match pairs_get(m, rest.as_slice()) {
            Some(v) => return Some(v),
            None => {},
        }
    }
    let mut with_prefix = chars_of("OEBPS/");
    proof {
        reveal_strlit("OEBPS/");
        assert(with_prefix@ =~= oebps());
    }
    extend_chars(&mut with_prefix, trim_leading_slashes_chars(n.as_slice()).as_slice());
    match pairs_get(m, with_prefix.as_slice()) {
        Some(v) => return Some(v),
        None => {},
    }
    match pairs_get_casefold(m, casefold_chars(n.as_slice()).as_slice()) {
        Some(v) => return Some(v),
        None => {},
    }
    if starts_with_oebps(n.as_slice()) {
        return Some(n);
    }
    None
}

/// The standard path of a referenced file.
pub fn find_standard_path(path: &str, file_map: &FileMap) -> (r: Option<String>)
    ensures
        match r {
            Some(v) => spec_find_standard_path(path@, pair_views(file_map.original_to_standard@)) == Some(v@),
            None => spec_find_standard_path(path@, pair_views(file_map.original_to_standard@)) is None,
        },
{
    match find_standard_path_chars(chars_of(path).as_slice(), file_map) {
        Some(v) => Some(string_of(v.as_slice())),
        None => None,
    }
}

/// A reference of a file moved from `original_dir` to `standard_dir`,
/// rewritten: resolved against the original directory (or taken as it is),
/// looked up, and written relative to the new directory with its query and
/// fragment; `None` for external or empty references and unknown files.
pub open spec fn spec_rewrite_single_reference(
    original_ref: Seq<char>,
    original_dir: Seq<char>,
    standard_dir: Seq<char>,
    m: Seq<(Seq<char>, Seq<char>)>,
) -> Option<Seq<char>> {
    let t = trim(original_ref);
    let p = path_part(t);
    if spec_should_skip_reference(t) || p.len() == 0 {
        None
    } else {
        let target = match spec_find_standard_path(spec_resolve_relative(original_dir, p), m) {
            Some(s) => Some(s),
            None => spec_find_standard_path(p, m),
        };
        match target {
            Some(s) => Some(spec_relative_path(standard_dir, s) + suffix_part(t)),
            None => None,
        }
    }
}

/// Rewrites one reference of a moved file.
pub fn rewrite_single_reference_chars(
    original_ref: &[char],
    original_dir: &[char],
    standard_dir: &[char],
    file_map: &FileMap,
) -> (r: Option<Vec<char>>)
    ensures
        match r {
            Some(v) => spec_rewrite_single_reference(original_ref@, original_dir@, standard_dir@, pair_views(file_map.original_to_standard@)) == Some(v@),
            None => spec_rewrite_single_reference(original_ref@, original_dir@, standard_dir@, pair_views(file_map.original_to_standard@)) is None,
        },
{
    let t = trim_chars(original_ref);
    if should_skip_reference_chars(t.as_slice()) {
        return None;
    }
    let pos = suffix_pos_exec(t.as_slice());
    let p = slice_chars(t.as_slice(), 0, pos);
    let suffix = slice_chars(t.as_slice(), pos, t.len());
    if p.len() == 0 {
        return None;
    }
    let full = resolve_relative_chars(original_dir, p.as_slice());
    let target = match find_standard_path_chars(full.as_slice(), file_map) {
        Some(s) => s,
        None => match find_standard_path_chars(p.as_slice(), file_map) {
            Some(s) => s,
            None => return None,
        },
    };
    let mut out = relative_path_chars(standard_dir, target.as_slice());
    extend_chars(&mut out, suffix.as_slice());
    Some(out)
}

/// Rewrites one reference of a moved file.
pub fn rewrite_single_reference(original_ref: &str, original_dir: &str, standard_dir: &str, file_map: &FileMap) -> (r: Option<String>)
    ensures
        match r {
            Some(v) => spec_rewrite_single_reference(original_ref@, original_dir@, standard_dir@, pair_views(file_map.original_to_standard@)) == Some(v@),
            None => spec_rewrite_single_reference(original_ref@, original_dir@, standard_dir@, pair_views(file_map.original_to_standard@)) is None,
        },
{
    match rewrite_single_reference_chars(chars_of(original_ref).as_slice(), chars_of(original_dir).as_slice(), chars_of(standard_dir).as_slice(), file_map) {
        Some(v) => Some(string_of(v.as_slice())),
        None => None,
    }
}


// ---------------------------------------------------------------------------
// Rewriting the references of a file
// ---------------------------------------------------------------------------

/// The text of capture group `i`, empty if it did not take part.
pub open spec fn group_text(g: Seq<Option<Seq<char>>>, i: int) -> Seq<char> {
    if 0 <= i < g.len() && g[i] is Some {
        g[i]->0
    } else {
        seq![]
    }
}

/// The replacement of one `attr="ref"` match: the attribute with the
/// rewritten reference, or with the reference as it was.
pub open spec fn attr_replacement(
    g: Seq<Option<Seq<char>>>,
    od: Seq<char>,
    sd: Seq<char>,
    m: Seq<(Seq<char>, Seq<char>)>,
) -> Seq<char> {
    let orig = group_text(g, 2);
    group_text(g, 1) + "=\""@ + match spec_rewrite_single_reference(orig, od, sd, m) {
        Some(r) => r,
        None => orig,
    } + "\""@
}

/// The replacement of one CSS `url(...)` match: the rewritten reference in
/// the quote the match used, or the match as it was.
pub open spec fn css_replacement(
    g: Seq<Option<Seq<char>>>,
    od: Seq<char>,
    sd: Seq<char>,
    m: Seq<(Seq<char>, Seq<char>)>,
) -> Seq<char> {
    let open = group_text(g, 1);
    let close = if 3 < g.len() && g[3] is Some {
        g[3]->0
    } else {
        open
    };
    let quote = if open.len() > 0 {
        open
    } else {
        close
    };
    match spec_rewrite_single_reference(group_text(g, 2), od, sd, m) {
        Some(r) => "url("@ + quote + r + quote + ")"@,
        None => group_text(g, 0),
    }
}

/// The matches, each after its gap, replaced by attribute (`css` false) or
/// `url(...)` (`css` true) replacements.
pub open spec fn replaced(
    ps: Seq<(Seq<char>, Seq<Option<Seq<char>>>)>,
    css: bool,
    od: Seq<char>,
    sd: Seq<char>,
    m: Seq<(Seq<char>, Seq<char>)>,
) -> Seq<char>
    decreases ps.len(),
{
    if ps.len() == 0 {
        seq![]
    } else {
        let p = ps.last();
        replaced(ps.drop_last(), css, od, sd, m) + p.0 + if css {
            css_replacement(p.1, od, sd, m)
        } else {
            attr_replacement(p.1, od, sd, m)
        }
    }
}

/// `(ps, tail)` is how `text` splits at the matches of `pattern` where the
/// pattern compiles, and no match at all where it does not.
pub open spec fn is_split(ps: Seq<(Seq<char>, Seq<Option<Seq<char>>>)>, tail: Seq<char>, pattern: Seq<char>, text: Seq<char>) -> bool {
    if regex_compiles(pattern) {
        (ps, tail) == regex_split(pattern, text)
    } else {
        ps.len() == 0 && tail == text
    }
}

/// The text of capture group `i`, empty if it did not take part.
fn group_text_exec(g: &Vec<Option<String>>, i: usize) -> (r: Vec<char>)
    ensures
        r@ == group_text(g@.map_values(|x: Option<String>| crate::pattern::opt_seq(x)), i as int),
{
    if i < g.len() {
        match &g[i] {
            Some(t) => chars_of(t.as_str()),
            None => Vec::new(),
        }
    } else {
        Vec::new()
    }
}

/// Appends the replacement of one CSS `url(...)` match.
#[verifier::rlimit(30)]
fn push_css_replacement(
    out: &mut Vec<char>,
    groups: &Vec<Option<String>>,
    original_dir: &[char],
    standard_dir: &[char],
    file_map: &FileMap,
)
    ensures
        final(out)@ == old(out)@ + css_replacement(
            groups@.map_values(|x: Option<String>| crate::pattern::opt_seq(x)),
            original_dir@,
            standard_dir@,
            pair_views(file_map.original_to_standard@),
        ),
{
    let ghost g = groups@.map_values(|x: Option<String>| crate::pattern::opt_seq(x));
    let ghost base = out@;
    let open = group_text_exec(groups, 1);
    let close = if 3 < groups.len() {
        match &groups[3] {
            Some(t) => chars_of(t.as_str()),
            None => slice_chars(open.as_slice(), 0, open.len()),
        }
    } else {
        slice_chars(open.as_slice(), 0, open.len())
    };
    assert(open@.subrange(0, open@.len() as int) =~= open@);
    let quote = if open.len() > 0 {
        slice_chars(open.as_slice(), 0, open.len())
    } else {
        close
    };
    let ghost q = if open@.len() > 0 { open@ } else { if 3 < g.len() && g[3] is Some { g[3]->0 } else { open@ } };
    assert(quote@ == q);
    let orig = group_text_exec(groups, 2);
    match rewrite_single_reference_chars(orig.as_slice(), original_dir, standard_dir, file_map) {
        Some(rw) => {
            extend_str(out, "url(");
            extend_chars(out, quote.as_slice());
            extend_chars(out, rw.as_slice());
            extend_chars(out, quote.as_slice());
            extend_str(out, ")");
            assert(out@ =~= base + ("url("@ + q + rw@ + q + ")"@));
        },
        None => {
            let whole = group_text_exec(groups, 0);
            extend_chars(out, whole.as_slice());
        },
    }
}

/// Appends the replacement of one `attr="ref"` match.
fn push_attr_replacement(
    out: &mut Vec<char>,
    groups: &Vec<Option<String>>,
    original_dir: &[char],
    standard_dir: &[char],
    file_map: &FileMap,
)
    ensures
        final(out)@ == old(out)@ + attr_replacement(
            groups@.map_values(|x: Option<String>| crate::pattern::opt_seq(x)),
            original_dir@,
            standard_dir@,
            pair_views(file_map.original_to_standard@),
        ),
{
    let ghost base = out@;
    let attr = group_text_exec(groups, 1);
    let orig = group_text_exec(groups, 2);
    extend_chars(out, attr.as_slice());
    extend_str(out, "=\"");
    let ghost mid = out@;
    match rewrite_single_reference_chars(orig.as_slice(), original_dir, standard_dir, file_map) {
        Some(rw) => extend_chars(out, rw.as_slice()),
        None => extend_chars(out, orig.as_slice()),
    }
    extend_str(out, "\"");
    assert(out@ =~= base + attr_replacement(
        groups@.map_values(|x: Option<String>| crate::pattern::opt_seq(x)),
        original_dir@,
        standard_dir@,
        pair_views(file_map.original_to_standard@),
    ));
}

/// Appends the replacement of one match.
fn push_replacement(
    out: &mut Vec<char>,
    groups: &Vec<Option<String>>,
    css: bool,
    original_dir: &[char],
    standard_dir: &[char],
    file_map: &FileMap,
)
    ensures
        ({
            let g = groups@.map_values(|x: Option<String>| crate::pattern::opt_seq(x));
            let m = pair_views(file_map.original_to_standard@);
            final(out)@ == old(out)@ + if css {
                css_replacement(g, original_dir@, standard_dir@, m)
            } else {
                attr_replacement(g, original_dir@, standard_dir@, m)
            }
        }),
{
    if css {
        push_css_replacement(out, groups, original_dir, standard_dir, file_map);
    } else {
        push_attr_replacement(out, groups, original_dir, standard_dir, file_map);
    }
}

/// The text with every match replaced.
fn replace_matches(
    pieces: &Vec<MatchPiece>,
    tail: &String,
    css: bool,
    original_dir: &[char],
    standard_dir: &[char],
    file_map: &FileMap,
) -> (r: String)
    ensures
        r@ == replaced(pieces_view(pieces@), css, original_dir@, standard_dir@, pair_views(file_map.original_to_standard@)) + tail@,
{
    let ghost pv = pieces_view(pieces@);
    let ghost m = pair_views(file_map.original_to_standard@);
    let mut out: Vec<char> = Vec::new();
    let mut i: usize = 0;
    while i < pieces.len()
        invariant
            i <= pieces@.len(),
            pv == pieces_view(pieces@),
            pv.len() == pieces@.len(),
            m == pair_views(file_map.original_to_standard@),
            out@ == replaced(pv.take(i as int), css, original_dir@, standard_dir@, m),
        decreases pieces@.len() - i,
    {
        let ghost g = pv[i as int].1;
        proof {
            let t = pv.take(i + 1);
            assert(t.drop_last() =~= pv.take(i as int));
            assert(t.last() == pv[i as int]);
        }
        extend_str(&mut out, pieces[i].0.as_str());
        push_replacement(&mut out, &pieces[i].1, css, original_dir, standard_dir, file_map);
        proof {
            let t = pv.take(i + 1);
            assert(out@ =~= replaced(t, css, original_dir@, standard_dir@, m));
        }
        i += 1;
    }
    proof {
        assert(pv.take(pieces@.len() as int) =~= pv);
    }
    extend_str(&mut out, tail.as_str());
    string_of(out.as_slice())
}

/// The pattern of `src`, `href` and `xlink:href` attributes.
pub open spec fn attr_reference_pattern() -> Seq<char> {
    "(src|href|xlink:href)=\"([^\"]+)\""@
}

/// The pattern of CSS `url(...)` references.
pub open spec fn css_url_pattern() -> Seq<char> {
    "url\\(\\s*(['\"]?)([^'\")]+)(['\"]?)\\s*\\)"@
}

/// `w` is `content` of a file moved from directory `od` to `sd` with its
/// attribute references rewritten to the standard paths of their targets
/// (`pairs`), then its CSS `url(...)` references.
pub open spec fn is_rewrite(
    content: Seq<char>,
    od: Seq<char>,
    sd: Seq<char>,
    pairs: Seq<(Seq<char>, Seq<char>)>,
    w: Seq<char>,
) -> bool {
    exists|ps1: Seq<(Seq<char>, Seq<Option<Seq<char>>>)>, t1: Seq<char>, ps2: Seq<(Seq<char>, Seq<Option<Seq<char>>>)>, t2: Seq<char>|
        #![trigger is_split(ps1, t1, attr_reference_pattern(), content), is_split(ps2, t2, css_url_pattern(), replaced(ps1, false, od, sd, pairs) + t1)]
        is_split(ps1, t1, attr_reference_pattern(), content)
        && is_split(ps2, t2, css_url_pattern(), replaced(ps1, false, od, sd, pairs) + t1)
        && w == replaced(ps2, true, od, sd, pairs) + t2
}

/// `src`, `href` and `xlink:href` references of a file moved from
/// `original_dir` to `standard_dir` rewritten to the standard paths of their
/// targets, then its CSS `url(...)` references; other text is kept.
pub fn rewrite_resource_paths(content: &str, original_dir: &str, standard_dir: &str, file_map: &FileMap) -> (r: String)
    ensures
        is_rewrite(content@, original_dir@, standard_dir@, pair_views(file_map.original_to_standard@), r@),
{
    let od = chars_of(original_dir);
    let sd = chars_of(standard_dir);
    let a = split_by_pattern("(src|href|xlink:href)=\"([^\"]+)\"", content);
    let mid = replace_matches(&a.0, &a.1, false, od.as_slice(), sd.as_slice(), file_map);
    let c = split_by_pattern("url\\(\\s*(['\"]?)([^'\")]+)(['\"]?)\\s*\\)", mid.as_str());
    let r = replace_matches(&c.0, &c.1, true, od.as_slice(), sd.as_slice(), file_map);
    proof {
        assert(is_split(pieces_view(a.0@), a.1@, attr_reference_pattern(), content@));
        assert(is_split(pieces_view(c.0@), c.1@, css_url_pattern(), mid@));
    }
    r
}

/// The content of a moved file with its references rewritten, or `None`
/// if the rewriting changes nothing.
pub fn updated_file_content(content: &str, original_path: &str, standard_path: &str, file_map: &FileMap) -> (r: Option<String>)
    ensures
        exists|w: Seq<char>|
            #[trigger] is_rewrite(content@, spec_parent(original_path@), spec_parent(standard_path@), pair_views(file_map.original_to_standard@), w)
            && match r {
                Some(s) => s@ == w && w != content@,
                None => w == content@,
            },
{
    let od = string_of(crate::epub_path::parent_chars(chars_of(original_path).as_slice()).as_slice());
    let sd = string_of(crate::epub_path::parent_chars(chars_of(standard_path).as_slice()).as_slice());
    let rewritten = rewrite_resource_paths(content, od.as_str(), sd.as_str(), file_map);
    if chars_eq(chars_of(rewritten.as_str()).as_slice(), chars_of(content).as_slice()) {
        None
    } else {
        Some(rewritten)
    }
}


// ---------------------------------------------------------------------------
// Which files are copied and rewritten
// ---------------------------------------------------------------------------

/// Original and standard paths of chapters.
pub open spec fn chapter_moves(cs: Seq<ExtendedChapterInfo>) -> Seq<(Seq<char>, Seq<char>)> {
    cs.map_values(|c: ExtendedChapterInfo| (c.original_path@, c.standard_path@))
}

/// Original and standard paths of resources.
pub open spec fn resource_moves(rs: Seq<ResourceFile>) -> Seq<(Seq<char>, Seq<char>)> {
    rs.map_values(|r: ResourceFile| (r.original_path@, r.standard_path@))
}

/// The files copied into the standardized package, from where to where:
/// chapters, styles, images, fonts, other resources, then the cover page
/// (where the map has it), `nav.xhtml` and `toc.ncx` under `OEBPS/`.
pub open spec fn spec_copy_plan(a: EpubStructureAnalysis) -> Seq<(Seq<char>, Seq<char>)> {
    let base = chapter_moves(a.chapters@) + resource_moves(a.resources.styles@) + resource_moves(a.resources.images@)
        + resource_moves(a.resources.fonts@) + resource_moves(a.resources.misc@);
    let with_cover = match a.special_files.cover {
        Some(c) => match pair_lookup(pair_views(a.file_map.original_to_standard@), c@, 0) {
            Some(sp) => base.push((c@, sp)),
            None => base,
        },
        None => base,
    };
    let with_nav = match a.special_files.nav {
        Some(n) => with_cover.push((n@, "OEBPS/nav.xhtml"@)),
        None => with_cover,
    };
    match a.special_files.ncx {
        Some(x) => with_nav.push((x@, "OEBPS/toc.ncx"@)),
        None => with_nav,
    }
}

/// Appends the moves of chapters.
fn push_chapter_moves(out: &mut Vec<(String, String)>, cs: &Vec<ExtendedChapterInfo>)
    ensures
        pair_views(final(out)@) == pair_views(old(out)@) + chapter_moves(cs@),
{
    let ghost base = pair_views(out@);
    let mut i: usize = 0;
    while i < cs.len()
        invariant
            i <= cs@.len(),
            pair_views(out@) == base + chapter_moves(cs@.take(i as int)),
        decreases cs@.len() - i,
    {
        let ghost ob = pair_views(out@);
        out.push((cs[i].original_path.clone(), cs[i].standard_path.clone()));
        assert(pair_views(out@) =~= ob.push((cs@[i as int].original_path@, cs@[i as int].standard_path@)));
        assert(chapter_moves(cs@.take(i + 1)) =~= chapter_moves(cs@.take(i as int)).push((cs@[i as int].original_path@, cs@[i as int].standard_path@)));
        i += 1;
    }
    assert(cs@.take(cs@.len() as int) =~= cs@);
}

/// Appends the moves of resources.
fn push_resource_moves(out: &mut Vec<(String, String)>, rs: &Vec<ResourceFile>)
    ensures
        pair_views(final(out)@) == pair_views(old(out)@) + resource_moves(rs@),
{
    let ghost base = pair_views(out@);
    let mut i: usize = 0;
    while i < rs.len()
        invariant
            i <= rs@.len(),
            pair_views(out@) == base + resource_moves(rs@.take(i as int)),
        decreases rs@.len() - i,
    {
        let ghost ob = pair_views(out@);
        out.push((rs[i].original_path.clone(), rs[i].standard_path.clone()));
        assert(pair_views(out@) =~= ob.push((rs@[i as int].original_path@, rs@[i as int].standard_path@)));
        assert(resource_moves(rs@.take(i + 1)) =~= resource_moves(rs@.take(i as int)).push((rs@[i as int].original_path@, rs@[i as int].standard_path@)));
        i += 1;
    }
    assert(rs@.take(rs@.len() as int) =~= rs@);
}

/// The files to copy into the standardized package, from where to where.
pub fn copy_plan(analysis: &EpubStructureAnalysis) -> (r: Vec<(String, String)>)
    ensures
        pair_views(r@) == spec_copy_plan(*analysis),
{
    let mut out: Vec<(String, String)> = Vec::new();
    push_chapter_moves(&mut out, &analysis.chapters);
    push_resource_moves(&mut out, &analysis.resources.styles);
    push_resource_moves(&mut out, &analysis.resources.images);
    push_resource_moves(&mut out, &analysis.resources.fonts);
    push_resource_moves(&mut out, &analysis.resources.misc);
    match &analysis.special_files.cover {
        Some(c) => match pairs_get(&analysis.file_map.original_to_standard, chars_of(c.as_str()).as_slice()) {
            Some(sp) => {
                let ghost ob = pair_views(out@);
                out.push((c.clone(), string_of(sp.as_slice())));
                assert(pair_views(out@) =~= ob.push((c@, sp@)));
            },
            None => {},
        },
        None => {},
    }
    match &analysis.special_files.nav {
        Some(n) => {
            let ghost ob = pair_views(out@);
            out.push((n.clone(), string_of(chars_of("OEBPS/nav.xhtml").as_slice())));
            assert(pair_views(out@) =~= ob.push((n@, "OEBPS/nav.xhtml"@)));
        },
        None => {},
    }
    match &analysis.special_files.ncx {
        Some(x) => {
            let ghost ob = pair_views(out@);
            out.push((x.clone(), string_of(chars_of("OEBPS/toc.ncx").as_slice())));
            assert(pair_views(out@) =~= ob.push((x@, "OEBPS/toc.ncx"@)));
        },
        None => {},
    }
    out
}

/// The files whose references are rewritten after copying: chapters,
/// styles, and a text-like cover page that is not a chapter.
pub open spec fn spec_update_plan(a: EpubStructureAnalysis) -> Seq<(Seq<char>, Seq<char>)> {
    let base = chapter_moves(a.chapters@) + resource_moves(a.resources.styles@);
    match a.special_files.cover {
        Some(c) => if a.chapters@.map_values(|ch: ExtendedChapterInfo| ch.original_path@).contains(c@) {
            base
        } else {
            match pair_lookup(pair_views(a.file_map.original_to_standard@), c@, 0) {
                Some(sp) => if spec_is_text_like_file(sp) {
                    base.push((c@, sp))
                } else {
                    base
                },
                None => base,
            }
        },
        None => base,
    }
}

/// The files whose references are rewritten, with their original and standard paths.
pub fn update_plan(analysis: &EpubStructureAnalysis) -> (r: Vec<(String, String)>)
    ensures
        pair_views(r@) == spec_update_plan(*analysis),
{
    let mut out: Vec<(String, String)> = Vec::new();
    push_chapter_moves(&mut out, &analysis.chapters);
    push_resource_moves(&mut out, &analysis.resources.styles);
    match &analysis.special_files.cover {
        Some(c) => {
            let cv = chars_of(c.as_str());
            let mut is_chapter = false;
            let mut i: usize = 0;
            while i < analysis.chapters.len()
                invariant
                    i <= analysis.chapters@.len(),
                    is_chapter == analysis.chapters@.take(i as int).map_values(|ch: ExtendedChapterInfo| ch.original_path@).contains(cv@),
                decreases analysis.chapters@.len() - i,
            {
                let ghost prev = analysis.chapters@.take(i as int).map_values(|ch: ExtendedChapterInfo| ch.original_path@);
                if chars_eq(chars_of(analysis.chapters[i].original_path.as_str()).as_slice(), cv.as_slice()) {
                    is_chapter = true;
                }
                let ghost x = analysis.chapters@[i as int].original_path@;
                assert(analysis.chapters@.take(i + 1).map_values(|ch: ExtendedChapterInfo| ch.original_path@) =~= prev.push(x));
                proof {
                    if x == cv@ {
                        assert(prev.push(x)[prev.len() as int] == cv@);
                    } else if prev.contains(cv@) {
                        let q = choose|q: int| 0 <= q < prev.len() && prev[q] == cv@;
                        assert(prev.push(x)[q] == cv@);
                    } else {
                        assert forall|q: int| 0 <= q < prev.push(x).len() implies prev.push(x)[q] != cv@ by {
                            if q < prev.len() {
                                assert(prev.push(x)[q] == prev[q]);
                            }
                        }
                    }
                }
                i += 1;
            }
            assert(analysis.chapters@.take(analysis.chapters@.len() as int) =~= analysis.chapters@);
            if !is_chapter {
                match pairs_get(&analysis.file_map.original_to_standard, cv.as_slice()) {
                    Some(sp) => {
                        if is_text_like_file_chars(sp.as_slice()) {
                            let ghost ob = pair_views(out@);
                            out.push((c.clone(), string_of(sp.as_slice())));
                            assert(pair_views(out@) =~= ob.push((c@, sp@)));
                        }
                    },
                    None => {},
                }
            }
        },
        None => {},
    }
    out
}

} // verus!
