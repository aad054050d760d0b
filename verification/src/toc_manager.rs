//! The table of contents of the standardized package: reading it from the
//! navigation documents, normalizing it, and writing changes back.

use vstd::prelude::*;
use crate::epub_path::{
    casefold_chars, filename_chars, lemma_find_char_bounds, reference_anchor_chars, spec_casefold,
    spec_filename, spec_reference_anchor, spec_to_standard_content_path, suffix_part, suffix_pos_exec,
    to_standard_content_path, to_standard_content_path_chars,
};
use crate::models::{
    Navigation, RefactorError, StandardManifest, StandardManifestItem, StandardSpine,
    StandardSpineItemref, TocChapterDto, TocEntry, TocOrderDto,
};
use crate::opf_document::lemma_find_from_bounds;
use crate::toc_tree::{entry_count, toc_view, toc_views, tree_count, TocView};
use crate::text::{
    chars_eq, chars_of, contains, decimal, extend_chars, extend_str, find, find_char_exec, find_char_from,
    find_from, find_from_exec, find_str_from, is_ws, is_ws_exec, lowercase_chars, occurs_at,
    slice_chars, string_of, trim, trim_chars,
};

verus! {

/// Reads, normalizes and updates the table of contents.
pub struct TocManager;

// ---------------------------------------------------------------------------
// Small extractors over characters
// ---------------------------------------------------------------------------

/// The value of the first `name="..."` in `content`.
pub open spec fn spec_extract_attribute(content: Seq<char>, name: Seq<char>) -> Option<Seq<char>> {
    let pattern = name + seq!['=', '"'];
    match find(content, pattern) {
        None => None,
        Some(start) => {
            let vs = start + pattern.len();
            match find_char_from(content, '"', vs) {
                None => None,
                Some(end) => Some(content.subrange(vs, end)),
            }
        },
    }
}

fn extract_attribute_chars(content: &[char], name: &str) -> (r: Option<Vec<char>>)
    ensures
        match r {
            Some(v) => spec_extract_attribute(content@, name@) == Some(v@),
            None => spec_extract_attribute(content@, name@) is None,
        },
{
    let clen = content.len();
    let mut pattern = chars_of(name);
    pattern.push('=');
    pattern.push('"');
    assert(pattern@ =~= name@ + seq!['=', '"']);
    match find_from_exec(content, pattern.as_slice(), 0) {
        None => None,
        Some(start) => {
            proof {
                lemma_find_from_bounds(content@, pattern@, 0);
            }
            let vs = start + pattern.len();
            proof {
                lemma_find_char_bounds(content@, '"', vs as int);
            }
            match find_char_exec(content, '"', vs) {
                None => None,
                Some(end) => Some(slice_chars(content, vs, end)),
            }
        },
    }
}

/// The trimmed text between the first `<text>` and the `</text>` after it.
pub open spec fn spec_extract_text_element(content: Seq<char>) -> Option<Seq<char>> {
    match find(content, "<text>"@) {
        None => None,
        Some(s) => match find_from(content, "</text>"@, s) {
            None => None,
            Some(e) => if s + 6 <= e {
                Some(trim(content.subrange(s + 6, e)))
            } else {
                None
            },
        },
    }
}

fn extract_text_element_chars(content: &[char]) -> (r: Option<Vec<char>>)
    ensures
        match r {
            Some(v) => spec_extract_text_element(content@) == Some(v@),
            None => spec_extract_text_element(content@) is None,
        },
{
    let clen = content.len();
    let open = chars_of("<text>");
    let close = chars_of("</text>");
    match find_from_exec(content, open.as_slice(), 0) {
        None => None,
        Some(s) => {
            proof {
                lemma_find_from_bounds(content@, open@, 0);
                lemma_find_from_bounds(content@, close@, s as int);
            }
            match find_from_exec(content, close.as_slice(), s) {
                None => None,
                Some(e) => {
                    proof {
                        reveal_strlit("<text>");
                    }
                    if s + 6 <= e {
                        let inner = slice_chars(content, s + 6, e);
                        Some(trim_chars(inner.as_slice()))
                    } else {
                        None
                    }
                },
            }
        },
    }
}

/// The value of the first `<content src="...">`.
pub open spec fn spec_extract_content_src(content: Seq<char>) -> Option<Seq<char>> {
    match find(content, "<content src=\""@) {
        None => None,
        Some(s) => match find_char_from(content, '"', s + 14) {
            None => None,
            Some(e) => Some(content.subrange(s + 14, e)),
        },
    }
}

fn extract_content_src_chars(content: &[char]) -> (r: Option<Vec<char>>)
    ensures
        match r {
            Some(v) => spec_extract_content_src(content@) == Some(v@),
            None => spec_extract_content_src(content@) is None,
        },
{
    let clen = content.len();
    let pattern = chars_of("<content src=\"");
    proof {
        reveal_strlit("<content src=\"");
    }
    match find_from_exec(content, pattern.as_slice(), 0) {
        None => None,
        Some(s) => {
            proof {
                lemma_find_from_bounds(content@, pattern@, 0);
                lemma_find_char_bounds(content@, '"', s + 14);
            }
            match find_char_exec(content, '"', s + 14) {
                None => None,
                Some(e) => Some(slice_chars(content, s + 14, e)),
            }
        },
    }
}

/// The trimmed text of the first `<a ...>...</a>`: after its first `>`, up
/// to `</a>`; nothing when that text is empty.
pub open spec fn spec_extract_link_text(content: Seq<char>) -> Option<Seq<char>> {
    match find_char_from(content, '>', 0) {
        None => None,
        Some(s) => {
            let text = content.skip(s + 1);
            match find(text, "</a>"@) {
                None => None,
                Some(e) => if trim(text.take(e)).len() > 0 {
                    Some(trim(text.take(e)))
                } else {
                    None
                },
            }
        },
    }
}

fn extract_link_text_chars(content: &[char]) -> (r: Option<Vec<char>>)
    ensures
        match r {
            Some(v) => spec_extract_link_text(content@) == Some(v@),
            None => spec_extract_link_text(content@) is None,
        },
{
    let clen = content.len();
    proof {
        lemma_find_char_bounds(content@, '>', 0);
    }
    match find_char_exec(content, '>', 0) {
        None => None,
        Some(s) => {
            let text = slice_chars(content, s + 1, content.len());
            assert(text@ =~= content@.skip(s + 1));
            let close = chars_of("</a>");
            proof {
                lemma_find_from_bounds(text@, close@, 0);
            }
            match find_from_exec(text.as_slice(), close.as_slice(), 0) {
                None => None,
                Some(e) => {
                    let inner = slice_chars(text.as_slice(), 0, e);
                    assert(inner@ =~= text@.take(e as int));
                    let t = trim_chars(inner.as_slice());
                    if t.len() > 0 {
                        Some(t)
                    } else {
                        None
                    }
                },
            }
        },
    }
}

/// The start tag of a `<nav>` element names it as the table of contents.
pub open spec fn spec_is_toc_nav(nav: Seq<char>) -> bool {
    let end = match find_char_from(nav, '>', 0) {
        Some(i) => i,
        None => nav.len() as int,
    };
    let tag = nav.take(end);
    ||| contains(tag, "epub:type=\"toc\""@)
    ||| contains(tag, "epub:type='toc'"@)
    ||| contains(tag, "type=\"toc\""@)
    ||| contains(tag, "type='toc'"@)
}

pub(crate) fn contains_str_exec(s: &[char], p: &str) -> (r: bool)
    ensures
        r == contains(s@, p@),
{
    find_str_from(s, p, 0).is_some()
}

pub(crate) fn is_toc_nav(nav: &[char]) -> (r: bool)
    ensures
        r == spec_is_toc_nav(nav@),
{
    proof {
        lemma_find_char_bounds(nav@, '>', 0);
    }
    let end = match find_char_exec(nav, '>', 0) {
        Some(i) => i,
        None => nav.len(),
    };
    let tag = slice_chars(nav, 0, end);
    assert(tag@ =~= nav@.take(end as int));
    contains_str_exec(tag.as_slice(), "epub:type=\"toc\"") || contains_str_exec(
        tag.as_slice(),
        "epub:type='toc'",
    ) || contains_str_exec(tag.as_slice(), "type=\"toc\"") || contains_str_exec(
        tag.as_slice(),
        "type='toc'",
    )
}

// ---------------------------------------------------------------------------
// Matching closing tags
// ---------------------------------------------------------------------------

/// ASCII case folding of one character.
pub open spec fn ascii_lower(c: char) -> char {
    if 'A' <= c && c <= 'Z' {
        ((c as u32) + 32) as char
    } else {
        c
    }
}

/// `p` occurs at `i` in `s` when ASCII case is ignored.
pub open spec fn occurs_at_ci(s: Seq<char>, p: Seq<char>, i: int) -> bool {
    0 <= i && i + p.len() <= s.len() && forall|k: int|
        0 <= k < p.len() ==> #[trigger] ascii_lower(s[i + k]) == ascii_lower(p[k])
}

fn ascii_lower_exec(c: char) -> (r: char)
    ensures
        r == ascii_lower(c),
{
    if 'A' <= c && c <= 'Z' {
        ((c as u32) + 32) as u8 as char
    } else {
        c
    }
}

fn occurs_at_ci_exec(s: &[char], p: &[char], i: usize) -> (r: bool)
    ensures
        r == occurs_at_ci(s@, p@, i as int),
{
    let slen = s.len();
    if i > slen || p.len() > slen - i {
        return false;
    }
    let mut k: usize = 0;
    while k < p.len()
        invariant
            slen == s@.len(),
            i + p@.len() <= s@.len(),
            k <= p@.len(),
            forall|j: int| 0 <= j < k ==> #[trigger] ascii_lower(s@[i + j]) == ascii_lower(p@[j]),
        decreases p@.len() - k,
    {
        if ascii_lower_exec(s[i + k]) != ascii_lower_exec(p[k]) {
            return false;
        }
        k += 1;
    }
    true
}

/// The tag whose name ends at `after` closes itself: the first `>` from
/// `after` on ends it, and `/` stands just before that `>`.
pub open spec fn self_closing_at(c: Seq<char>, after: int) -> bool {
    match find_char_from(c, '>', after) {
        Some(g) => after < g && c[g - 1] == '/',
        None => false,
    }
}

/// Just after the `>` that ends the tag whose name ends at `after`.
pub open spec fn tag_end(c: Seq<char>, after: int) -> int {
    match find_char_from(c, '>', after) {
        Some(g) => g + 1,
        None => c.len() as int,
    }
}

/// `p` starts `s`.
pub open spec fn starts_with_seq(s: Seq<char>, p: Seq<char>) -> bool {
    crate::text::starts_with(s, p)
}

/// The scan for the tag that closes the element opened at the start of `c`,
/// ignoring ASCII case; self-closing tags do not nest.
pub open spec fn match_close_html(c: Seq<char>, open: Seq<char>, close: Seq<char>, pos: int, depth: int) -> Option<int>
    decreases c.len() - pos,
{
    if pos < 0 || pos >= c.len() || open.len() == 0 || close.len() == 0 {
        None
    } else if occurs_at_ci(c, open, pos) {
        if self_closing_at(c, pos + open.len()) {
            proof {
                crate::epub_path::lemma_find_char_bounds(c, '>', pos + open.len());
            }
            match_close_html(c, open, close, tag_end(c, pos + open.len()), depth)
        } else if depth + 1 == 0 {
            None
        } else {
            match_close_html(c, open, close, pos + open.len(), depth + 1)
        }
    } else if occurs_at_ci(c, close, pos) {
        if depth - 1 == 0 {
            Some(pos + close.len())
        } else {
            match_close_html(c, open, close, pos + close.len(), depth - 1)
        }
    } else if depth == 0 {
        None
    } else {
        match_close_html(c, open, close, pos + 1, depth)
    }
}

/// The end of the element opened at the start of `content` (just after its
/// closing tag), if it is closed.
pub fn find_matching_close_html(content: &[char], open_tag: &[char], close_tag: &[char]) -> (r: Option<usize>)
    ensures
        match r {
            Some(e) => match_close_html(content@, open_tag@, close_tag@, 0, 0) == Some(e as int),
            None => match_close_html(content@, open_tag@, close_tag@, 0, 0) is None,
        },
{
    if open_tag.len() == 0 || close_tag.len() == 0 {
        return None;
    }
    let clen = content.len();
    let mut depth: i128 = 0;
    let mut pos: usize = 0;
    while pos < content.len()
        invariant
            pos <= content@.len(),
            -(pos as int) <= depth <= pos as int,
            open_tag@.len() > 0,
            close_tag@.len() > 0,
            match_close_html(content@, open_tag@, close_tag@, 0, 0) == match_close_html(
                content@,
                open_tag@,
                close_tag@,
                pos as int,
                depth as int,
            ),
        decreases content@.len() - pos,
    {
        if occurs_at_ci_exec(content, open_tag, pos) {
            let after = pos + open_tag.len();
            proof {
                crate::epub_path::lemma_find_char_bounds(content@, '>', after as int);
            }
            match find_char_exec(content, '>', after) {
                Some(g) => {
                    if after < g && content[g - 1] == '/' {
                        if g + 1 >= content.len() {
                            assert(match_close_html(content@, open_tag@, close_tag@, g + 1, depth as int) is None);
                            return None;
                        }
                        pos = g + 1;
                        continue ;
                    }
                },
                None => {},
            }
            if depth + 1 == 0 {
                return None;
            }
            depth = depth + 1;
            pos = after;
        } else if occurs_at_ci_exec(content, close_tag, pos) {
            if depth - 1 == 0 {
                return Some(pos + close_tag.len());
            }
            depth = depth - 1;
            pos = pos + close_tag.len();
        } else {
            if depth == 0 {
                return None;
            }
            pos = pos + 1;
        }
    }
    None
}


/// The scan for the tag that closes the element opened at the start of `c`
/// (exact case), by the next opening and closing tags.
pub open spec fn match_close(c: Seq<char>, open: Seq<char>, close: Seq<char>, pos: int, depth: int) -> Option<int>
    decreases c.len() - pos,
{
    if pos < 0 || pos >= c.len() || open.len() == 0 || close.len() == 0 {
        None
    } else {
        let no = find_from(c, open, pos);
        let nc = find_from(c, close, pos);
        proof {
            lemma_find_from_bounds(c, open, pos);
            lemma_find_from_bounds(c, close, pos);
        }
        match nc {
            Some(ci) => {
                if no is Some && no->0 < ci {
                    match_close(c, open, close, no->0 + open.len(), depth + 1)
                } else if depth - 1 == 0 {
                    Some(ci + close.len())
                } else {
                    match_close(c, open, close, ci + close.len(), depth - 1)
                }
            },
            None => match no {
                Some(oi) => match_close(c, open, close, oi + open.len(), depth + 1),
                None => None,
            },
        }
    }
}

/// The end of the element opened at the start of `content` (just after its
/// closing tag), if it is closed.
pub fn find_matching_close(content: &[char], open_tag: &[char], close_tag: &[char]) -> (r: Option<usize>)
    ensures
        match r {
            Some(e) => match_close(content@, open_tag@, close_tag@, 0, 0) == Some(e as int),
            None => match_close(content@, open_tag@, close_tag@, 0, 0) is None,
        },
{
    if open_tag.len() == 0 || close_tag.len() == 0 {
        return None;
    }
    let clen = content.len();
    let mut depth: i128 = 0;
    let mut pos: usize = 0;
    while pos < content.len()
        invariant
            clen == content@.len(),
            pos <= content@.len(),
            -(pos as int) <= depth <= pos as int,
            open_tag@.len() > 0,
            close_tag@.len() > 0,
            match_close(content@, open_tag@, close_tag@, 0, 0) == match_close(
                content@,
                open_tag@,
                close_tag@,
                pos as int,
                depth as int,
            ),
        decreases content@.len() - pos,
    {
        proof {
            lemma_find_from_bounds(content@, open_tag@, pos as int);
            lemma_find_from_bounds(content@, close_tag@, pos as int);
        }
        let no = find_from_exec(content, open_tag, pos);
        let nc = find_from_exec(content, close_tag, pos);
        match nc {
            Some(ci) => {
                if no.is_some() && no.unwrap() < ci {
                    depth = depth + 1;
                    pos = no.unwrap() + open_tag.len();
                } else if depth - 1 == 0 {
                    return Some(ci + close_tag.len());
                } else {
                    depth = depth - 1;
                    pos = ci + close_tag.len();
                }
            },
            None => match no {
                Some(oi) => {
                    depth = depth + 1;
                    pos = oi + open_tag.len();
                },
                None => return None,
            },
        }
    }
    None
}

// ---------------------------------------------------------------------------
// Parsing the navigation documents
// ---------------------------------------------------------------------------

/// Entries as the parsers make them: at `level`, numbered in
/// `[lo, hi)`, their file path the standard path of their target, without
/// chapter groups yet; their children one level deeper.
pub open spec fn parsed_entries(es: Seq<TocChapterDto>, level: nat, lo: nat, hi: nat) -> bool
    decreases es,
{
    if es.len() == 0 {
        true
    } else {
        let e = es.last();
        &&& parsed_entries(es.drop_last(), level, lo, hi)
        &&& e.level == level
        &&& lo <= e.order < hi
        &&& e.file_path is Some && e.file_path->0@ == spec_to_standard_content_path(e.content_src@)
        &&& e.file_paths@.len() == 0
        &&& e.file_name is None
        &&& e.file_names@.len() == 0
        &&& e.anchor is None
        &&& parsed_entries(e.children@, level + 1, lo, hi)
    }
}

/// Widening the numbering range keeps entries well formed.
proof fn lemma_parsed_entries_widen(es: Seq<TocChapterDto>, level: nat, lo: nat, hi: nat, lo2: nat, hi2: nat)
    requires
        parsed_entries(es, level, lo, hi),
        lo2 <= lo,
        hi <= hi2,
    ensures
        parsed_entries(es, level, lo2, hi2),
    decreases es,
{
    if es.len() > 0 {
        lemma_parsed_entries_widen(es.drop_last(), level, lo, hi, lo2, hi2);
        lemma_parsed_entries_widen(es.last().children@, level + 1, lo, hi, lo2, hi2);
    }
}

/// Appending one well-formed entry keeps the list well formed.
proof fn lemma_parsed_entries_push(es: Seq<TocChapterDto>, e: TocChapterDto, level: nat, lo: nat, hi: nat)
    requires
        parsed_entries(es, level, lo, hi),
        e.level == level,
        lo <= e.order < hi,
        e.file_path is Some && e.file_path->0@ == spec_to_standard_content_path(e.content_src@),
        e.file_paths@.len() == 0,
        e.file_name is None,
        e.file_names@.len() == 0,
        e.anchor is None,
        parsed_entries(e.children@, level + 1, lo, hi),
    ensures
        parsed_entries(es.push(e), level, lo, hi),
{
    assert(es.push(e).drop_last() =~= es);
}


/// A table-of-contents entry as the parsers make it.
fn new_entry(id: String, label: Vec<char>, href: Vec<char>, level: usize, order: usize, children: Vec<TocChapterDto>) -> (r: TocChapterDto)
    ensures
        r.id == id,
        r.label@ == label@,
        r.content_src@ == href@,
        r.file_path is Some && r.file_path->0@ == spec_to_standard_content_path(href@),
        r.file_paths@.len() == 0,
        r.file_name is None,
        r.file_names@.len() == 0,
        r.anchor is None,
        r.level == level,
        r.order == order,
        r.children == children,
{
    let fp = to_standard_content_path_chars(href.as_slice());
    TocChapterDto {
        id,
        label: string_of(label.as_slice()),
        content_src: string_of(href.as_slice()),
        file_path: Some(string_of(fp.as_slice())),
        file_paths: Vec::new(),
        file_name: None,
        file_names: Vec::new(),
        anchor: None,
        level,
        order,
        children,
    }
}

/// `prefix` followed by the decimal digits of `n`.
fn numbered_id(prefix: &str, n: usize) -> (r: String)
    ensures
        r@ == prefix@ + crate::text::decimal(n as nat),
{
    let mut v = chars_of(prefix);
    let d = crate::text::decimal_chars(n as u128);
    extend_chars(&mut v, d.as_slice());
    string_of(v.as_slice())
}

/// The views of the new entries of a list.
pub open spec fn added(old_list: Seq<TocChapterDto>, new_list: Seq<TocChapterDto>) -> Seq<TocChapterDto> {
    new_list.skip(old_list.len() as int)
}

/// The link of a list item: from its first `<a ` to the `</a>` after it.
pub open spec fn li_link(li: Seq<char>) -> Option<Seq<char>> {
    match find_from(li, "<a "@, 0) {
        None => None,
        Some(a) => match find_from(li, "</a>"@, a) {
            None => None,
            Some(e) => Some(li.subrange(a, e + 4)),
        },
    }
}

/// The first nested list of a list item: from its first `<ol` to the
/// `</ol>` that closes it, or to the end of the item.
pub open spec fn li_sublist(li: Seq<char>) -> Option<Seq<char>> {
    match find_from(li, "<ol"@, 0) {
        None => None,
        Some(os) => {
            let oe = match match_close_html(li.subrange(os, li.len() as int), "<ol"@, "</ol>"@, 0, 0) {
                Some(e) => os + e,
                None => li.len() as int,
            };
            Some(li.subrange(os, oe))
        },
    }
}

/// The entry made of a link at `level` with number `order`: id `nav-N`,
/// the `href` as target (empty without one), the link text as label
/// (`Untitled` without one).
pub open spec fn ol_entry(link: Seq<char>, level: nat, order: nat, children: Seq<TocView>) -> TocView {
    let href = match spec_extract_attribute(link, "href"@) {
        Some(h) => h,
        None => seq![],
    };
    let label = match spec_extract_link_text(link) {
        Some(t) => t,
        None => "Untitled"@,
    };
    TocView {
        id: "nav-"@ + decimal(order),
        label,
        content_src: href,
        file_path: Some(spec_to_standard_content_path(href)),
        file_paths: seq![],
        file_name: None,
        file_names: seq![],
        anchor: None,
        level,
        order,
        children,
    }
}

/// A nested list of an item is shorter than the text the item was found in.
pub proof fn lemma_sublist_shorter(c: Seq<char>, pos: int, ls: int, e: int)
    requires
        find_from(c, "<li"@, pos) == Some(ls),
        match_close_html(c.subrange(ls, c.len() as int), "<li"@, "</li>"@, 0, 0) == Some(e),
    ensures
        ls + 3 <= c.len(),
        pos <= ls,
        0 < e <= c.len() - ls,
        li_sublist(c.subrange(ls, ls + e)) matches Some(sub) ==> sub.len() < c.len(),
{
    reveal_strlit("<li");
    reveal_strlit("<ol");
    lemma_find_from_bounds(c, "<li"@, pos);
    lemma_match_close_html_bounds(c.subrange(ls, c.len() as int), "<li"@, "</li>"@, 0, 0);
    let li = c.subrange(ls, ls + e);
    lemma_find_from_bounds(li, "<ol"@, 0);
    match find_from(li, "<ol"@, 0) {
        Some(os) => {
            if os == 0 {
                assert(li[1] == c.subrange(ls, ls + 3)[1]);
                assert(li.subrange(0, 3)[1] == li[1]);
            }
            let t = li.subrange(os, li.len() as int);
            lemma_match_close_html_bounds(t, "<ol"@, "</ol>"@, 0, 0);
        },
        None => {},
    }
}

/// The entries parsed from the `<li>` items of `c` from position `pos` on,
/// numbered from `n` in document order (an item before its nested items),
/// and the next free number. An item whose close is not found is skipped
/// past its `<li`; an item without a link makes no entry.
pub open spec fn ol_items(c: Seq<char>, pos: int, level: nat, n: nat) -> (Seq<TocView>, nat)
    decreases c.len(), c.len() + 1 - pos,
{
    if pos < 0 || pos > c.len() {
        (seq![], n)
    } else {
        match find_from(c, "<li"@, pos) {
            None => (seq![], n),
            Some(ls) => match match_close_html(c.subrange(ls, c.len() as int), "<li"@, "</li>"@, 0, 0) {
                None => {
                    proof {
                        reveal_strlit("<li");
                        lemma_find_from_bounds(c, "<li"@, pos);
                    }
                    ol_items(c, ls + 3, level, n)
                },
                Some(e) => {
                    proof {
                        lemma_sublist_shorter(c, pos, ls, e);
                    }
                    let li = c.subrange(ls, ls + e);
                    match li_link(li) {
                        None => ol_items(c, ls + e, level, n),
                        Some(link) => {
                            let sub = match li_sublist(li) {
                                Some(s) => ol_items(s, 0, level + 1, n + 1),
                                None => (seq![], n + 1),
                            };
                            let rest = ol_items(c, ls + e, level, sub.1);
                            (seq![ol_entry(link, level, n, sub.0)] + rest.0, rest.1)
                        },
                    }
                },
            },
        }
    }
}

impl TocManager {
    /// Parses the `<li>` items of an `<ol>` list, and nested lists as children.
    /// Each item with a link becomes an entry `nav-N` numbered in document order.
    pub fn parse_ol_elements(
        content: &str,
        level: usize,
        entries: &mut Vec<TocChapterDto>,
        order_counter: &mut usize,
        base_path: &str,
    )
        requires
            *old(order_counter) + content@.len() <= usize::MAX,
            level + content@.len() + 1 <= usize::MAX,
        ensures
            final(entries)@.take(old(entries)@.len() as int) == old(entries)@,
            final(entries)@.len() >= old(entries)@.len(),
            parsed_entries(added(old(entries)@, final(entries)@), level as nat, *old(order_counter) as nat, *final(order_counter) as nat),
            tree_count(toc_views(added(old(entries)@, final(entries)@))) == *final(order_counter) - *old(order_counter),
            *old(order_counter) <= *final(order_counter) <= *old(order_counter) + content@.len(),
            toc_views(added(old(entries)@, final(entries)@)) == ol_items(content@, 0, level as nat, *old(order_counter) as nat).0,
            *final(order_counter) == ol_items(content@, 0, level as nat, *old(order_counter) as nat).1,
    {
        let v = chars_of(content);
        Self::parse_ol_elements_chars(v.as_slice(), level, entries, order_counter, base_path);
    }

    /// Parses the `<li>` items of an `<ol>` list given as characters.
    #[verifier::rlimit(80)]
    #[verifier::spinoff_prover]
    pub fn parse_ol_elements_chars(
        content: &[char],
        level: usize,
        entries: &mut Vec<TocChapterDto>,
        order_counter: &mut usize,
        base_path: &str,
    )
        requires
            *old(order_counter) + content@.len() <= usize::MAX,
            level + content@.len() + 1 <= usize::MAX,
        ensures
            final(entries)@.take(old(entries)@.len() as int) == old(entries)@,
            final(entries)@.len() >= old(entries)@.len(),
            parsed_entries(added(old(entries)@, final(entries)@), level as nat, *old(order_counter) as nat, *final(order_counter) as nat),
            tree_count(toc_views(added(old(entries)@, final(entries)@))) == *final(order_counter) - *old(order_counter),
            *old(order_counter) <= *final(order_counter) <= *old(order_counter) + content@.len(),
            toc_views(added(old(entries)@, final(entries)@)) == ol_items(content@, 0, level as nat, *old(order_counter) as nat).0,
            *final(order_counter) == ol_items(content@, 0, level as nat, *old(order_counter) as nat).1,
        decreases content@.len(),
    {
        let clen = content.len();
        let ghost e0 = entries@;
        let ghost c0 = *order_counter as nat;
        let ghost goal = ol_items(content@, 0, level as nat, c0);
        let li_open = chars_of("<li");
        let li_close = chars_of("</li>");
        let ol_open = chars_of("<ol");
        let ol_close = chars_of("</ol>");
        let a_open = chars_of("<a ");
        let a_close = chars_of("</a>");
        proof {
            reveal_strlit("<li");
            reveal_strlit("<ol");
            reveal_strlit("</a>");
            assert(e0.skip(e0.len() as int) =~= Seq::<TocChapterDto>::empty());
            assert(toc_views(e0.skip(e0.len() as int)) =~= Seq::<crate::toc_tree::TocView>::empty());
            assert(toc_views(e0.skip(e0.len() as int)) + goal.0 =~= goal.0);
        }
        let mut search_pos: usize = 0;
        while search_pos <= clen
            invariant
                clen == content@.len(),
                li_open@ == "<li"@,
                li_close@ == "</li>"@,
                ol_open@ == "<ol"@,
                ol_close@ == "</ol>"@,
                a_open@ == "<a "@,
                a_close@ == "</a>"@,
                goal == ol_items(content@, 0, level as nat, c0),
                toc_views(added(e0, entries@)) + ol_items(content@, search_pos as int, level as nat, *order_counter as nat).0 == goal.0,
                ol_items(content@, search_pos as int, level as nat, *order_counter as nat).1 == goal.1,
                search_pos <= clen + 1,
                entries@.len() >= e0.len(),
                entries@.take(e0.len() as int) == e0,
                c0 == *old(order_counter),
                c0 <= *order_counter <= c0 + search_pos,
                *order_counter <= c0 + clen,
                c0 + clen <= usize::MAX,
                level + clen + 1 <= usize::MAX,
                parsed_entries(added(e0, entries@), level as nat, c0, *order_counter as nat),
            tree_count(toc_views(added(e0, entries@))) == *order_counter - c0,
            ensures
                ol_items(content@, search_pos as int, level as nat, *order_counter as nat) == (Seq::<TocView>::empty(), *order_counter as nat),
            decreases clen + 1 - search_pos,
        {
            let ghost sp0 = search_pos as int;
            let ghost n0 = *order_counter as nat;
            proof {
                reveal_strlit("<li");
                reveal_strlit("<ol");
                reveal_strlit("</a>");
                lemma_find_from_bounds(content@, li_open@, search_pos as int);
            }
            let li_start = match find_from_exec(content, li_open.as_slice(), search_pos) {
                Some(p) => p,
                None => {
                    proof {
                        assert(ol_items(content@, sp0, level as nat, n0) == (Seq::<TocView>::empty(), n0));
                    }
                    break;
                },
            };
            let tail = slice_chars(content, li_start, clen);
            let li_end = match find_matching_close_html(tail.as_slice(), li_open.as_slice(), li_close.as_slice()) {
                Some(e) => {
                    proof {
                        lemma_match_close_html_bounds(tail@, li_open@, li_close@, 0, 0);
                    }
                    li_start + e
                },
                None => {
                    proof {
                        assert(ol_items(content@, sp0, level as nat, n0) == ol_items(content@, li_start + 3, level as nat, n0));
                    }
                    search_pos = li_start + 3;
                    continue;
                },
            };
            let li_content = slice_chars(content, li_start, li_end);
            proof {
                lemma_sublist_shorter(content@, sp0, li_start as int, li_end - li_start);
            }
            let ghost before = entries@;
            let ghost cb = *order_counter as nat;
            match find_from_exec(li_content.as_slice(), a_open.as_slice(), 0) {
                Some(a_start) => {
                    proof {
                        lemma_find_from_bounds(li_content@, a_open@, 0);
                        lemma_find_from_bounds(li_content@, a_close@, a_start as int);
                    }
                    match find_from_exec(li_content.as_slice(), a_close.as_slice(), a_start) {
                        Some(a_end_abs) => {
                            let a_content = slice_chars(li_content.as_slice(), a_start, a_end_abs + 4);
                            proof {
                                assert(li_link(li_content@) == Some(a_content@));
                            }
                            let href = match extract_attribute_chars(a_content.as_slice(), "href") {
                                Some(h) => h,
                                None => Vec::new(),
                            };
                            let label = match extract_link_text_chars(a_content.as_slice()) {
                                Some(t) => t,
                                None => chars_of("Untitled"),
                            };
                            let order = *order_counter;
                            *order_counter = *order_counter + 1;
                            let mut children: Vec<TocChapterDto> = Vec::new();
                            proof {
                                lemma_find_from_bounds(li_content@, ol_open@, 0);
                            }
                            match find_from_exec(li_content.as_slice(), ol_open.as_slice(), 0) {
                                Some(ol_start) => {
                                    let ol_tail = slice_chars(li_content.as_slice(), ol_start, li_content.len());
                                    let ol_end = match find_matching_close_html(ol_tail.as_slice(), ol_open.as_slice(), ol_close.as_slice()) {
                                        Some(e) => {
                                            proof {
                                                lemma_match_close_html_bounds(ol_tail@, ol_open@, ol_close@, 0, 0);
                                            }
                                            ol_start + e
                                        },
                                        None => li_content.len(),
                                    };
                                    let ol_content = slice_chars(li_content.as_slice(), ol_start, ol_end);
                                    proof {
                                        if ol_start == 0 {
                                            assert(li_content@.subrange(0, 3) == ol_open@);
                                            assert(li_content@.subrange(0, 3) =~= content@.subrange(li_start as int, li_start + 3));
                                            assert(content@.subrange(li_start as int, li_start + 3) == li_open@);
                                            assert(li_open@[1] != ol_open@[1]);
                                        }
                                    }
                                    proof {
                                        assert(li_sublist(li_content@) == Some(ol_content@));
                                    }
                                    Self::parse_ol_elements_chars(ol_content.as_slice(), level + 1, &mut children, order_counter, base_path);
                                    proof {
                                        assert(children@.skip(0) =~= children@);
                                    }
                                },
                                None => {
                                    proof {
                                        assert(li_sublist(li_content@) is None);
                                        assert(toc_views(children@) =~= Seq::<TocView>::empty());
                                    }
                                },
                            }
                            let ghost subv = match li_sublist(li_content@) {
                                Some(sl) => ol_items(sl, 0, level as nat + 1, cb + 1),
                                None => (Seq::<TocView>::empty(), cb + 1),
                            };
                            proof {
                                assert(toc_views(children@) == subv.0);
                                assert(*order_counter == subv.1);
                            }
                            let id = numbered_id("nav-", order);
                            let entry = new_entry(id, label, href, level, order, children);
                            proof {
                                assert(children@.skip(0) =~= children@);
                                lemma_parsed_entries_widen(added(e0, before), level as nat, c0, cb, c0, *order_counter as nat);
                                lemma_parsed_entries_widen(entry.children@, (level + 1) as nat, (order + 1) as nat, *order_counter as nat, c0, *order_counter as nat);
                                lemma_parsed_entries_push(added(e0, before), entry, level as nat, c0, *order_counter as nat);
                            }
                            proof {
                                assert(toc_view(entry) =~= ol_entry(a_content@, level as nat, cb, subv.0));
                                assert(ol_items(content@, sp0, level as nat, n0) == (
                                    seq![ol_entry(a_content@, level as nat, cb, subv.0)] + ol_items(content@, li_end as int, level as nat, subv.1).0,
                                    ol_items(content@, li_end as int, level as nat, subv.1).1,
                                ));
                            }
                            entries.push(entry);
                            proof {
                                let ghost tb = toc_views(added(e0, before));
                                let ghost rest = ol_items(content@, li_end as int, level as nat, subv.1).0;
                                assert(tb.push(toc_view(entry)) + rest =~= tb + (seq![toc_view(entry)] + rest));
                                assert(added(e0, entries@) =~= added(e0, before).push(entry));
                                assert(added(e0, entries@).drop_last() =~= added(e0, before));
                                assert(toc_views(added(e0, entries@)).drop_last() =~= toc_views(added(e0, before)));
            assert(entry_count(toc_view(entry)) == 1 + tree_count(toc_views(children@)));
                                assert(entry_count(toc_view(entry)) == 1 + tree_count(toc_views(children@)));
                                assert(entries@.take(e0.len() as int) =~= e0);
                            }
                        },
                        None => {
                            proof {
                                assert(li_link(li_content@) is None);
                                assert(ol_items(content@, sp0, level as nat, n0) == ol_items(content@, li_end as int, level as nat, n0));
                            }
                        },
                    }
                },
                None => {
                    proof {
                        assert(li_link(li_content@) is None);
                        assert(ol_items(content@, sp0, level as nat, n0) == ol_items(content@, li_end as int, level as nat, n0));
                    }
                },
            }
            search_pos = li_end;
        }
    }
}

/// Where the close scan lands.
pub proof fn lemma_match_close_html_bounds(c: Seq<char>, open: Seq<char>, close: Seq<char>, pos: int, depth: int)
    ensures
        match_close_html(c, open, close, pos, depth) matches Some(e) ==> pos < e <= c.len(),
    decreases c.len() - pos,
{
    if !(pos < 0 || pos >= c.len() || open.len() == 0 || close.len() == 0) {
        if occurs_at_ci(c, open, pos) {
            if self_closing_at(c, pos + open.len()) {
                crate::epub_path::lemma_find_char_bounds(c, '>', pos + open.len());
                lemma_match_close_html_bounds(c, open, close, tag_end(c, pos + open.len()), depth);
            } else if depth + 1 != 0 {
                lemma_match_close_html_bounds(c, open, close, pos + open.len(), depth + 1);
            }
        } else if occurs_at_ci(c, close, pos) {
            if depth - 1 != 0 {
                lemma_match_close_html_bounds(c, open, close, pos + close.len(), depth - 1);
            }
        } else if depth != 0 {
            lemma_match_close_html_bounds(c, open, close, pos + 1, depth);
        }
    }
}


impl TocManager {
    /// Parses the `<navPoint>` elements of an NCX navigation map, nested
    /// points as children. A point's number is given after its children's;
    /// its id is its `id` attribute or `navpoint-N`.
    pub fn parse_ncx_navmap(
        content: &str,
        level: usize,
        entries: &mut Vec<TocChapterDto>,
        order_counter: &mut usize,
        base_path: &str,
    )
        requires
            *old(order_counter) + content@.len() <= usize::MAX,
            level + content@.len() + 1 <= usize::MAX,
        ensures
            final(entries)@.take(old(entries)@.len() as int) == old(entries)@,
            final(entries)@.len() >= old(entries)@.len(),
            parsed_entries(added(old(entries)@, final(entries)@), level as nat, *old(order_counter) as nat, *final(order_counter) as nat),
            tree_count(toc_views(added(old(entries)@, final(entries)@))) == *final(order_counter) - *old(order_counter),
            *old(order_counter) <= *final(order_counter) <= *old(order_counter) + content@.len(),
            toc_views(added(old(entries)@, final(entries)@)) == navpoint_items(content@, 0, level as nat, *old(order_counter) as nat, false).0,
            *final(order_counter) == navpoint_items(content@, 0, level as nat, *old(order_counter) as nat, false).1,
    {
        let v = chars_of(content);
        parse_navpoints(v.as_slice(), level, entries, order_counter, false);
    }

    /// Parses `<navPoint>` elements found in a navigation document written in
    /// the NCX format; the target is the first `src` attribute of the point.
    pub fn parse_navpoint_elements(
        content: &str,
        level: usize,
        entries: &mut Vec<TocChapterDto>,
        order_counter: &mut usize,
        base_path: &str,
    )
        requires
            *old(order_counter) + content@.len() <= usize::MAX,
            level + content@.len() + 1 <= usize::MAX,
        ensures
            final(entries)@.take(old(entries)@.len() as int) == old(entries)@,
            final(entries)@.len() >= old(entries)@.len(),
            parsed_entries(added(old(entries)@, final(entries)@), level as nat, *old(order_counter) as nat, *final(order_counter) as nat),
            tree_count(toc_views(added(old(entries)@, final(entries)@))) == *final(order_counter) - *old(order_counter),
            *old(order_counter) <= *final(order_counter) <= *old(order_counter) + content@.len(),
            toc_views(added(old(entries)@, final(entries)@)) == navpoint_items(content@, 0, level as nat, *old(order_counter) as nat, true).0,
            *final(order_counter) == navpoint_items(content@, 0, level as nat, *old(order_counter) as nat, true).1,
    {
        let v = chars_of(content);
        parse_navpoints(v.as_slice(), level, entries, order_counter, true);
    }
}

/// Where the exact-case close scan lands.
pub proof fn lemma_match_close_bounds(c: Seq<char>, open: Seq<char>, close: Seq<char>, pos: int, depth: int)
    ensures
        match_close(c, open, close, pos, depth) matches Some(e) ==> pos < e <= c.len(),
    decreases c.len() - pos,
{
    if !(pos < 0 || pos >= c.len() || open.len() == 0 || close.len() == 0) {
        let no = find_from(c, open, pos);
        let nc = find_from(c, close, pos);
        lemma_find_from_bounds(c, open, pos);
        lemma_find_from_bounds(c, close, pos);
        match nc {
            Some(ci) => {
                if no is Some && no->0 < ci {
                    lemma_match_close_bounds(c, open, close, no->0 + open.len(), depth + 1);
                } else if depth - 1 != 0 {
                    lemma_match_close_bounds(c, open, close, ci + close.len(), depth - 1);
                }
            },
            None => match no {
                Some(oi) => lemma_match_close_bounds(c, open, close, oi + open.len(), depth + 1),
                None => {},
            },
        }
    }
}

/// The end of the navigation point that starts at `ps` in `c`: after the
/// `</navPoint>` that closes it, or the end of `c`.
pub open spec fn point_close_end(c: Seq<char>, ps: int) -> int {
    match match_close(c.subrange(ps, c.len() as int), "<navPoint"@, "</navPoint>"@, 0, 0) {
        Some(e) => ps + e,
        None => c.len() as int,
    }
}

/// The text of the nested points of a navigation point: from the next
/// `<navPoint` after its own start tag to its end.
pub open spec fn point_children_text(npc: Seq<char>) -> Option<Seq<char>> {
    if npc.len() >= 9 {
        match find_from(npc, "<navPoint"@, 9) {
            Some(cs) => Some(npc.subrange(cs, npc.len() as int)),
            None => None,
        }
    } else {
        None
    }
}

/// The target of a navigation point: with `src_first`, its first `src`
/// attribute, else (or without one) its `<content src="...">`; empty
/// without either.
pub open spec fn point_src(npc: Seq<char>, src_first: bool) -> Seq<char> {
    let content_src = match spec_extract_content_src(npc) {
        Some(v) => v,
        None => seq![],
    };
    if src_first {
        match spec_extract_attribute(npc, "src"@) {
            Some(v) => v,
            None => content_src,
        }
    } else {
        content_src
    }
}

/// The entry made of a navigation point: its `id` attribute (else
/// `navpoint-N` with the number `id_num` it was reached at), the text of
/// its `<text>` as label (`Untitled` without one), number `order`.
pub open spec fn point_entry(npc: Seq<char>, level: nat, id_num: nat, order: nat, src_first: bool, children: Seq<TocView>) -> TocView {
    let src = point_src(npc, src_first);
    TocView {
        id: match spec_extract_attribute(npc, "id"@) {
            Some(v) => v,
            None => "navpoint-"@ + decimal(id_num),
        },
        label: match spec_extract_text_element(npc) {
            Some(t) => t,
            None => "Untitled"@,
        },
        content_src: src,
        file_path: Some(spec_to_standard_content_path(src)),
        file_paths: seq![],
        file_name: None,
        file_names: seq![],
        anchor: None,
        level,
        order,
        children,
    }
}

/// Where the next navigation point of `c` after `pos` starts and ends, and
/// that its nested points are in a shorter text.
pub proof fn lemma_point_bounds(c: Seq<char>, pos: int, ps: int)
    requires
        find_from(c, "<navPoint"@, pos) == Some(ps),
    ensures
        pos <= ps,
        ps + 9 <= c.len(),
        ps < point_close_end(c, ps) <= c.len(),
        point_children_text(c.subrange(ps, point_close_end(c, ps))) matches Some(t) ==> t.len() < c.len(),
{
    reveal_strlit("<navPoint");
    lemma_find_from_bounds(c, "<navPoint"@, pos);
    lemma_match_close_bounds(c.subrange(ps, c.len() as int), "<navPoint"@, "</navPoint>"@, 0, 0);
    let npc = c.subrange(ps, point_close_end(c, ps));
    if npc.len() >= 9 {
        lemma_find_from_bounds(npc, "<navPoint"@, 9);
    }
}

/// The entries parsed from the `<navPoint>` elements of `c` from position
/// `pos` on, numbered from `n` (a point after its nested points), and the
/// next free number.
pub open spec fn navpoint_items(c: Seq<char>, pos: int, level: nat, n: nat, src_first: bool) -> (Seq<TocView>, nat)
    decreases c.len(), c.len() + 1 - pos,
{
    if pos < 0 || pos > c.len() {
        (seq![], n)
    } else {
        match find_from(c, "<navPoint"@, pos) {
            None => (seq![], n),
            Some(ps) => {
                proof {
                    lemma_point_bounds(c, pos, ps);
                }
                let pe = point_close_end(c, ps);
                let npc = c.subrange(ps, pe);
                let sub = match point_children_text(npc) {
                    Some(t) => navpoint_items(t, 0, level + 1, n, src_first),
                    None => (seq![], n),
                };
                let rest = navpoint_items(c, pe, level, sub.1 + 1, src_first);
                (seq![point_entry(npc, level, n, sub.1, src_first, sub.0)] + rest.0, rest.1)
            },
        }
    }
}

/// Parses `<navPoint>` elements; `src_attribute_first` takes the target from
/// the first `src` attribute before `<content src="...">`.
#[verifier::rlimit(80)]
#[verifier::spinoff_prover]
pub(crate) fn parse_navpoints(
    content: &[char],
    level: usize,
    entries: &mut Vec<TocChapterDto>,
    order_counter: &mut usize,
    src_attribute_first: bool,
)
    requires
        *old(order_counter) + content@.len() <= usize::MAX,
        level + content@.len() + 1 <= usize::MAX,
    ensures
        final(entries)@.take(old(entries)@.len() as int) == old(entries)@,
        final(entries)@.len() >= old(entries)@.len(),
        parsed_entries(added(old(entries)@, final(entries)@), level as nat, *old(order_counter) as nat, *final(order_counter) as nat),
        tree_count(toc_views(added(old(entries)@, final(entries)@))) == *final(order_counter) - *old(order_counter),
        *old(order_counter) <= *final(order_counter) <= *old(order_counter) + content@.len(),
        toc_views(added(old(entries)@, final(entries)@)) == navpoint_items(content@, 0, level as nat, *old(order_counter) as nat, src_attribute_first).0,
        *final(order_counter) == navpoint_items(content@, 0, level as nat, *old(order_counter) as nat, src_attribute_first).1,
    decreases content@.len(),
{
    let clen = content.len();
    let ghost e0 = entries@;
    let ghost c0 = *order_counter as nat;
    let ghost goal = navpoint_items(content@, 0, level as nat, c0, src_attribute_first);
    let open = chars_of("<navPoint");
    let close = chars_of("</navPoint>");
    proof {
        reveal_strlit("<navPoint");
        assert(e0.skip(e0.len() as int) =~= Seq::<TocChapterDto>::empty());
        assert(toc_views(e0.skip(e0.len() as int)) =~= Seq::<crate::toc_tree::TocView>::empty());
        assert(toc_views(e0.skip(e0.len() as int)) + goal.0 =~= goal.0);
    }
    let mut search_pos: usize = 0;
    while search_pos <= clen
        invariant
            clen == content@.len(),
            open@ == "<navPoint"@,
            close@ == "</navPoint>"@,
            open@.len() == 9,
            goal == navpoint_items(content@, 0, level as nat, c0, src_attribute_first),
            toc_views(added(e0, entries@)) + navpoint_items(content@, search_pos as int, level as nat, *order_counter as nat, src_attribute_first).0 == goal.0,
            navpoint_items(content@, search_pos as int, level as nat, *order_counter as nat, src_attribute_first).1 == goal.1,
            search_pos <= clen + 1,
            entries@.len() >= e0.len(),
            entries@.take(e0.len() as int) == e0,
            c0 == *old(order_counter),
            c0 <= *order_counter <= c0 + search_pos,
            *order_counter <= c0 + clen,
            c0 + clen <= usize::MAX,
            level + clen + 1 <= usize::MAX,
            parsed_entries(added(e0, entries@), level as nat, c0, *order_counter as nat),
            tree_count(toc_views(added(e0, entries@))) == *order_counter - c0,
    ensures
        navpoint_items(content@, search_pos as int, level as nat, *order_counter as nat, src_attribute_first) == (Seq::<TocView>::empty(), *order_counter as nat),
        decreases clen + 1 - search_pos,
    {
        let ghost sp0 = search_pos as int;
        let ghost n0 = *order_counter as nat;
        proof {
            lemma_find_from_bounds(content@, open@, search_pos as int);
        }
        let point_start = match find_from_exec(content, open.as_slice(), search_pos) {
            Some(p) => p,
            None => {
                proof {
                    assert(navpoint_items(content@, sp0, level as nat, n0, src_attribute_first) == (Seq::<TocView>::empty(), n0));
                }
                break;
            },
        };
        proof {
            lemma_point_bounds(content@, sp0, point_start as int);
        }
        let tail = slice_chars(content, point_start, clen);
        let point_end = match find_matching_close(tail.as_slice(), open.as_slice(), close.as_slice()) {
            Some(e) => {
                proof {
                    lemma_match_close_bounds(tail@, open@, close@, 0, 0);
                }
                point_start + e
            },
            None => clen,
        };
        let npc = slice_chars(content, point_start, point_end);
        proof {
            assert(point_end == point_close_end(content@, point_start as int));
        }
        let ghost before = entries@;
        let ghost cb = *order_counter as nat;
        let id = match extract_attribute_chars(npc.as_slice(), "id") {
            Some(v) => string_of(v.as_slice()),
            None => numbered_id("navpoint-", *order_counter),
        };
        let label = match extract_text_element_chars(npc.as_slice()) {
            Some(t) => t,
            None => chars_of("Untitled"),
        };
        let src = if src_attribute_first {
            match extract_attribute_chars(npc.as_slice(), "src") {
                Some(v) => v,
                None => match extract_content_src_chars(npc.as_slice()) {
                    Some(v) => v,
                    None => Vec::new(),
                },
            }
        } else {
            match extract_content_src_chars(npc.as_slice()) {
                Some(v) => v,
                None => Vec::new(),
            }
        };
        let mut children: Vec<TocChapterDto> = Vec::new();
        if npc.len() >= 9 {
            proof {
                lemma_find_from_bounds(npc@, open@, 9);
            }
            match find_from_exec(npc.as_slice(), open.as_slice(), 9) {
                Some(cs) => {
                    let child_content = slice_chars(npc.as_slice(), cs, npc.len());
                    proof {
                        assert(point_children_text(npc@) == Some(child_content@));
                    }
                    parse_navpoints(child_content.as_slice(), level + 1, &mut children, order_counter, src_attribute_first);
                    proof {
                        assert(children@.skip(0) =~= children@);
                    }
                },
                None => {
                    proof {
                        assert(point_children_text(npc@) is None);
                        assert(toc_views(children@) =~= Seq::<TocView>::empty());
                    }
                },
            }
        } else {
            proof {
                assert(point_children_text(npc@) is None);
                assert(toc_views(children@) =~= Seq::<TocView>::empty());
            }
        }
        let ghost subv = match point_children_text(npc@) {
            Some(t) => navpoint_items(t, 0, level as nat + 1, cb, src_attribute_first),
            None => (Seq::<TocView>::empty(), cb),
        };
        proof {
            assert(toc_views(children@) == subv.0);
            assert(*order_counter == subv.1);
        }
        let order = *order_counter;
        *order_counter = *order_counter + 1;
        let entry = new_entry(id, label, src, level, order, children);
        proof {
            assert(children@.skip(0) =~= children@);
            lemma_parsed_entries_widen(added(e0, before), level as nat, c0, cb, c0, *order_counter as nat);
            lemma_parsed_entries_widen(entry.children@, (level + 1) as nat, cb, order as nat, c0, *order_counter as nat);
            lemma_parsed_entries_push(added(e0, before), entry, level as nat, c0, *order_counter as nat);
        }
        proof {
            assert(src@ == point_src(npc@, src_attribute_first));
            assert(toc_view(entry) =~= point_entry(npc@, level as nat, cb, subv.1, src_attribute_first, subv.0));
            assert(navpoint_items(content@, sp0, level as nat, n0, src_attribute_first) == (
                seq![point_entry(npc@, level as nat, cb, subv.1, src_attribute_first, subv.0)] + navpoint_items(content@, point_end as int, level as nat, subv.1 + 1, src_attribute_first).0,
                navpoint_items(content@, point_end as int, level as nat, subv.1 + 1, src_attribute_first).1,
            ));
        }
        entries.push(entry);
        proof {
            let ghost tb = toc_views(added(e0, before));
            let ghost rest = navpoint_items(content@, point_end as int, level as nat, subv.1 + 1, src_attribute_first).0;
            assert(tb.push(toc_view(entry)) + rest =~= tb + (seq![toc_view(entry)] + rest));
            assert(added(e0, entries@) =~= added(e0, before).push(entry));
            assert(added(e0, entries@).drop_last() =~= added(e0, before));
            assert(toc_views(added(e0, entries@)).drop_last() =~= toc_views(added(e0, before)));
            assert(entry_count(toc_view(entry)) == 1 + tree_count(toc_views(children@)));
            assert(entries@.take(e0.len() as int) =~= e0);
        }
        search_pos = point_end;
    }
}


impl TocManager {
    /// The package path of the file a table-of-contents reference names:
    /// `OEBPS/` and its standard directory, without query or fragment.
    pub fn parse_content_src(content_src: &str, base_path: &str) -> (r: String)
        ensures
            r@ == spec_to_standard_content_path(content_src@),
    {
        to_standard_content_path(content_src)
    }
}

} // verus!
