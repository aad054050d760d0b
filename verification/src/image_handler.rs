//! Replacing remote image links in chapters by downloaded copies: finding
//! the links, naming and registering the images, and the run over all
//! chapters as a state machine whose downloads and writes the caller makes.

use vstd::prelude::*;
use crate::pattern::{
    opt_seq, piece_view, pieces_view, regex_captures, regex_compiles, reassembled, regex_split, split_by_pattern, whole_match, MatchPiece,
};
use crate::text::{
    chars_eq, chars_of, contains, find_from_exec, decimal, decimal_chars, ends_with, extend_chars, extend_str, find,
    find_from, find_str_from, lowercase, lowercase_chars, replace_backslashes, replace_char, rfind_char,
    rfind_char_exec, slice_chars, starts_with, string_of, ends_with_str, starts_with_str,
};
use crate::toc_manager::contains_str_exec;
use crate::epub_path::string_views;
use crate::models::RefactorError;
use crate::analyzer::{lemma_seq_le_total, lemma_seq_le_trans, seq_le, seq_le_exec};
use crate::epub_path::lemma_rfind_char_bounds;
use crate::opf_document::lemma_find_from_bounds;

verus! {

// ---------------------------------------------------------------------------
// File names and manifest entries of downloaded images
// ---------------------------------------------------------------------------

/// The file extension for an image media type; `jpg` for any other.
pub open spec fn spec_extension_from_mime(mime: Seq<char>) -> Seq<char> {
    if mime == "image/jpeg"@ || mime == "image/jpg"@ {
        "jpg"@
    } else if mime == "image/png"@ {
        "png"@
    } else if mime == "image/gif"@ {
        "gif"@
    } else if mime == "image/webp"@ {
        "webp"@
    } else if mime == "image/svg+xml"@ {
        "svg"@
    } else {
        "jpg"@
    }
}

/// The file extension of a downloaded image follows its media type: the
/// subtype itself for PNG, GIF and WebP, `jpg` for JPEG, `svg` for SVG, and
/// `jpg` for any media type not known; so the file of image `n` ends in
/// `.` and that extension.
pub proof fn law_image_extension(sub: Seq<char>, n: nat)
    ensures
        (sub == "png"@ || sub == "gif"@ || sub == "webp"@) ==> spec_extension_from_mime("image/"@ + sub) == sub
            && ends_with(spec_image_filename(n, spec_extension_from_mime("image/"@ + sub)), "."@ + sub),
        (sub == "jpeg"@ || sub == "jpg"@) ==> spec_extension_from_mime("image/"@ + sub) == "jpg"@,
        spec_extension_from_mime("image/svg+xml"@) == "svg"@,
        (sub != "png"@ && sub != "gif"@ && sub != "webp"@ && sub != "jpeg"@ && sub != "jpg"@ && sub != "svg+xml"@)
            ==> spec_extension_from_mime("image/"@ + sub) == "jpg"@,
{
    reveal_strlit("image/");
    reveal_strlit("png");
    reveal_strlit("gif");
    reveal_strlit("webp");
    reveal_strlit("jpeg");
    reveal_strlit("jpg");
    reveal_strlit("svg+xml");
    reveal_strlit("image/jpeg");
    reveal_strlit("image/jpg");
    reveal_strlit("image/png");
    reveal_strlit("image/gif");
    reveal_strlit("image/webp");
    reveal_strlit("image/svg+xml");
    reveal_strlit(".");
    let p = "image/"@;
    assert(p + "png"@ =~= "image/png"@);
    assert(p + "gif"@ =~= "image/gif"@);
    assert(p + "webp"@ =~= "image/webp"@);
    assert(p + "jpeg"@ =~= "image/jpeg"@);
    assert(p + "jpg"@ =~= "image/jpg"@);
    assert(p + "svg+xml"@ =~= "image/svg+xml"@);
    let m = p + sub;
    assert(m == "image/png"@ ==> m.skip(6) =~= "png"@);
    assert(m == "image/gif"@ ==> m.skip(6) =~= "gif"@);
    assert(m == "image/webp"@ ==> m.skip(6) =~= "webp"@);
    assert(m == "image/jpeg"@ ==> m.skip(6) =~= "jpeg"@);
    assert(m == "image/jpg"@ ==> m.skip(6) =~= "jpg"@);
    assert(m == "image/svg+xml"@ ==> m.skip(6) =~= "svg+xml"@);
    assert(m.skip(6) =~= sub);
    if sub == "png"@ || sub == "gif"@ || sub == "webp"@ {
        let f = spec_image_filename(n, sub);
        let pre = "image_"@ + zero_padded(decimal(n), 6);
        assert(f =~= pre + ("."@ + sub));
        assert(f.subrange(f.len() - ("."@ + sub).len(), f.len() as int) =~= "."@ + sub);
        assert(ends_with(f, "."@ + sub));
        assert(sub[0] != 'j');
        assert("jpeg"@[0] == 'j' && "jpg"@[0] == 'j');
        assert(m != "image/jpeg"@ && m != "image/jpg"@);
        assert(spec_extension_from_mime(m) == sub);
    }
}

/// Whether `m` holds the characters of the literal `lit`.
fn is_lit(m: &[char], lit: &str) -> (r: bool)
    ensures
        r == (m@ == lit@),
{
    let l = chars_of(lit);
    chars_eq(m, l.as_slice())
}

/// The file extension for an image media type.
pub fn get_extension_from_mime(mime: &str) -> (r: String)
    ensures
        r@ == spec_extension_from_mime(mime@),
{
    let m = chars_of(mime);
    let m = m.as_slice();
    if is_lit(m, "image/jpeg") || is_lit(m, "image/jpg") {
        "jpg".to_string()
    } else if is_lit(m, "image/png") {
        "png".to_string()
    } else if is_lit(m, "image/gif") {
        "gif".to_string()
    } else if is_lit(m, "image/webp") {
        "webp".to_string()
    } else if is_lit(m, "image/svg+xml") {
        "svg".to_string()
    } else {
        "jpg".to_string()
    }
}

/// A chapter href: under a `text/` directory (in any case, with either
/// slash) and ending in `.xhtml` or `.html`.
pub open spec fn spec_is_chapter_href(href: Seq<char>) -> bool {
    let n = lowercase(replace_char(href, '\\', '/'));
    (starts_with(n, "text/"@) || contains(n, "/text/"@)) && (ends_with(n, ".xhtml"@) || ends_with(n, ".html"@))
}

/// Whether an href names a chapter.
pub fn is_chapter_href(href: &str) -> (r: bool)
    ensures
        r == spec_is_chapter_href(href@),
{
    let h = chars_of(href);
    let slashed = replace_backslashes(h.as_slice());
    let n = lowercase_chars(slashed.as_slice());
    let n = n.as_slice();
    (starts_with_str(n, "text/") || contains_str_exec(n, "/text/")) && (ends_with_str(n, ".xhtml")
        || ends_with_str(n, ".html"))
}

/// The name of the `index`-th downloaded image: `image_`, the index with at
/// least six digits, a dot and the extension.
pub open spec fn spec_image_filename(index: nat, ext: Seq<char>) -> Seq<char> {
    "image_"@ + zero_padded(decimal(index), 6) + "."@ + ext
}

/// `digits` with zeros in front up to `width` characters.
pub open spec fn zero_padded(digits: Seq<char>, width: nat) -> Seq<char> {
    if digits.len() >= width {
        digits
    } else {
        Seq::new((width - digits.len()) as nat, |i: int| '0') + digits
    }
}

/// The file name of the `index`-th downloaded image of media type `mime`.
pub fn image_filename(index: u32, mime: &str) -> (r: String)
    ensures
        r@ == spec_image_filename(index as nat, spec_extension_from_mime(mime@)),
{
    let d = decimal_chars(index as u128);
    let mut out = chars_of("image_");
    let ghost pre = out@;
    let mut k: usize = d.len();
    while k < 6
        invariant
            d.len() <= k <= 6 || (d.len() > 6 && k == d.len()),
            out@ == pre + Seq::new((k - d.len()) as nat, |i: int| '0'),
        decreases 6 - k,
    {
        out.push('0');
        proof {
            assert(out@ =~= pre + Seq::new((k + 1 - d.len()) as nat, |i: int| '0'));
        }
        k += 1;
    }
    proof {
        if d@.len() >= 6 {
            assert(Seq::new((k - d.len()) as nat, |i: int| '0') =~= Seq::<char>::empty());
        }
    }
    extend_chars(&mut out, d.as_slice());
    out.push('.');
    let ext = get_extension_from_mime(mime);
    extend_str(&mut out, ext.as_str());
    proof {
        reveal_strlit("image_");
        reveal_strlit(".");
        assert(out@ =~= spec_image_filename(index as nat, spec_extension_from_mime(mime@)));
    }
    string_of(out.as_slice())
}

/// The part of a file name before its last `.`, or the whole name.
pub open spec fn spec_image_stem(filename: Seq<char>) -> Seq<char> {
    match rfind_char(filename, '.') {
        Some(i) => filename.take(i),
        None => filename,
    }
}

/// The `k`-th id tried for an image: `img_` and the stem, then `_k` from the
/// second try on.
pub open spec fn image_id_candidate(stem: Seq<char>, k: nat) -> Seq<char> {
    if k == 0 {
        "img_"@ + stem
    } else {
        "img_"@ + stem + "_"@ + decimal(k)
    }
}

/// `name="value"`.
pub open spec fn attr(name: Seq<char>, value: Seq<char>) -> Seq<char> {
    name + "=\""@ + value + "\""@
}

/// Whether the `k`-th candidate id is already an id of the document.
pub open spec fn id_taken(opf: Seq<char>, stem: Seq<char>, k: nat) -> bool {
    contains(opf, attr("id"@, image_id_candidate(stem, k)))
}

/// The largest try count: the candidate counter is an `i32`.
pub open spec fn last_candidate() -> nat {
    2147483647
}

/// The manifest entry of an image.
pub open spec fn spec_image_item_line(id: Seq<char>, href: Seq<char>, mime: Seq<char>) -> Seq<char> {
    "    <item "@ + attr("id"@, id) + " "@ + attr("href"@, href) + " "@ + attr("media-type"@, mime) + " />"@
}

/// `line` on a line of its own right after the first `<manifest>`.
pub open spec fn inserted_after_manifest(opf: Seq<char>, line: Seq<char>) -> Option<Seq<char>> {
    match find(opf, "<manifest>"@) {
        Some(p) => Some(opf.take(p + 10) + "\n"@ + line + opf.skip(p + 10)),
        None => None,
    }
}

/// `attr(name, value)` as characters.
fn attr_chars(name: &str, value: &[char]) -> (r: Vec<char>)
    ensures
        r@ == attr(name@, value@),
{
    let mut out = chars_of(name);
    extend_str(&mut out, "=\"");
    extend_chars(&mut out, value);
    extend_str(&mut out, "\"");
    out
}

/// The `k`-th candidate id as characters.
fn image_id_candidate_chars(stem: &[char], k: u32) -> (r: Vec<char>)
    ensures
        r@ == image_id_candidate(stem@, k as nat),
{
    let mut out = chars_of("img_");
    extend_chars(&mut out, stem);
    if k > 0 {
        extend_str(&mut out, "_");
        let d = decimal_chars(k as u128);
        extend_chars(&mut out, d.as_slice());
    }
    out
}

/// Whether `p` occurs in `s`.
fn contains_chars(s: &[char], p: &[char]) -> (r: bool)
    ensures
        r == contains(s@, p@),
{
    find_from_exec(s, p, 0).is_some()
}

/// The package document with a manifest entry for the downloaded image
/// `Images/<image_filename>`: its id is the first of `img_<stem>`,
/// `img_<stem>_1`, `img_<stem>_2`, ... that is not an id of the document,
/// and the entry goes on a line of its own right after `<manifest>`. `None`
/// (nothing to change) when an entry with that href is already there, when
/// there is no `<manifest>`, or when every candidate up to the largest
/// counter value is taken.
#[verifier::loop_isolation(false)]
pub fn manifest_with_image(opf_content: &str, image_filename: &str, mime_type: &str) -> (r: Option<String>)
    ensures
        ({
            let opf = opf_content@;
            let href = "Images/"@ + image_filename@;
            let stem = spec_image_stem(image_filename@);
            match r {
                Some(new_opf) => !contains(opf, attr("href"@, href)) && exists|j: nat|
                    #![trigger image_id_candidate(stem, j)]
                    j <= last_candidate() && !id_taken(opf, stem, j) && (forall|k: nat| k < j ==> #[trigger] id_taken(opf, stem, k))
                        && inserted_after_manifest(opf, spec_image_item_line(image_id_candidate(stem, j), href, mime_type@))
                        == Some(new_opf@),
                None => contains(opf, attr("href"@, href)) || find(opf, "<manifest>"@) is None || (forall|k: nat|
                    k <= last_candidate() ==> #[trigger] id_taken(opf, stem, k)),
            }
        }),
{
    let opf = chars_of(opf_content);
    let fname = chars_of(image_filename);
    let mut href = chars_of("Images/");
    extend_chars(&mut href, fname.as_slice());
    let href_a = attr_chars("href", href.as_slice());
    if contains_chars(opf.as_slice(), href_a.as_slice()) {
        return None;
    }
    let marker = chars_of("<manifest>");
    let pos = match find_from_exec(opf.as_slice(), marker.as_slice(), 0) {
        Some(p) => p,
        None => return None,
    };
    proof {
        lemma_rfind_char_bounds(fname@, '.', fname@.len() as int);
        lemma_find_from_bounds(opf@, marker@, 0);
        reveal_strlit("<manifest>");
    }
    let stem = match rfind_char_exec(fname.as_slice(), '.') {
        Some(i) => slice_chars(fname.as_slice(), 0, i),
        None => fname.clone(),
    };
    assert(stem@ == spec_image_stem(image_filename@));
    assert(marker@.len() == 10);
    let olen = opf.len();
    assert(pos + 10 <= olen);
    let split = pos + 10;
    let head = slice_chars(opf.as_slice(), 0, split);
    let rest = slice_chars(opf.as_slice(), split, opf.len());
    let mut k: u32 = 0;
    loop
        invariant
            k <= last_candidate(),
            forall|j: nat| j < k ==> #[trigger] id_taken(opf@, stem@, j),
        decreases last_candidate() - k,
    {
        let cand = image_id_candidate_chars(stem.as_slice(), k);
        let id_a = attr_chars("id", cand.as_slice());
        if !contains_chars(opf.as_slice(), id_a.as_slice()) {
            break;
        }
        if k == 2147483647 {
            assert forall|j: nat| j <= last_candidate() implies #[trigger] id_taken(opf@, stem@, j) by {
                if j < k {
                } else {
                    assert(j == k);
                }
            }
            return None;
        }
        k += 1;
    }
    let id = image_id_candidate_chars(stem.as_slice(), k);
    let mut line = chars_of("    <item ");
    let a1 = attr_chars("id", id.as_slice());
    extend_chars(&mut line, a1.as_slice());
    extend_str(&mut line, " ");
    let a2 = attr_chars("href", href.as_slice());
    extend_chars(&mut line, a2.as_slice());
    extend_str(&mut line, " ");
    let mv = chars_of(mime_type);
    let a3 = attr_chars("media-type", mv.as_slice());
    extend_chars(&mut line, a3.as_slice());
    extend_str(&mut line, " />");
    let mut out = head;
    out.push('\n');
    extend_chars(&mut out, line.as_slice());
    extend_chars(&mut out, rest.as_slice());
    proof {
        reveal_strlit("\n");
        let ghost j = k as nat;
        assert(inserted_after_manifest(opf@, spec_image_item_line(image_id_candidate(stem@, j), href@, mime_type@))
            == Some(out@));
    }
    Some(string_of(out.as_slice()))
}

/// An occurrence at `i` is found when searching from any earlier point.
proof fn lemma_occurrence_found(s: Seq<char>, p: Seq<char>, i: int, from: int)
    requires
        0 <= from <= i,
        crate::text::occurs_at(s, p, i),
    ensures
        find_from(s, p, from) is Some,
    decreases i - from,
{
    if !crate::text::occurs_at(s, p, from) {
        lemma_occurrence_found(s, p, i, from + 1);
    }
}

/// Registering a downloaded image twice adds one manifest entry: once the
/// package document has the entry, it has the entry's href, so a second
/// registration changes nothing.
pub proof fn law_image_registered_once(opf: Seq<char>, image_filename: Seq<char>, mime: Seq<char>, j: nat)
    requires
        inserted_after_manifest(
            opf,
            spec_image_item_line(image_id_candidate(spec_image_stem(image_filename), j), "Images/"@ + image_filename, mime),
        ) is Some,
    ensures
        contains(
            inserted_after_manifest(
                opf,
                spec_image_item_line(image_id_candidate(spec_image_stem(image_filename), j), "Images/"@ + image_filename, mime),
            )->0,
            attr("href"@, "Images/"@ + image_filename),
        ),
{
    let href = "Images/"@ + image_filename;
    let id = image_id_candidate(spec_image_stem(image_filename), j);
    let line = spec_image_item_line(id, href, mime);
    let p = find(opf, "<manifest>"@)->0;
    let new = inserted_after_manifest(opf, line)->0;
    let head = opf.take(p + 10) + "\n"@;
    let pre = "    <item "@ + attr("id"@, id) + " "@;
    let a = attr("href"@, href);
    let at: int = (head.len() + pre.len()) as int;
    assert(line =~= pre + a + (" "@ + attr("media-type"@, mime) + " />"@));
    assert(new =~= head + pre + a + (" "@ + attr("media-type"@, mime) + " />"@) + opf.skip(p + 10));
    assert(new.subrange(at, at + a.len()) =~= a);
    lemma_occurrence_found(new, a, at, 0);
}

// ---------------------------------------------------------------------------
// Numbering of downloaded images
// ---------------------------------------------------------------------------

/// An ASCII digit.
pub open spec fn is_digit(c: char) -> bool {
    '0' <= c && c <= '9'
}

/// The value of a string of decimal digits.
pub open spec fn digits_value(s: Seq<char>) -> nat
    decreases s.len(),
{
    if s.len() == 0 {
        0
    } else {
        digits_value(s.drop_last()) * 10 + ((s.last() as u32) - 48) as nat
    }
}

/// The digits after an optional leading `+`.
pub open spec fn unsigned_part(s: Seq<char>) -> Seq<char> {
    if s.len() > 0 && s[0] == '+' {
        s.drop_first()
    } else {
        s
    }
}

/// The value of at least one digit that fits in a `u32`.
pub open spec fn parse_digits(d: Seq<char>) -> Option<nat> {
    if d.len() > 0 && (forall|i: int| 0 <= i < d.len() ==> is_digit(#[trigger] d[i])) && digits_value(d) <= u32::MAX {
        Some(digits_value(d))
    } else {
        None
    }
}

/// What `str::parse::<u32>` gives: an optional `+` and at least one digit,
/// with a value that fits in a `u32`.
pub open spec fn spec_parse_u32(s: Seq<char>) -> Option<nat> {
    parse_digits(unsigned_part(s))
}

/// A longer string of digits is worth at least as much as its prefix.
proof fn lemma_digits_value_grows(s: Seq<char>, i: int)
    requires
        0 <= i <= s.len(),
        forall|k: int| 0 <= k < s.len() ==> is_digit(#[trigger] s[k]),
    ensures
        digits_value(s.take(i)) <= digits_value(s),
    decreases s.len() - i,
{
    if i < s.len() {
        lemma_digits_value_grows(s, i + 1);
        let t = s.take(i + 1);
        assert(t.drop_last() =~= s.take(i));
    } else {
        assert(s.take(i) =~= s);
    }
}

/// Parses a `u32` as `str::parse::<u32>` does.
pub fn parse_u32(s: &[char]) -> (r: Option<u32>)
    ensures
        match r {
            Some(v) => spec_parse_u32(s@) == Some(v as nat),
            None => spec_parse_u32(s@) is None,
        },
{
    let start: usize = if s.len() > 0 && s[0] == '+' {
        1
    } else {
        0
    };
    let ghost d = if s@.len() > 0 && s@[0] == '+' {
        s@.drop_first()
    } else {
        s@
    };
    assert(d =~= s@.skip(start as int));
    if start == s.len() {
        return None;
    }
    let mut v: u64 = 0;
    let mut i: usize = start;
    while i < s.len()
        invariant
            start <= i <= s@.len(),
            start == 0 || start == 1,
            d =~= s@.skip(start as int),
            d == unsigned_part(s@),
            d.len() > 0,
            forall|k: int| 0 <= k < i - start ==> is_digit(#[trigger] d[k]),
            v == digits_value(d.take(i - start)),
            v <= u32::MAX,
        decreases s@.len() - i,
    {
        let c = s[i];
        if !('0' <= c && c <= '9') {
            assert(d[i - start] == c);
            assert(!is_digit(d[i - start]));
            assert(!(forall|k: int| 0 <= k < d.len() ==> is_digit(#[trigger] d[k])));
            assert(spec_parse_u32(s@) is None);
            return None;
        }
        let dv = (c as u32 - 48) as u64;
        proof {
            let t = d.take(i + 1 - start);
            assert(t.drop_last() =~= d.take(i - start));
            assert(t.last() == c);
        }
        let nv = v * 10 + dv;
        if nv > 4294967295 {
            proof {
                assert forall|k: int| 0 <= k < i + 1 - start implies is_digit(#[trigger] d[k]) by {
                    if k == i - start {
                        assert(d[k] == c);
                    }
                }
                assert(digits_value(d.take(i + 1 - start)) == nv);
                if forall|k: int| 0 <= k < d.len() ==> is_digit(#[trigger] d[k]) {
                    lemma_digits_value_grows(d, i + 1 - start);
                }
                assert(spec_parse_u32(s@) is None);
            }
            return None;
        }
        v = nv;
        i += 1;
    }
    proof {
        assert(d.take(i - start) =~= d);
    }
    Some(v as u32)
}

/// The number of a file stem `image_<number>`.
pub open spec fn image_number(stem: Seq<char>) -> Option<nat> {
    if starts_with(stem, "image_"@) {
        spec_parse_u32(stem.skip(6))
    } else {
        None
    }
}

/// The largest image number among the file stems, 0 if there is none.
pub open spec fn max_image_number(stems: Seq<Seq<char>>) -> nat
    decreases stems.len(),
{
    if stems.len() == 0 {
        0
    } else {
        let m = max_image_number(stems.drop_last());
        match image_number(stems.last()) {
            Some(v) => if v > m {
                v
            } else {
                m
            },
            None => m,
        }
    }
}

/// The number for the next downloaded image, given the file stems of the
/// images directory (none where it does not exist): one more than the
/// largest `image_<number>`; `None` where that largest number is already
/// the largest `u32`.
pub fn next_image_index(stems: &[String]) -> (r: Option<u32>)
    ensures
        match r {
            Some(v) => v == max_image_number(stems@.map_values(|s: String| s@)) + 1,
            None => max_image_number(stems@.map_values(|s: String| s@)) == u32::MAX,
        },
{
    let ghost sv = stems@.map_values(|s: String| s@);
    let mut max: u32 = 0;
    let mut i: usize = 0;
    while i < stems.len()
        invariant
            i <= stems@.len(),
            sv == stems@.map_values(|s: String| s@),
            max == max_image_number(sv.take(i as int)),
        decreases stems@.len() - i,
    {
        proof {
            let t = sv.take(i + 1);
            assert(t.drop_last() =~= sv.take(i as int));
            assert(t.last() == stems@[i as int]@);
        }
        let st = chars_of(stems[i].as_str());
        if starts_with_str(st.as_slice(), "image_") {
            proof {
                reveal_strlit("image_");
            }
            let rest = slice_chars(st.as_slice(), 6, st.len());
            assert(rest@ =~= st@.skip(6));
            match parse_u32(rest.as_slice()) {
                Some(v) => {
                    if v > max {
                        max = v;
                    }
                },
                None => {},
            }
        }
        i += 1;
    }
    proof {
        assert(sv.take(stems@.len() as int) =~= sv);
    }
    if max == 4294967295 {
        None
    } else {
        Some(max + 1)
    }
}

// ---------------------------------------------------------------------------
// Finding chapters and image links
// ---------------------------------------------------------------------------

/// The text of capture group `g` of a piece, empty where it took no part.
pub open spec fn group_or_empty(p: (Seq<char>, Seq<Option<Seq<char>>>), g: int) -> Seq<char> {
    if 0 <= g < p.1.len() && p.1[g] is Some {
        p.1[g]->0
    } else {
        seq![]
    }
}

/// The text of capture group `g` of a match, empty where it took no part.
fn group_text(p: &MatchPiece, g: usize) -> (r: String)
    ensures
        r@ == group_or_empty(piece_view(*p), g as int),
{
    if g < p.1.len() {
        match &p.1[g] {
            Some(t) => t.clone(),
            None => String::new(),
        }
    } else {
        String::new()
    }
}

/// The `(id, href)` of each manifest item match with both non-empty, the
/// href with forward slashes, in document order.
pub open spec fn item_pairs(ps: Seq<(Seq<char>, Seq<Option<Seq<char>>>)>) -> Seq<(Seq<char>, Seq<char>)>
    decreases ps.len(),
{
    if ps.len() == 0 {
        seq![]
    } else {
        let prev = item_pairs(ps.drop_last());
        let id = group_or_empty(ps.last(), 1);
        let href = replace_char(group_or_empty(ps.last(), 2), '\\', '/');
        if id.len() > 0 && href.len() > 0 {
            prev.push((id, href))
        } else {
            prev
        }
    }
}

/// The value of the last pair with key `key` (a map where a later entry
/// replaces an earlier one).
pub open spec fn last_value(pairs: Seq<(Seq<char>, Seq<char>)>, key: Seq<char>) -> Option<Seq<char>>
    decreases pairs.len(),
{
    if pairs.len() == 0 {
        None
    } else if pairs.last().0 == key {
        Some(pairs.last().1)
    } else {
        last_value(pairs.drop_last(), key)
    }
}

/// The chapter paths of the spine references, in spine order: each
/// reference whose item has a chapter href, as `OEBPS/<href>`.
pub open spec fn spine_chapters(refs: Seq<(Seq<char>, Seq<Option<Seq<char>>>)>, items: Seq<(Seq<char>, Seq<char>)>) -> Seq<Seq<char>>
    decreases refs.len(),
{
    if refs.len() == 0 {
        seq![]
    } else {
        let prev = spine_chapters(refs.drop_last(), items);
        match last_value(items, group_or_empty(refs.last(), 1)) {
            Some(h) => if spec_is_chapter_href(h) {
                prev.push("OEBPS/"@ + h)
            } else {
                prev
            },
            None => prev,
        }
    }
}

/// The pattern of a manifest item with an id and an href.
pub open spec fn item_pattern() -> Seq<char> {
    "<item\\s+[^>]*id=\"([^\"]+)\"[^>]*href=\"([^\"]+)\"[^>]*/?>"@
}

/// The pattern of a spine reference.
pub open spec fn itemref_pattern() -> Seq<char> {
    "<itemref\\s+[^>]*idref=\"([^\"]+)\"[^>]*/?>"@
}

/// The last value of `key` in the pairs.
fn last_value_exec(pairs: &Vec<(String, String)>, key: &[char]) -> (r: Option<String>)
    ensures
        opt_seq(r) == last_value(pairs@.map_values(|p: (String, String)| (p.0@, p.1@)), key@),
{
    let ghost pv = pairs@.map_values(|p: (String, String)| (p.0@, p.1@));
    let mut end = pairs.len();
    assert(pv.take(end as int) =~= pv);
    while end > 0
        invariant
            end <= pairs@.len(),
            pv == pairs@.map_values(|p: (String, String)| (p.0@, p.1@)),
            last_value(pv, key@) == last_value(pv.take(end as int), key@),
        decreases end,
    {
        proof {
            let t = pv.take(end as int);
            assert(t.drop_last() =~= pv.take(end - 1));
            assert(t.last() == pv[end - 1]);
        }
        let k = chars_of(pairs[end - 1].0.as_str());
        if chars_eq(k.as_slice(), key) {
            return Some(pairs[end - 1].1.clone());
        }
        end -= 1;
    }
    None
}

/// The chapter paths of a package document in spine order: the spine
/// references whose manifest item (the last with that id) has a chapter
/// href, each as `OEBPS/<href>`; an error exactly when a pattern does not
/// compile, naming the manifest pattern where that one fails.
pub fn chapters_by_spine(opf_content: &str) -> (r: Result<Vec<String>, RefactorError>)
    ensures
        r is Ok <==> regex_compiles(item_pattern()) && regex_compiles(itemref_pattern()),
        r matches Err(e) ==> e matches RefactorError::IoError(m) && m@ == if regex_compiles(item_pattern()) {
            "解析 spine 规则失败"@
        } else {
            "解析 manifest 规则失败"@
        },
        r matches Ok(v) ==> string_views(v@) == spine_chapters(
            regex_split(itemref_pattern(), opf_content@).0,
            item_pairs(regex_split(item_pattern(), opf_content@).0),
        ),
{
    let items = match regex_captures("<item\\s+[^>]*id=\"([^\"]+)\"[^>]*href=\"([^\"]+)\"[^>]*/?>", opf_content) {
        Some(v) => v.0,
        None => return Err(RefactorError::IoError("解析 manifest 规则失败".to_string())),
    };
    let refs = match regex_captures("<itemref\\s+[^>]*idref=\"([^\"]+)\"[^>]*/?>", opf_content) {
        Some(v) => v.0,
        None => return Err(RefactorError::IoError("解析 spine 规则失败".to_string())),
    };
    let ghost iv = pieces_view(items@);
    let ghost rv = pieces_view(refs@);
    let mut pairs: Vec<(String, String)> = Vec::new();
    let mut i: usize = 0;
    while i < items.len()
        invariant
            i <= items@.len(),
            iv == pieces_view(items@),
            pairs@.map_values(|p: (String, String)| (p.0@, p.1@)) == item_pairs(iv.take(i as int)),
        decreases items@.len() - i,
    {
        proof {
            let t = iv.take(i + 1);
            assert(t.drop_last() =~= iv.take(i as int));
            assert(t.last() == piece_view(items@[i as int]));
        }
        let id = group_text(&items[i], 1);
        let idc = chars_of(id.as_str());
        let raw = group_text(&items[i], 2);
        let hc = chars_of(raw.as_str());
        let href = replace_backslashes(hc.as_slice());
        if idc.len() > 0 && href.len() > 0 {
            let ghost before = pairs@;
            pairs.push((id, string_of(href.as_slice())));
            proof {
                assert(pairs@.map_values(|p: (String, String)| (p.0@, p.1@)) =~= before.map_values(
                    |p: (String, String)| (p.0@, p.1@),
                ).push((id@, href@)));
            }
        }
        i += 1;
    }
    proof {
        assert(iv.take(items@.len() as int) =~= iv);
    }
    let mut chapters: Vec<String> = Vec::new();
    let mut j: usize = 0;
    while j < refs.len()
        invariant
            j <= refs@.len(),
            rv == pieces_view(refs@),
            pairs@.map_values(|p: (String, String)| (p.0@, p.1@)) == item_pairs(iv),
            string_views(chapters@) == spine_chapters(rv.take(j as int), item_pairs(iv)),
        decreases refs@.len() - j,
    {
        proof {
            let t = rv.take(j + 1);
            assert(t.drop_last() =~= rv.take(j as int));
            assert(t.last() == piece_view(refs@[j as int]));
        }
        let idref = group_text(&refs[j], 1);
        let ic = chars_of(idref.as_str());
        match last_value_exec(&pairs, ic.as_slice()) {
            Some(h) => {
                if is_chapter_href(h.as_str()) {
                    let mut path = chars_of("OEBPS/");
                    extend_str(&mut path, h.as_str());
                    let ghost before = chapters@;
                    chapters.push(string_of(path.as_slice()));
                    proof {
                        assert(string_views(chapters@) =~= string_views(before).push(path@));
                    }
                }
            },
            None => {},
        }
        j += 1;
    }
    proof {
        assert(rv.take(refs@.len() as int) =~= rv);
    }
    Ok(chapters)
}

/// The ASCII lowercase of a character.
pub open spec fn ascii_lower(c: char) -> char {
    if 'A' <= c && c <= 'Z' {
        ((c as u32) + 32) as char
    } else {
        c
    }
}

/// Equal up to ASCII case, as `str::eq_ignore_ascii_case` compares.
pub open spec fn eq_ignore_ascii_case(a: Seq<char>, b: Seq<char>) -> bool {
    a.len() == b.len() && forall|i: int| 0 <= i < a.len() ==> ascii_lower(#[trigger] a[i]) == ascii_lower(b[i])
}

/// A file name whose extension (after its last `.`, which does not begin
/// the name) is `xhtml` in any ASCII case.
pub open spec fn has_xhtml_extension(name: Seq<char>) -> bool {
    match rfind_char(name, '.') {
        Some(i) => i > 0 && eq_ignore_ascii_case(name.skip(i + 1), "xhtml"@),
        None => false,
    }
}

/// The chapter paths of the text directory when the spine gives none: each
/// `.xhtml` file as `OEBPS/Text/<name>`, in listing order.
pub open spec fn text_dir_chapters(names: Seq<Seq<char>>) -> Seq<Seq<char>>
    decreases names.len(),
{
    if names.len() == 0 {
        seq![]
    } else if has_xhtml_extension(names.last()) {
        text_dir_chapters(names.drop_last()).push("OEBPS/Text/"@ + names.last())
    } else {
        text_dir_chapters(names.drop_last())
    }
}

/// Ordered as `String`s compare.
pub open spec fn sorted_strs(s: Seq<Seq<char>>) -> bool {
    forall|i: int, j: int| 0 <= i < j < s.len() ==> seq_le(#[trigger] s[i], #[trigger] s[j])
}

/// The ASCII lowercase of a character.
fn ascii_lower_exec(c: char) -> (r: char)
    ensures
        r == ascii_lower(c),
{
    if 'A' <= c && c <= 'Z' {
        ((c as u32) + 32) as u8 as char
    } else {
        c
    }
}

/// Whether a file name has the extension `xhtml` in any ASCII case.
fn has_xhtml_extension_exec(name: &[char]) -> (r: bool)
    ensures
        r == has_xhtml_extension(name@),
{
    proof {
        lemma_rfind_char_bounds(name@, '.', name@.len() as int);
        reveal_strlit("xhtml");
    }
    match rfind_char_exec(name, '.') {
        Some(i) => {
            if i == 0 {
                return false;
            }
            let nlen = name.len();
            assert(i < nlen);
            let ext = slice_chars(name, i + 1, nlen);
            let want = chars_of("xhtml");
            if ext.len() != want.len() {
                return false;
            }
            let mut k: usize = 0;
            while k < ext.len()
                invariant
                    k <= ext@.len(),
                    ext@.len() == want@.len(),
                    ext@ == name@.skip(i + 1),
                    rfind_char(name@, '.') == Some(i as int),
                    i > 0,
                    want@ == "xhtml"@,
                    forall|j: int| 0 <= j < k ==> ascii_lower(#[trigger] ext@[j]) == ascii_lower(want@[j]),
                decreases ext@.len() - k,
            {
                if ascii_lower_exec(ext[k]) != ascii_lower_exec(want[k]) {
                    assert(!eq_ignore_ascii_case(name@.skip(i + 1), "xhtml"@)) by {
                        assert(ascii_lower(ext@[k as int]) != ascii_lower(want@[k as int]));
                    }
                    return false;
                }
                k += 1;
            }
            true
        },
        None => false,
    }
}

/// Inserting `x` where the scan stopped keeps the list ordered.
proof fn lemma_insert_keeps_sorted(s: Seq<Seq<char>>, x: Seq<char>, p: int)
    requires
        sorted_strs(s),
        0 <= p <= s.len(),
        p == 0 || seq_le(s[p - 1], x),
        forall|k: int| p <= k < s.len() ==> !seq_le(#[trigger] s[k], x),
    ensures
        sorted_strs(s.insert(p, x)),
{
    let r = s.insert(p, x);
    assert forall|i: int, j: int| 0 <= i < j < r.len() implies seq_le(#[trigger] r[i], #[trigger] r[j]) by {
        if i < p && j == p {
            if i < p - 1 {
                lemma_seq_le_trans(s[i], s[p - 1], x);
            }
        } else if i == p {
            lemma_seq_le_total(s[j - 1], x);
        } else if i < p && j > p {
            assert(r[j] == s[j - 1]);
        } else if i > p {
            assert(r[i] == s[i - 1] && r[j] == s[j - 1]);
        }
    }
}

/// The strings ordered as `String`s compare.
pub(crate) fn sort_strings(v: Vec<String>) -> (r: Vec<String>)
    ensures
        sorted_strs(string_views(r@)),
        string_views(r@).to_multiset() == string_views(v@).to_multiset(),
{
    broadcast use vstd::seq_lib::group_to_multiset_ensures;
    let ghost all = string_views(v@);
    let mut out: Vec<String> = Vec::new();
    let n = v.len();
    let mut i: usize = 0;
    while i < n
        invariant
            n == v@.len(),
            i <= n,
            all == string_views(v@),
            sorted_strs(string_views(out@)),
            string_views(out@).to_multiset() == all.take(i as int).to_multiset(),
        decreases n - i,
    {
        let x = v[i].clone();
        let key = chars_of(x.as_str());
        let mut p = out.len();
        while p > 0 && !seq_le_exec(chars_of(out[p - 1].as_str()).as_slice(), key.as_slice())
            invariant
                p <= out@.len(),
                forall|k: int| p <= k < out@.len() ==> !seq_le(#[trigger] out@[k]@, key@),
            decreases p,
        {
            p -= 1;
        }
        let ghost sv = string_views(out@);
        proof {
            assert forall|k: int| p <= k < sv.len() implies !seq_le(#[trigger] sv[k], key@) by {
                assert(sv[k] == out@[k]@);
            }
            lemma_insert_keeps_sorted(sv, key@, p as int);
            vstd::seq_lib::to_multiset_insert(sv, p as int, key@);
            let t = all.take(i + 1);
            assert(all[i as int] == key@);
            assert(t =~= all.take(i as int).push(key@));
        }
        out.insert(p, x);
        proof {
            assert(string_views(out@) =~= sv.insert(p as int, key@));
            vstd::seq_lib::to_multiset_build(all.take(i as int), key@);
            assert(all.take(i + 1).to_multiset() == all.take(i as int).to_multiset().insert(key@));
        }
        i += 1;
    }
    proof {
        assert(all.take(n as int) =~= all);
    }
    out
}

/// The chapter paths of the text directory, given the names of its files:
/// each `.xhtml` file (in any ASCII case) as `OEBPS/Text/<name>`, ordered
/// as strings compare.
pub fn text_dir_chapter_files(names: &[String]) -> (r: Vec<String>)
    ensures
        sorted_strs(string_views(r@)),
        string_views(r@).to_multiset() == text_dir_chapters(string_views(names@)).to_multiset(),
{
    let ghost nv = string_views(names@);
    let mut found: Vec<String> = Vec::new();
    let mut i: usize = 0;
    while i < names.len()
        invariant
            i <= names@.len(),
            nv == string_views(names@),
            string_views(found@) == text_dir_chapters(nv.take(i as int)),
        decreases names@.len() - i,
    {
        proof {
            let t = nv.take(i + 1);
            assert(t.drop_last() =~= nv.take(i as int));
            assert(t.last() == names@[i as int]@);
        }
        let name = chars_of(names[i].as_str());
        if has_xhtml_extension_exec(name.as_slice()) {
            let mut path = chars_of("OEBPS/Text/");
            extend_chars(&mut path, name.as_slice());
            let ghost before = found@;
            found.push(string_of(path.as_slice()));
            proof {
                assert(string_views(found@) =~= string_views(before).push(path@));
            }
        }
        i += 1;
    }
    proof {
        assert(nv.take(names@.len() as int) =~= nv);
    }
    sort_strings(found)
}

} // verus!
