//! Paths inside an EPUB package: splitting references, normalizing,
//! resolving and relativizing, and the standard `OEBPS/` layout.

use vstd::prelude::*;
use vstd::utf8::{decode_utf8, encode_utf8, valid_utf8};
use crate::text::{
    chars_eq, chars_of, ends_with, extend_chars, find_char_from, lowercase, lowercase_chars, replace_backslashes,
    contains_string, decimal, decimal_chars, replace_char, rfind_char, rfind_char_below, rfind_char_exec, slice_chars, starts_with,
    starts_with_exec, string_of, trim, trim_chars, ends_with_exec, extend_str, find_char_exec,
};

verus! {

// ---------------------------------------------------------------------------
// Specification
// ---------------------------------------------------------------------------

/// The characters of `"OEBPS/"`.
pub open spec fn oebps() -> Seq<char> {
    seq!['O', 'E', 'B', 'P', 'S', '/']
}

/// A reference's path ends at its first `#` or `?`.
pub open spec fn is_suffix_start(c: char) -> bool {
    c == '#' || c == '?'
}

/// The first position at or after `i` holding `#` or `?`, or the length.
pub open spec fn suffix_pos_from(r: Seq<char>, i: int) -> int
    decreases r.len() - i,
{
    if i < 0 || i >= r.len() {
        r.len() as int
    } else if is_suffix_start(r[i]) {
        i
    } else {
        suffix_pos_from(r, i + 1)
    }
}

/// Where the query/fragment suffix of `r` starts.
pub open spec fn suffix_pos(r: Seq<char>) -> int {
    suffix_pos_from(r, 0)
}

/// The file path of a reference.
pub open spec fn path_part(r: Seq<char>) -> Seq<char> {
    r.take(suffix_pos(r))
}

/// The query/fragment suffix of a reference (empty or starting with `#`/`?`).
pub open spec fn suffix_part(r: Seq<char>) -> Seq<char> {
    r.skip(suffix_pos(r))
}

/// The value of a hexadecimal digit byte.
pub open spec fn hex_digit(b: u8) -> Option<u8> {
    if 48 <= b && b <= 57 {
        Some((b - 48) as u8)
    } else if 97 <= b && b <= 102 {
        Some((b - 97 + 10) as u8)
    } else if 65 <= b && b <= 70 {
        Some((b - 65 + 10) as u8)
    } else {
        None
    }
}

/// `%XX` escapes decoded byte-wise from position `i` on; anything else kept.
pub open spec fn pct_decode_from(b: Seq<u8>, i: int) -> Seq<u8>
    decreases b.len() - i,
{
    if i < 0 || i >= b.len() {
        seq![]
    } else if b[i] == 37 && i + 2 < b.len() && hex_digit(b[i + 1]) is Some && hex_digit(
        b[i + 2],
    ) is Some {
        seq![(hex_digit(b[i + 1])->0 * 16 + hex_digit(b[i + 2])->0) as u8] + pct_decode_from(
            b,
            i + 3,
        )
    } else {
        seq![b[i]] + pct_decode_from(b, i + 1)
    }
}

/// Percent-decoding of a path: the UTF-8 bytes with `%XX` escapes decoded,
/// read back as UTF-8; the input unchanged when that is not valid UTF-8.
/// Without a `%` the bytes are unchanged, so the input comes back.
pub open spec fn percent_decode(s: Seq<char>) -> Seq<char> {
    if !s.contains('%') {
        s
    } else {
        let d = pct_decode_from(encode_utf8(s), 0);
        if valid_utf8(d) {
            decode_utf8(d)
        } else {
            s
        }
    }
}

/// `s` without its leading slashes.
pub open spec fn trim_leading_slashes(s: Seq<char>) -> Seq<char>
    decreases s.len(),
{
    if s.len() > 0 && s[0] == '/' {
        trim_leading_slashes(s.drop_first())
    } else {
        s
    }
}

/// `s` without repeated leading `./`.
pub open spec fn strip_dot_slash(s: Seq<char>) -> Seq<char>
    decreases s.len(),
{
    if s.len() >= 2 && s[0] == '.' && s[1] == '/' {
        strip_dot_slash(s.skip(2))
    } else {
        s
    }
}

/// Normal form of a path without suffix: decoded, forward slashes, no
/// leading `/` and no leading `./`.
pub open spec fn normalize_part(p: Seq<char>) -> Seq<char> {
    strip_dot_slash(trim_leading_slashes(replace_char(percent_decode(p), '\\', '/')))
}

/// Normal form of the path of a reference, its suffix dropped.
pub open spec fn spec_normalize(p: Seq<char>) -> Seq<char> {
    normalize_part(path_part(p))
}

/// Normal form of a reference, its suffix kept.
pub open spec fn spec_normalize_reference(r: Seq<char>) -> Seq<char> {
    normalize_part(path_part(r)) + suffix_part(r)
}

/// The normalized path without its `OEBPS/` prefix.
pub open spec fn spec_strip_oebps_prefix(p: Seq<char>) -> Seq<char> {
    let n = spec_normalize(p);
    if starts_with(n, oebps()) {
        n.skip(6)
    } else {
        n
    }
}

/// The normalized path with an `OEBPS/` prefix.
pub open spec fn spec_manifest_path(h: Seq<char>) -> Seq<char> {
    let n = spec_normalize(h);
    if starts_with(n, oebps()) {
        n
    } else {
        oebps() + n
    }
}

/// The directory part of the normalized path (empty when it has none).
pub open spec fn spec_parent(p: Seq<char>) -> Seq<char> {
    let n = spec_normalize(p);
    match rfind_char(n, '/') {
        Some(i) => n.take(i),
        None => seq![],
    }
}

/// The last component of the normalized path.
pub open spec fn spec_filename(p: Seq<char>) -> Seq<char> {
    let n = spec_normalize(p);
    match rfind_char(n, '/') {
        Some(i) => n.skip(i + 1),
        None => n,
    }
}

/// The case-insensitive key of a path.
pub open spec fn spec_casefold(p: Seq<char>) -> Seq<char> {
    lowercase(spec_normalize(p))
}

/// `dir/stem-N.ext` for the normalized `dir/stem.ext`.
pub open spec fn spec_append_filename_suffix(path: Seq<char>, suffix: nat) -> Seq<char> {
    let n = spec_normalize(path);
    let dir = match rfind_char(n, '/') {
        Some(i) => n.take(i + 1),
        None => seq![],
    };
    let file = match rfind_char(n, '/') {
        Some(i) => n.skip(i + 1),
        None => n,
    };
    let stem = match rfind_char(file, '.') {
        Some(j) => file.take(j),
        None => file,
    };
    let ext = match rfind_char(file, '.') {
        Some(j) => file.skip(j),
        None => seq![],
    };
    dir + stem + seq!['-'] + decimal(suffix) + ext
}

/// References that are not files of the package: fragments, data URIs,
/// web links, mail links and scripts.
pub open spec fn spec_should_skip_reference(r: Seq<char>) -> bool {
    let t = trim(r);
    let lower = lowercase(t);
    ||| starts_with(t, seq!['#'])
    ||| starts_with(lower, seq!['d', 'a', 't', 'a', ':'])
    ||| starts_with(lower, seq!['h', 't', 't', 'p', ':', '/', '/'])
    ||| starts_with(lower, seq!['h', 't', 't', 'p', 's', ':', '/', '/'])
    ||| starts_with(lower, seq!['m', 'a', 'i', 'l', 't', 'o', ':'])
    ||| starts_with(lower, seq!['j', 'a', 'v', 'a', 's', 'c', 'r', 'i', 'p', 't', ':'])
}

/// The non-empty `/`-separated components of `s[start..]`, the one in
/// progress starting at `start` and the scan at `i`.
pub open spec fn segs(s: Seq<char>, start: int, i: int) -> Seq<Seq<char>>
    decreases s.len() - i,
{
    if i >= s.len() {
        if start < s.len() && 0 <= start {
            seq![s.subrange(start, s.len() as int)]
        } else {
            seq![]
        }
    } else if i < 0 {
        seq![]
    } else if s[i] == '/' {
        if start < i {
            seq![s.subrange(start, i)] + segs(s, i + 1, i + 1)
        } else {
            segs(s, i + 1, i + 1)
        }
    } else {
        segs(s, start, i + 1)
    }
}

/// The non-empty `/`-separated components of `s`.
pub open spec fn segments(s: Seq<char>) -> Seq<Seq<char>> {
    segs(s, 0, 0)
}

/// The components joined with `/`.
pub open spec fn join(parts: Seq<Seq<char>>) -> Seq<char>
    decreases parts.len(),
{
    if parts.len() == 0 {
        seq![]
    } else if parts.len() == 1 {
        parts[0]
    } else {
        join(parts.drop_last()) + seq!['/'] + parts.last()
    }
}

/// `..` goes one component up (nothing above the root), `.` stays, any
/// other component goes down.
pub open spec fn apply_parts(base: Seq<Seq<char>>, parts: Seq<Seq<char>>) -> Seq<Seq<char>>
    decreases parts.len(),
{
    if parts.len() == 0 {
        base
    } else {
        let p = parts[0];
        let next = if p == seq!['.', '.'] {
            if base.len() == 0 {
                base
            } else {
                base.drop_last()
            }
        } else if p == seq!['.'] {
            base
        } else {
            base.push(p)
        };
        apply_parts(next, parts.drop_first())
    }
}

/// The package path that `reference` names from the directory `base_dir`.
pub open spec fn spec_resolve_relative(base_dir: Seq<char>, reference: Seq<char>) -> Seq<char> {
    let nbase = spec_normalize(base_dir);
    let nref = spec_normalize(path_part(reference));
    if starts_with(nref, oebps()) {
        nref
    } else {
        let base = if starts_with(reference, seq!['/']) {
            Seq::<Seq<char>>::empty()
        } else {
            segments(nbase)
        };
        join(apply_parts(base, segments(nref)))
    }
}

/// The number of leading components that `a` and `b` share.
pub open spec fn common_len(a: Seq<Seq<char>>, b: Seq<Seq<char>>) -> nat
    decreases a.len(),
{
    if a.len() == 0 || b.len() == 0 || a[0] != b[0] {
        0
    } else {
        1 + common_len(a.drop_first(), b.drop_first())
    }
}

/// `n` components `..`.
pub open spec fn ups(n: nat) -> Seq<Seq<char>> {
    Seq::new(n, |i: int| seq!['.', '.'])
}

/// The components of the relative path from `from_dir` to `to_path`.
pub open spec fn relative_parts(from_dir: Seq<char>, to_path: Seq<char>) -> Seq<Seq<char>> {
    let f = segments(spec_normalize(from_dir));
    let t = segments(spec_normalize(to_path));
    let c = common_len(f, t);
    ups((f.len() - c) as nat) + t.skip(c as int)
}

/// The relative reference from the directory `from_dir` to `to_path`.
/// When both name the same place the last component is given.
pub open spec fn spec_relative_path(from_dir: Seq<char>, to_path: Seq<char>) -> Seq<char> {
    let t = segments(spec_normalize(to_path));
    let parts = relative_parts(from_dir, to_path);
    if parts.len() == 0 {
        if t.len() == 0 {
            seq![]
        } else {
            t.last()
        }
    } else {
        join(parts)
    }
}

/// The first-level directories of the standard layout.
pub open spec fn standard_dirs() -> Seq<Seq<char>> {
    seq![
        seq!['T', 'e', 'x', 't', '/'],
        seq!['S', 't', 'y', 'l', 'e', 's', '/'],
        seq!['I', 'm', 'a', 'g', 'e', 's', '/'],
        seq!['F', 'o', 'n', 't', 's', '/'],
        seq!['M', 'i', 's', 'c', '/'],
    ]
}

/// `p` starts with one of the standard directories.
pub open spec fn spec_has_standard_dir_prefix(p: Seq<char>) -> bool {
    exists|k: int| 0 <= k < 5 && starts_with(p, #[trigger] standard_dirs()[k])
}

/// `h` names an XHTML/HTML document.
pub open spec fn spec_is_text_document_href(h: Seq<char>) -> bool {
    let lower = lowercase(spec_normalize(h));
    ends_with(lower, seq!['.', 'x', 'h', 't', 'm', 'l']) || ends_with(
        lower,
        seq!['.', 'h', 't', 'm', 'l'],
    )
}

/// `p` names a text file whose references are worth scanning.
pub open spec fn spec_is_text_like_file(p: Seq<char>) -> bool {
    let lower = lowercase(spec_normalize(p));
    ||| ends_with(lower, seq!['.', 'x', 'h', 't', 'm', 'l'])
    ||| ends_with(lower, seq!['.', 'h', 't', 'm', 'l'])
    ||| ends_with(lower, seq!['.', 'x', 'm', 'l'])
    ||| ends_with(lower, seq!['.', 'c', 's', 's'])
    ||| ends_with(lower, seq!['.', 's', 'v', 'g'])
}

/// The standard path of a navigation target: `OEBPS/` paths kept, standard
/// directories prefixed with `OEBPS/`, bare documents put under `OEBPS/Text/`.
pub open spec fn spec_to_standard_content_path(cs: Seq<char>) -> Seq<char> {
    let p = spec_normalize(cs);
    if cs.len() == 0 {
        seq![]
    } else if starts_with(p, oebps()) {
        p
    } else if spec_has_standard_dir_prefix(p) {
        oebps() + p
    } else if spec_is_text_document_href(p) {
        oebps() + seq!['T', 'e', 'x', 't', '/'] + p
    } else {
        oebps() + p
    }
}

/// The fragment of a reference: what follows its first `#`, if anything.
pub open spec fn spec_reference_anchor(r: Seq<char>) -> Option<Seq<char>> {
    match find_char_from(r, '#', 0) {
        Some(i) => if i + 1 < r.len() {
            Some(r.skip(i + 1))
        } else {
            None
        },
        None => None,
    }
}

// ---------------------------------------------------------------------------
// Executable functions over characters
// ---------------------------------------------------------------------------

fn oebps_chars() -> (r: Vec<char>)
    ensures
        r@ == oebps(),
{
    vec!['O', 'E', 'B', 'P', 'S', '/']
}

/// Whether `p` starts with `OEBPS/`.
pub fn starts_with_oebps(p: &[char]) -> (r: bool)
    ensures
        r == starts_with(p@, oebps()),
{
    let o = oebps_chars();
    starts_with_exec(p, o.as_slice())
}

/// Where the suffix of the reference `r` starts.
pub fn suffix_pos_exec(r: &[char]) -> (p: usize)
    ensures
        p == suffix_pos(r@),
        p <= r@.len(),
{
    let mut i: usize = 0;
    while i < r.len()
        invariant
            i <= r@.len(),
            suffix_pos_from(r@, i as int) == suffix_pos(r@),
        decreases r@.len() - i,
    {
        if r[i] == '#' || r[i] == '?' {
            return i;
        }
        i += 1;
    }
    i
}

fn hex_value(b: u8) -> (r: Option<u8>)
    ensures
        r == hex_digit(b),
{
    if 48 <= b && b <= 57 {
        Some(b - 48)
    } else if 97 <= b && b <= 102 {
        Some(b - 97 + 10)
    } else if 65 <= b && b <= 70 {
        Some(b - 65 + 10)
    } else {
        None
    }
}

/// `String::from_utf8`: the string the bytes encode, if they are UTF-8.
#[verifier::external_body]
fn string_from_utf8(bytes: Vec<u8>) -> (r: Option<String>)
    ensures
        match r {
            Some(s) => valid_utf8(bytes@) && s@ == decode_utf8(bytes@),
            None => !valid_utf8(bytes@),
        },
{
    match String::from_utf8(bytes) {
        Ok(s) => Some(s),
        Err(_) => None,
    }
}

fn has_percent(s: &[char]) -> (r: bool)
    ensures
        r == s@.contains('%'),
{
    let mut i: usize = 0;
    while i < s.len()
        invariant
            i <= s@.len(),
            forall|j: int| 0 <= j < i ==> s@[j] != '%',
        decreases s@.len() - i,
    {
        if s[i] == '%' {
            assert(s@[i as int] == '%');
            return true;
        }
        i += 1;
    }
    false
}

fn pct_decode_bytes(b: &[u8]) -> (r: Vec<u8>)
    ensures
        r@ == pct_decode_from(b@, 0),
{
    let mut out: Vec<u8> = Vec::new();
    let mut i: usize = 0;
    while i < b.len()
        invariant
            i <= b@.len(),
            out@ + pct_decode_from(b@, i as int) == pct_decode_from(b@, 0),
        decreases b@.len() - i,
    {
        if b[i] == 37 && b.len() - i > 2 {
            let hi = hex_value(b[i + 1]);
            let lo = hex_value(b[i + 2]);
            match (hi, lo) {
                (Some(h), Some(l)) => {
                    let v: u8 = h * 16 + l;
                    let ghost before = out@;
                    out.push(v);
                    assert(pct_decode_from(b@, i as int) == seq![v] + pct_decode_from(
                        b@,
                        i + 3,
                    ));
                    assert(before + pct_decode_from(b@, i as int) =~= out@ + pct_decode_from(
                        b@,
                        i + 3,
                    ));
                    i += 3;
                    continue ;
                },
                _ => {},
            }
        }
        let ghost before = out@;
        out.push(b[i]);
        assert(pct_decode_from(b@, i as int) == seq![b@[i as int]] + pct_decode_from(
            b@,
            i + 1,
        ));
        assert(before + pct_decode_from(b@, i as int) =~= out@ + pct_decode_from(b@, i + 1));
        i += 1;
    }
    assert(out@ + seq![] =~= out@);
    out
}

/// Percent-decoding of the characters `s`.
pub fn percent_decode_chars(s: &[char]) -> (r: Vec<char>)
    ensures
        r@ == percent_decode(s@),
{
    if !has_percent(s) {
        return slice_chars(s, 0, s.len());
    }
    let st = string_of(s);
    let bytes = st.as_str().as_bytes();
    let decoded = pct_decode_bytes(bytes);
    match string_from_utf8(decoded) {
        Some(d) => chars_of(d.as_str()),
        None => slice_chars(s, 0, s.len()),
    }
}

pub fn trim_leading_slashes_chars(s: &[char]) -> (r: Vec<char>)
    ensures
        r@ == trim_leading_slashes(s@),
{
    let mut i: usize = 0;
    assert(s@.skip(0) =~= s@);
    while i < s.len() && s[i] == '/'
        invariant
            i <= s@.len(),
            trim_leading_slashes(s@) == trim_leading_slashes(s@.skip(i as int)),
        decreases s@.len() - i,
    {
        assert(s@.skip(i as int).drop_first() =~= s@.skip(i + 1));
        i += 1;
    }
    assert(s@.skip(i as int) =~= s@.subrange(i as int, s@.len() as int));
    slice_chars(s, i, s.len())
}

fn strip_dot_slash_chars(s: &[char]) -> (r: Vec<char>)
    ensures
        r@ == strip_dot_slash(s@),
{
    let mut i: usize = 0;
    assert(s@.skip(0) =~= s@);
    while s.len() - i >= 2 && s[i] == '.' && s[i + 1] == '/'
        invariant
            i <= s@.len(),
            strip_dot_slash(s@) == strip_dot_slash(s@.skip(i as int)),
        decreases s@.len() - i,
    {
        assert(s@.skip(i as int).skip(2) =~= s@.skip(i + 2));
        i += 2;
    }
    assert(s@.skip(i as int) =~= s@.subrange(i as int, s@.len() as int));
    slice_chars(s, i, s.len())
}

/// Normal form of a path without suffix.
pub fn normalize_part_chars(p: &[char]) -> (r: Vec<char>)
    ensures
        r@ == normalize_part(p@),
{
    let d = percent_decode_chars(p);
    let f = replace_backslashes(d.as_slice());
    let t = trim_leading_slashes_chars(f.as_slice());
    strip_dot_slash_chars(t.as_slice())
}

/// Normal form of the path of the reference `p`.
pub fn normalize_chars(p: &[char]) -> (r: Vec<char>)
    ensures
        r@ == spec_normalize(p@),
{
    let pos = suffix_pos_exec(p);
    let part = slice_chars(p, 0, pos);
    assert(part@ == path_part(p@));
    normalize_part_chars(part.as_slice())
}

/// The normalized path without its `OEBPS/` prefix.
pub fn strip_oebps_prefix_chars(p: &[char]) -> (r: Vec<char>)
    ensures
        r@ == spec_strip_oebps_prefix(p@),
{
    let n = normalize_chars(p);
    let o = oebps_chars();
    if starts_with_exec(n.as_slice(), o.as_slice()) {
        slice_chars(n.as_slice(), 6, n.len())
    } else {
        n
    }
}

/// The normalized path with an `OEBPS/` prefix.
pub fn manifest_path_chars(h: &[char]) -> (r: Vec<char>)
    ensures
        r@ == spec_manifest_path(h@),
{
    let n = normalize_chars(h);
    let mut o = oebps_chars();
    if starts_with_exec(n.as_slice(), o.as_slice()) {
        n
    } else {
        extend_chars(&mut o, n.as_slice());
        o
    }
}

/// The directory part of the normalized path.
pub fn parent_chars(p: &[char]) -> (r: Vec<char>)
    ensures
        r@ == spec_parent(p@),
{
    let n = normalize_chars(p);
    proof {
        lemma_rfind_char_bounds(n@, '/', n@.len() as int);
    }
    match rfind_char_exec(n.as_slice(), '/') {
        Some(i) => slice_chars(n.as_slice(), 0, i),
        None => Vec::new(),
    }
}

/// The last component of the normalized path.
pub fn filename_chars(p: &[char]) -> (r: Vec<char>)
    ensures
        r@ == spec_filename(p@),
{
    let n = normalize_chars(p);
    proof {
        lemma_rfind_char_bounds(n@, '/', n@.len() as int);
    }
    match rfind_char_exec(n.as_slice(), '/') {
        Some(i) => {
            assert(i < n@.len());
            slice_chars(n.as_slice(), i + 1, n.len())
        },
        None => n,
    }
}

/// The case-insensitive key of a path.
pub fn casefold_chars(p: &[char]) -> (r: Vec<char>)
    ensures
        r@ == spec_casefold(p@),
{
    let n = normalize_chars(p);
    lowercase_chars(n.as_slice())
}

/// Where `rfind_char_below` can land.
pub proof fn lemma_rfind_char_bounds(s: Seq<char>, c: char, end: int)
    ensures
        rfind_char_below(s, c, end) matches Some(i) ==> 0 <= i < end && i < s.len() && s[i]
            == c,
    decreases end,
{
    if end > 0 && end <= s.len() && s[end - 1] != c {
        lemma_rfind_char_bounds(s, c, end - 1);
    }
}

/// Where `find_char_from` can land.
pub proof fn lemma_find_char_bounds(s: Seq<char>, c: char, i: int)
    ensures
        find_char_from(s, c, i) matches Some(j) ==> i <= j < s.len() && s[j] == c,
    decreases s.len() - i,
{
    if 0 <= i < s.len() && s[i] != c {
        lemma_find_char_bounds(s, c, i + 1);
    }
}

} // verus!

verus! {

/// The character views of a list of character vectors.
pub open spec fn views(v: Seq<Vec<char>>) -> Seq<Seq<char>> {
    v.map_values(|x: Vec<char>| x@)
}

/// The non-empty `/`-separated components of `s`.
pub fn segments_chars(s: &[char]) -> (r: Vec<Vec<char>>)
    ensures
        views(r@) == segments(s@),
{
    let mut out: Vec<Vec<char>> = Vec::new();
    let mut start: usize = 0;
    let mut i: usize = 0;
    while i < s.len()
        invariant
            start <= i <= s@.len(),
            views(out@) + segs(s@, start as int, i as int) == segments(s@),
        decreases s@.len() - i,
    {
        if s[i] == '/' {
            if start < i {
                let part = slice_chars(s, start, i);
                let ghost before = views(out@);
                out.push(part);
                assert(views(out@) =~= before.push(part@));
                assert(before + segs(s@, start as int, i as int) =~= views(out@) + segs(
                    s@,
                    i + 1,
                    i + 1,
                ));
            }
            i += 1;
            start = i;
        } else {
            i += 1;
        }
    }
    if start < s.len() {
        let part = slice_chars(s, start, s.len());
        let ghost before = views(out@);
        out.push(part);
        assert(views(out@) =~= before.push(part@));
        assert(before + segs(s@, start as int, i as int) =~= views(out@));
    } else {
        assert(views(out@) + segs(s@, start as int, i as int) =~= views(out@));
    }
    out
}

/// The components joined with `/`.
pub fn join_chars(parts: &Vec<Vec<char>>) -> (r: Vec<char>)
    ensures
        r@ == join(views(parts@)),
{
    let mut out: Vec<char> = Vec::new();
    let mut k: usize = 0;
    while k < parts.len()
        invariant
            k <= parts@.len(),
            out@ == join(views(parts@).take(k as int)),
        decreases parts@.len() - k,
    {
        let ghost prev = views(parts@).take(k as int);
        if k > 0 {
            out.push('/');
        }
        extend_chars(&mut out, parts[k].as_slice());
        k += 1;
        proof {
            let cur = views(parts@).take(k as int);
            assert(cur.drop_last() =~= prev);
            assert(cur.last() == parts@[k - 1]@);
            if k == 1 {
                assert(prev.len() == 0);
            }
        }
    }
    assert(views(parts@).take(parts@.len() as int) =~= views(parts@));
    out
}

fn is_dot_dot(p: &[char]) -> (r: bool)
    ensures
        r == (p@ == seq!['.', '.']),
{
    if p.len() == 2 && p[0] == '.' && p[1] == '.' {
        assert(p@ =~= seq!['.', '.']);
        true
    } else {
        false
    }
}

fn is_dot(p: &[char]) -> (r: bool)
    ensures
        r == (p@ == seq!['.']),
{
    if p.len() == 1 && p[0] == '.' {
        assert(p@ =~= seq!['.']);
        true
    } else {
        false
    }
}

/// `..`, `.` and plain components applied to `base` in turn.
pub fn apply_parts_exec(base: Vec<Vec<char>>, parts: &Vec<Vec<char>>) -> (r: Vec<Vec<char>>)
    ensures
        views(r@) == apply_parts(views(base@), views(parts@)),
{
    let mut cur = base;
    let mut k: usize = 0;
    assert(views(parts@).skip(0) =~= views(parts@));
    while k < parts.len()
        invariant
            k <= parts@.len(),
            apply_parts(views(cur@), views(parts@).skip(k as int)) == apply_parts(
                views(base@),
                views(parts@),
            ),
        decreases parts@.len() - k,
    {
        let ghost before = views(cur@);
        let ghost rest = views(parts@).skip(k as int);
        let p = &parts[k];
        assert(rest[0] == p@);
        if is_dot_dot(p.as_slice()) {
            if cur.len() > 0 {
                cur.pop();
                assert(views(cur@) =~= before.drop_last());
            }
        } else if is_dot(p.as_slice()) {
        } else {
            cur.push(p.clone());
            assert(views(cur@) =~= before.push(p@));
        }
        assert(rest.drop_first() =~= views(parts@).skip(k + 1));
        k += 1;
    }
    cur
}

/// The number of leading components that `a` and `b` share.
pub fn common_len_exec(a: &Vec<Vec<char>>, b: &Vec<Vec<char>>) -> (r: usize)
    ensures
        r == common_len(views(a@), views(b@)),
        r <= a@.len(),
        r <= b@.len(),
{
    let mut k: usize = 0;
    assert(views(a@).skip(0) =~= views(a@));
    assert(views(b@).skip(0) =~= views(b@));
    while k < a.len() && k < b.len() && chars_eq(a[k].as_slice(), b[k].as_slice())
        invariant
            k <= a@.len(),
            k <= b@.len(),
            k + common_len(views(a@).skip(k as int), views(b@).skip(k as int)) == common_len(
                views(a@),
                views(b@),
            ),
        decreases a@.len() - k,
    {
        assert(views(a@).skip(k as int).drop_first() =~= views(a@).skip(k + 1));
        assert(views(b@).skip(k as int).drop_first() =~= views(b@).skip(k + 1));
        k += 1;
    }
    k
}

// ---------------------------------------------------------------------------
// Public API over strings
// ---------------------------------------------------------------------------

/// Splits a reference into its file path and trailing query/fragment suffix.
pub fn split_reference_suffix(reference: &str) -> (r: (&str, &str))
    ensures
        r.0@ == path_part(reference@),
        r.1@ == suffix_part(reference@),
        r.0@ + r.1@ == reference@,
{
    let v = chars_of(reference);
    let pos = suffix_pos_exec(v.as_slice());
    let n = v.len();
    let a = reference.substring_char(0, pos);
    let b = reference.substring_char(pos, n);
    assert(a@ + b@ =~= reference@);
    (a, b)
}

/// Normalizes an EPUB internal path and discards query/fragment suffixes.
pub fn normalize(path: &str) -> (r: String)
    ensures
        r@ == spec_normalize(path@),
{
    let v = chars_of(path);
    string_of(normalize_chars(v.as_slice()).as_slice())
}

/// Normalizes an EPUB reference while preserving query/fragment suffixes.
pub fn normalize_reference(reference: &str) -> (r: String)
    ensures
        r@ == spec_normalize_reference(reference@),
{
    let v = chars_of(reference);
    let pos = suffix_pos_exec(v.as_slice());
    let part = slice_chars(v.as_slice(), 0, pos);
    let suffix = slice_chars(v.as_slice(), pos, v.len());
    let mut out = normalize_part_chars(part.as_slice());
    extend_chars(&mut out, suffix.as_slice());
    string_of(out.as_slice())
}

/// The normalized path without its `OEBPS/` prefix.
pub fn strip_oebps_prefix(path: &str) -> (r: String)
    ensures
        r@ == spec_strip_oebps_prefix(path@),
{
    let v = chars_of(path);
    string_of(strip_oebps_prefix_chars(v.as_slice()).as_slice())
}

/// The OPF manifest href (relative to `OEBPS/`) of a path.
pub fn to_opf_href(path: &str) -> (r: String)
    ensures
        r@ == spec_strip_oebps_prefix(path@),
{
    strip_oebps_prefix(path)
}

/// The package path (with `OEBPS/`) of a manifest href.
pub fn manifest_path(href: &str) -> (r: String)
    ensures
        r@ == spec_manifest_path(href@),
{
    let v = chars_of(href);
    string_of(manifest_path_chars(v.as_slice()).as_slice())
}

/// The directory part of a path.
pub fn parent(path: &str) -> (r: String)
    ensures
        r@ == spec_parent(path@),
{
    let v = chars_of(path);
    string_of(parent_chars(v.as_slice()).as_slice())
}

/// The last component of a path.
pub fn filename(path: &str) -> (r: String)
    ensures
        r@ == spec_filename(path@),
{
    let v = chars_of(path);
    string_of(filename_chars(v.as_slice()).as_slice())
}

/// The case-insensitive key of a path.
pub fn casefold(path: &str) -> (r: String)
    ensures
        r@ == spec_casefold(path@),
{
    let v = chars_of(path);
    string_of(casefold_chars(v.as_slice()).as_slice())
}

} // verus!

verus! {

/// The package path that `reference` names from the directory `base_dir`.
pub fn resolve_relative_chars(base_dir: &[char], reference: &[char]) -> (r: Vec<char>)
    ensures
        r@ == spec_resolve_relative(base_dir@, reference@),
{
    let pos = suffix_pos_exec(reference);
    let part = slice_chars(reference, 0, pos);
    assert(part@ == path_part(reference@));
    let nbase = normalize_chars(base_dir);
    let nref = normalize_chars(part.as_slice());
    let o = oebps_chars();
    if starts_with_exec(nref.as_slice(), o.as_slice()) {
        return nref;
    }
    let root_relative = reference.len() > 0 && reference[0] == '/';
    assert(root_relative == starts_with(reference@, seq!['/'])) by {
        if reference@.len() > 0 {
            assert(reference@.subrange(0, 1) =~= seq![reference@[0]]);
        }
    }
    let base: Vec<Vec<char>> = if root_relative {
        Vec::new()
    } else {
        segments_chars(nbase.as_slice())
    };
    assert(root_relative ==> views(base@) =~= Seq::<Seq<char>>::empty());
    let parts = segments_chars(nref.as_slice());
    let applied = apply_parts_exec(base, &parts);
    join_chars(&applied)
}

/// Resolves `reference` against the directory `base_dir`; the suffix of the
/// reference is dropped, `..` and `.` are applied, and references already
/// under `OEBPS/` are kept as they are.
pub fn resolve_relative(base_dir: &str, reference: &str) -> (r: String)
    ensures
        r@ == spec_resolve_relative(base_dir@, reference@),
{
    let b = chars_of(base_dir);
    let rf = chars_of(reference);
    string_of(resolve_relative_chars(b.as_slice(), rf.as_slice()).as_slice())
}

/// The relative reference from the directory `from_dir` to `to_path`.
pub fn relative_path_chars(from_dir: &[char], to_path: &[char]) -> (r: Vec<char>)
    ensures
        r@ == spec_relative_path(from_dir@, to_path@),
{
    let nf = normalize_chars(from_dir);
    let nt = normalize_chars(to_path);
    let f = segments_chars(nf.as_slice());
    let t = segments_chars(nt.as_slice());
    let c = common_len_exec(&f, &t);
    let mut parts: Vec<Vec<char>> = Vec::new();
    let ups_n = f.len() - c;
    let mut k: usize = 0;
    while k < ups_n
        invariant
            k <= ups_n,
            views(parts@) =~= ups(k as nat),
        decreases ups_n - k,
    {
        let dd = vec!['.', '.'];
        assert(dd@ =~= seq!['.', '.']);
        let ghost before = views(parts@);
        parts.push(dd);
        assert(views(parts@) =~= before.push(seq!['.', '.']));
        k += 1;
    }
    let mut j = c;
    while j < t.len()
        invariant
            c <= j <= t@.len(),
            views(parts@) =~= ups(ups_n as nat) + views(t@).subrange(c as int, j as int),
        decreases t@.len() - j,
    {
        let ghost before = views(parts@);
        let seg = slice_chars(t[j].as_slice(), 0, t[j].len());
        assert(seg@ =~= t@[j as int]@);
        parts.push(seg);
        assert(views(parts@) =~= before.push(views(t@)[j as int]));
        j += 1;
    }
    assert(views(t@).subrange(c as int, t@.len() as int) =~= views(t@).skip(c as int));
    assert(views(parts@) == relative_parts(from_dir@, to_path@));
    if parts.len() == 0 {
        if t.len() == 0 {
            Vec::new()
        } else {
            let last = t.len() - 1;
            assert(views(t@).last() == t@[last as int]@);
            t[last].clone()
        }
    } else {
        join_chars(&parts)
    }
}

/// The relative reference from the directory `from_dir` to `to_path`.
pub fn relative_path(from_dir: &str, to_path: &str) -> (r: String)
    ensures
        r@ == spec_relative_path(from_dir@, to_path@),
{
    let f = chars_of(from_dir);
    let t = chars_of(to_path);
    string_of(relative_path_chars(f.as_slice(), t.as_slice()).as_slice())
}

/// `dir/stem-N.ext` for the normalized `dir/stem.ext`.
pub fn append_filename_suffix_chars(path: &[char], suffix: usize) -> (r: Vec<char>)
    ensures
        r@ == spec_append_filename_suffix(path@, suffix as nat),
{
    let n = normalize_chars(path);
    proof {
        lemma_rfind_char_bounds(n@, '/', n@.len() as int);
    }
    let (dir, file) = match rfind_char_exec(n.as_slice(), '/') {
        Some(i) => {
            assert(i < n@.len());
            (slice_chars(n.as_slice(), 0, i + 1), slice_chars(n.as_slice(), i + 1, n.len()))
        },
        None => (Vec::new(), n.clone()),
    };
    proof {
        lemma_rfind_char_bounds(file@, '.', file@.len() as int);
    }
    let (stem, ext) = match rfind_char_exec(file.as_slice(), '.') {
        Some(j) => (slice_chars(file.as_slice(), 0, j), slice_chars(file.as_slice(), j, file.len())),
        None => (file.clone(), Vec::new()),
    };
    let mut out = dir;
    extend_chars(&mut out, stem.as_slice());
    out.push('-');
    let digits = decimal_chars(suffix as u128);
    extend_chars(&mut out, digits.as_slice());
    extend_chars(&mut out, ext.as_slice());
    out
}

/// `dir/stem-N.ext` for the normalized `dir/stem.ext`.
pub fn append_filename_suffix(path: &str, suffix: usize) -> (r: String)
    ensures
        r@ == spec_append_filename_suffix(path@, suffix as nat),
{
    let v = chars_of(path);
    string_of(append_filename_suffix_chars(v.as_slice(), suffix).as_slice())
}

/// The `k`-th path tried for a unique name: the path itself, then with `-k`.
pub open spec fn unique_candidate(n: Seq<char>, k: nat) -> Seq<char> {
    if k == 0 {
        n
    } else {
        spec_append_filename_suffix(n, k)
    }
}

/// The keys held by a list of strings.
pub open spec fn string_views(v: Seq<String>) -> Seq<Seq<char>> {
    v.map_values(|x: String| x@)
}

/// The normalized path, with the first filename suffix `-1`, `-2`, ... whose
/// case-insensitive key is not yet used; the key is recorded as used.
pub fn allocate_unique_path(path: &str, used_paths: &mut Vec<String>) -> (r: String)
    ensures
        string_views(final(used_paths)@) == string_views(old(used_paths)@).push(
            spec_casefold(r@),
        ),
        exists|j: nat|
            r@ == unique_candidate(spec_normalize(path@), j) && (forall|i: nat|
                i < j ==> string_views(old(used_paths)@).contains(
                    #[trigger] spec_casefold(unique_candidate(spec_normalize(path@), i)),
                )) && (!string_views(old(used_paths)@).contains(spec_casefold(r@)) || j + 1
                == usize::MAX),
{
    let pv = chars_of(path);
    let normalized = normalize_chars(pv.as_slice());
    let mut candidate = normalized.clone();
    let mut suffix: usize = 1;
    let ghost n = normalized@;
    loop
        invariant
            1 <= suffix,
            n == spec_normalize(path@),
            normalized@ == n,
            candidate@ == unique_candidate(n, (suffix - 1) as nat),
            used_paths@ == old(used_paths)@,
            forall|i: nat|
                i < suffix - 1 ==> string_views(used_paths@).contains(
                    #[trigger] spec_casefold(unique_candidate(n, i)),
                ),
        decreases usize::MAX - suffix,
    {
        let key = casefold_chars(candidate.as_slice());
        if !contains_string(used_paths, key.as_slice()) || suffix == usize::MAX {
            let ks = string_of(key.as_slice());
            used_paths.push(ks);
            assert(string_views(used_paths@) =~= string_views(old(used_paths)@).push(key@));
            let r = string_of(candidate.as_slice());
            assert(r@ == unique_candidate(n, (suffix - 1) as nat));
            return r;
        }
        assert(string_views(used_paths@).contains(
            spec_casefold(unique_candidate(n, (suffix - 1) as nat)),
        ));
        candidate = append_filename_suffix_chars(normalized.as_slice(), suffix);
        suffix += 1;
    }
}

} // verus!

verus! {

/// `n` without the first of `prefixes` (followed by `/`) that starts it,
/// exactly or ignoring case.
pub open spec fn strip_first_dir(n: Seq<char>, prefixes: Seq<Seq<char>>) -> Seq<char>
    decreases prefixes.len(),
{
    if prefixes.len() == 0 {
        n
    } else {
        let cand = prefixes[0].push('/');
        if starts_with(n, cand) {
            n.skip(cand.len() as int)
        } else if starts_with(lowercase(n), lowercase(cand)) && cand.len() <= n.len() {
            n.skip(cand.len() as int)
        } else {
            strip_first_dir(n, prefixes.drop_first())
        }
    }
}

/// The views of a list of string slices.
pub open spec fn str_views(v: Seq<&str>) -> Seq<Seq<char>> {
    v.map_values(|x: &str| x@)
}

/// `OEBPS/<root>/` followed by the href without `OEBPS/` and without the
/// first of the given directory names.
pub open spec fn spec_standard_path(
    target_root: Seq<char>,
    original_href: Seq<char>,
    prefixes: Seq<Seq<char>>,
) -> Seq<char> {
    oebps() + target_root + seq!['/'] + strip_first_dir(
        spec_strip_oebps_prefix(original_href),
        prefixes,
    )
}

fn strip_first_dir_exec(n: &[char], prefixes: &[&str]) -> (r: Vec<char>)
    ensures
        r@ == strip_first_dir(n@, str_views(prefixes@)),
{
    let ghost ps = str_views(prefixes@);
    let mut k: usize = 0;
    assert(ps.skip(0) =~= ps);
    while k < prefixes.len()
        invariant
            k <= prefixes@.len(),
            ps == str_views(prefixes@),
            strip_first_dir(n@, ps) == strip_first_dir(n@, ps.skip(k as int)),
        decreases prefixes@.len() - k,
    {
        let mut cand = chars_of(prefixes[k]);
        cand.push('/');
        assert(ps.skip(k as int)[0] == prefixes@[k as int]@);
        if starts_with_exec(n, cand.as_slice()) {
            return slice_chars(n, cand.len(), n.len());
        }
        let cand_lower = lowercase_chars(cand.as_slice());
        let norm_lower = lowercase_chars(n);
        if starts_with_exec(norm_lower.as_slice(), cand_lower.as_slice()) && cand.len() <= n.len() {
            return slice_chars(n, cand.len(), n.len());
        }
        assert(ps.skip(k as int).drop_first() =~= ps.skip(k + 1));
        k += 1;
    }
    assert(ps.skip(k as int).len() == 0);
    slice_chars(n, 0, n.len())
}

/// The standard path of a file under the directory `target_root`.
pub fn standard_path(target_root: &str, original_href: &str, strip_prefixes: &[&str]) -> (r: String)
    ensures
        r@ == spec_standard_path(target_root@, original_href@, str_views(strip_prefixes@)),
{
    let hv = chars_of(original_href);
    let stripped = strip_oebps_prefix_chars(hv.as_slice());
    let rest = strip_first_dir_exec(stripped.as_slice(), strip_prefixes);
    let mut out = oebps_chars();
    extend_str(&mut out, target_root);
    out.push('/');
    extend_chars(&mut out, rest.as_slice());
    string_of(out.as_slice())
}

/// References that are not files of the package.
pub fn should_skip_reference_chars(reference: &[char]) -> (r: bool)
    ensures
        r == spec_should_skip_reference(reference@),
{
    let t = trim_chars(reference);
    let lower = lowercase_chars(t.as_slice());
    let hash = vec!['#'];
    let data = vec!['d', 'a', 't', 'a', ':'];
    let http = vec!['h', 't', 't', 'p', ':', '/', '/'];
    let https = vec!['h', 't', 't', 'p', 's', ':', '/', '/'];
    let mailto = vec!['m', 'a', 'i', 'l', 't', 'o', ':'];
    let js = vec!['j', 'a', 'v', 'a', 's', 'c', 'r', 'i', 'p', 't', ':'];
    assert(hash@ =~= seq!['#']);
    assert(data@ =~= seq!['d', 'a', 't', 'a', ':']);
    assert(http@ =~= seq!['h', 't', 't', 'p', ':', '/', '/']);
    assert(https@ =~= seq!['h', 't', 't', 'p', 's', ':', '/', '/']);
    assert(mailto@ =~= seq!['m', 'a', 'i', 'l', 't', 'o', ':']);
    assert(js@ =~= seq!['j', 'a', 'v', 'a', 's', 'c', 'r', 'i', 'p', 't', ':']);
    starts_with_exec(t.as_slice(), hash.as_slice()) || starts_with_exec(
        lower.as_slice(),
        data.as_slice(),
    ) || starts_with_exec(lower.as_slice(), http.as_slice()) || starts_with_exec(
        lower.as_slice(),
        https.as_slice(),
    ) || starts_with_exec(lower.as_slice(), mailto.as_slice()) || starts_with_exec(
        lower.as_slice(),
        js.as_slice(),
    )
}

/// References that are not files of the package: fragments, data URIs,
/// web links, mail links and scripts.
pub fn should_skip_reference(reference: &str) -> (r: bool)
    ensures
        r == spec_should_skip_reference(reference@),
{
    let v = chars_of(reference);
    should_skip_reference_chars(v.as_slice())
}

/// Whether `p` starts with one of the standard directories.
pub fn has_standard_dir_prefix_chars(p: &[char]) -> (r: bool)
    ensures
        r == spec_has_standard_dir_prefix(p@),
{
    let dirs = standard_dir_list();
    let mut k: usize = 0;
    while k < 5
        invariant
            k <= 5,
            dirs@.len() == 5,
            views(dirs@) == standard_dirs(),
            forall|j: int| 0 <= j < k ==> !starts_with(p@, #[trigger] standard_dirs()[j]),
        decreases 5 - k,
    {
        assert(dirs@[k as int]@ == standard_dirs()[k as int]);
        if starts_with_exec(p, dirs[k].as_slice()) {
            return true;
        }
        k += 1;
    }
    false
}

fn standard_dir_list() -> (r: Vec<Vec<char>>)
    ensures
        views(r@) == standard_dirs(),
        r@.len() == 5,
{
    let r = vec![
        vec!['T', 'e', 'x', 't', '/'],
        vec!['S', 't', 'y', 'l', 'e', 's', '/'],
        vec!['I', 'm', 'a', 'g', 'e', 's', '/'],
        vec!['F', 'o', 'n', 't', 's', '/'],
        vec!['M', 'i', 's', 'c', '/'],
    ];
    assert(views(r@) =~= standard_dirs());
    r
}

/// Whether the path starts with one of the standard directories.
pub fn has_standard_dir_prefix(path: &str) -> (r: bool)
    ensures
        r == spec_has_standard_dir_prefix(path@),
{
    let v = chars_of(path);
    has_standard_dir_prefix_chars(v.as_slice())
}

/// Whether `h` names an XHTML/HTML document.
pub fn is_text_document_href_chars(h: &[char]) -> (r: bool)
    ensures
        r == spec_is_text_document_href(h@),
{
    let n = normalize_chars(h);
    let lower = lowercase_chars(n.as_slice());
    let a = vec!['.', 'x', 'h', 't', 'm', 'l'];
    let b = vec!['.', 'h', 't', 'm', 'l'];
    ends_with_exec(lower.as_slice(), a.as_slice()) || ends_with_exec(lower.as_slice(), b.as_slice())
}

/// Whether the href names an XHTML/HTML document.
pub fn is_text_document_href(href: &str) -> (r: bool)
    ensures
        r == spec_is_text_document_href(href@),
{
    let v = chars_of(href);
    is_text_document_href_chars(v.as_slice())
}

/// Whether `p` names a text file whose references are worth scanning.
pub fn is_text_like_file_chars(p: &[char]) -> (r: bool)
    ensures
        r == spec_is_text_like_file(p@),
{
    let n = normalize_chars(p);
    let lower = lowercase_chars(n.as_slice());
    let a = vec!['.', 'x', 'h', 't', 'm', 'l'];
    let b = vec!['.', 'h', 't', 'm', 'l'];
    let c = vec!['.', 'x', 'm', 'l'];
    let d = vec!['.', 'c', 's', 's'];
    let e = vec!['.', 's', 'v', 'g'];
    ends_with_exec(lower.as_slice(), a.as_slice()) || ends_with_exec(lower.as_slice(), b.as_slice())
        || ends_with_exec(lower.as_slice(), c.as_slice()) || ends_with_exec(
        lower.as_slice(),
        d.as_slice(),
    ) || ends_with_exec(lower.as_slice(), e.as_slice())
}

/// Whether the path names a text file (XHTML, HTML, XML, CSS or SVG).
pub fn is_text_like_file(path: &str) -> (r: bool)
    ensures
        r == spec_is_text_like_file(path@),
{
    let v = chars_of(path);
    is_text_like_file_chars(v.as_slice())
}

/// The standard path of a navigation target.
pub fn to_standard_content_path_chars(content_src: &[char]) -> (r: Vec<char>)
    ensures
        r@ == spec_to_standard_content_path(content_src@),
{
    if content_src.len() == 0 {
        return Vec::new();
    }
    let p = normalize_chars(content_src);
    let mut o = oebps_chars();
    if starts_with_exec(p.as_slice(), o.as_slice()) {
        return p;
    }
    if has_standard_dir_prefix_chars(p.as_slice()) {
        extend_chars(&mut o, p.as_slice());
        return o;
    }
    if is_text_document_href_chars(p.as_slice()) {
        let text = vec!['T', 'e', 'x', 't', '/'];
        extend_chars(&mut o, text.as_slice());
        extend_chars(&mut o, p.as_slice());
        return o;
    }
    extend_chars(&mut o, p.as_slice());
    o
}

/// The standard path (`OEBPS/...`) of a navigation target.
pub fn to_standard_content_path(content_src: &str) -> (r: String)
    ensures
        r@ == spec_to_standard_content_path(content_src@),
{
    let v = chars_of(content_src);
    string_of(to_standard_content_path_chars(v.as_slice()).as_slice())
}

/// The fragment of a reference.
pub fn reference_anchor_chars(reference: &[char]) -> (r: Option<Vec<char>>)
    ensures
        match r {
            Some(a) => spec_reference_anchor(reference@) == Some(a@),
            None => spec_reference_anchor(reference@) is None,
        },
{
    proof {
        lemma_find_char_bounds(reference@, '#', 0);
    }
    match find_char_exec(reference, '#', 0) {
        Some(i) => {
            assert(i < reference@.len());
            if reference.len() - i > 1 {
                let a = slice_chars(reference, i + 1, reference.len());
                assert(a@ =~= reference@.skip(i + 1));
                Some(a)
            } else {
                None
            }
        },
        None => None,
    }
}

/// The fragment of a reference: what follows its first `#`, if anything.
pub fn reference_anchor(reference: &str) -> (r: Option<String>)
    ensures
        match r {
            Some(a) => spec_reference_anchor(reference@) == Some(a@),
            None => spec_reference_anchor(reference@) is None,
        },
{
    let v = chars_of(reference);
    match reference_anchor_chars(v.as_slice()) {
        Some(a) => Some(string_of(a.as_slice())),
        None => None,
    }
}

} // verus!
