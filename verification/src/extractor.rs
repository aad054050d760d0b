//! Chapters of an original package for reading: their images embedded as
//! Base64 data URIs, and the structure of the package as it is laid out.

use vstd::prelude::*;
use crate::models::{
    ChapterContent, ChapterInfo, EpubStructureResult, ManifestItem, ParsedEpub, ResourceData, SpineItemref,
};
use crate::epub_path::{
    has_standard_dir_prefix, join, join_chars, manifest_path, normalize, parent, path_part, resolve_relative, segments,
    segments_chars, should_skip_reference, spec_has_standard_dir_prefix, spec_manifest_path, spec_normalize, spec_parent,
    spec_resolve_relative, spec_should_skip_reference, split_reference_suffix, views,
};
use crate::pattern::{piece_view, pieces_view, regex_captures, regex_compiles, regex_split, MatchPiece};
use crate::image_handler::group_or_empty;
use crate::text::{
    chars_eq, chars_of, contains, ends_with, ends_with_str, extend_chars, extend_str, find, find_from, find_from_exec, lowercase,
    lowercase_chars, rfind_char, rfind_char_exec, slice_chars, starts_with, starts_with_str, string_of,
};
use crate::opf_document::lemma_find_from_bounds;
use crate::toc_manager::contains_str_exec;
use crate::epub_path::{lemma_rfind_char_bounds, string_views};
use crate::analyzer::{find_manifest_item, has_property, item_with_id, spec_has_property};
use crate::library::after_last_slash;
use crate::refactor::{copy_metadata, metadata_view};
use crate::parser::{get_opf_base_path, spec_opf_base_path};
use crate::pattern::opt_seq;

verus! {

// ---------------------------------------------------------------------------
// Media types and paths
// ---------------------------------------------------------------------------

/// The media type of a file by its extension (in any case).
pub open spec fn spec_guess_mime_type(path: Seq<char>) -> Seq<char> {
    let l = lowercase(path);
    if ends_with(l, ".jpg"@) || ends_with(l, ".jpeg"@) {
        "image/jpeg"@
    } else if ends_with(l, ".png"@) {
        "image/png"@
    } else if ends_with(l, ".gif"@) {
        "image/gif"@
    } else if ends_with(l, ".svg"@) {
        "image/svg+xml"@
    } else if ends_with(l, ".webp"@) {
        "image/webp"@
    } else if ends_with(l, ".css"@) {
        "text/css"@
    } else if ends_with(l, ".ttf"@) {
        "font/ttf"@
    } else if ends_with(l, ".woff"@) {
        "font/woff"@
    } else if ends_with(l, ".woff2"@) {
        "font/woff2"@
    } else {
        "application/octet-stream"@
    }
}

/// The media type of a file by its extension.
pub fn guess_mime_type(path: &str) -> (r: String)
    ensures
        r@ == spec_guess_mime_type(path@),
{
    let p = chars_of(path);
    let l = lowercase_chars(p.as_slice());
    let l = l.as_slice();
    if ends_with_str(l, ".jpg") || ends_with_str(l, ".jpeg") {
        "image/jpeg".to_string()
    } else if ends_with_str(l, ".png") {
        "image/png".to_string()
    } else if ends_with_str(l, ".gif") {
        "image/gif".to_string()
    } else if ends_with_str(l, ".svg") {
        "image/svg+xml".to_string()
    } else if ends_with_str(l, ".webp") {
        "image/webp".to_string()
    } else if ends_with_str(l, ".css") {
        "text/css".to_string()
    } else if ends_with_str(l, ".ttf") {
        "font/ttf".to_string()
    } else if ends_with_str(l, ".woff") {
        "font/woff".to_string()
    } else if ends_with_str(l, ".woff2") {
        "font/woff2".to_string()
    } else {
        "application/octet-stream".to_string()
    }
}

/// The directory components after following `parts`: `..` drops the last
/// component (if any), other parts starting with `.` are ignored, the rest
/// are appended.
pub open spec fn follow_parts(base: Seq<Seq<char>>, parts: Seq<Seq<char>>) -> Seq<Seq<char>>
    decreases parts.len(),
{
    if parts.len() == 0 {
        base
    } else {
        let b = follow_parts(base, parts.drop_last());
        let p = parts.last();
        if p == ".."@ {
            if b.len() > 0 {
                b.drop_last()
            } else {
                b
            }
        } else if starts_with(p, "."@) {
            b
        } else {
            b.push(p)
        }
    }
}

/// `relative` followed from the directory `base`; where nothing is left,
/// the components of `relative` themselves.
pub open spec fn spec_resolve_path(base: Seq<char>, relative: Seq<char>) -> Seq<char> {
    let b = follow_parts(segments(base), segments(relative));
    if b.len() == 0 {
        join(segments(relative))
    } else {
        join(b)
    }
}

/// `relative` followed from the directory `base`.
pub fn resolve_path(base: &str, relative: &str) -> (r: String)
    ensures
        r@ == spec_resolve_path(base@, relative@),
{
    let bc = chars_of(base);
    let rc = chars_of(relative);
    let mut parts = segments_chars(bc.as_slice());
    let rel = segments_chars(rc.as_slice());
    let ghost base_segs = views(parts@);
    let ghost rv = views(rel@);
    let mut i: usize = 0;
    while i < rel.len()
        invariant
            i <= rel@.len(),
            rv == views(rel@),
            views(parts@) == follow_parts(base_segs, rv.take(i as int)),
        decreases rel@.len() - i,
    {
        proof {
            let t = rv.take(i + 1);
            assert(t.drop_last() =~= rv.take(i as int));
            assert(t.last() == rel@[i as int]@);
            reveal_strlit("..");
            reveal_strlit(".");
        }
        let p = rel[i].as_slice();
        let ghost before = views(parts@);
        if p.len() == 2 && p[0] == '.' && p[1] == '.' {
            assert(p@ =~= ".."@);
            if parts.len() > 0 {
                parts.pop();
                proof {
                    assert(views(parts@) =~= before.drop_last());
                }
            }
        } else if p.len() > 0 && p[0] == '.' {
            assert(p@.subrange(0, 1) =~= "."@);
            assert(starts_with(p@, "."@));
            assert(p@ != ".."@);
        } else {
            assert(!starts_with(p@, "."@)) by {
                if starts_with(p@, "."@) {
                    assert(p@.subrange(0, 1)[0] == p@[0]);
                }
            }
            assert(p@ != ".."@);
            parts.push(rel[i].clone());
            proof {
                assert(views(parts@) =~= before.push(p@));
            }
        }
        i += 1;
    }
    proof {
        assert(rv.take(rel@.len() as int) =~= rv);
    }
    if parts.len() == 0 {
        string_of(join_chars(&rel).as_slice())
    } else {
        string_of(join_chars(&parts).as_slice())
    }
}

// ---------------------------------------------------------------------------
// Replacing every occurrence
// ---------------------------------------------------------------------------

/// `s` with every occurrence of `pat` (left to right, not overlapping)
/// replaced by `rep`, as `str::replace` does for a non-empty pattern.
pub open spec fn replace_all(s: Seq<char>, pat: Seq<char>, rep: Seq<char>) -> Seq<char>
    decreases s.len(),
{
    if pat.len() == 0 {
        s
    } else {
        match find(s, pat) {
            Some(i) => {
                proof {
                    lemma_find_from_bounds(s, pat, 0);
                }
                s.take(i) + rep + replace_all(s.skip(i + pat.len()), pat, rep)
            },
            None => s,
        }
    }
}

/// Searching from `pos` is searching the rest of `s` from its start.
proof fn lemma_find_from_skip(s: Seq<char>, p: Seq<char>, pos: int, i: int)
    requires
        0 <= pos <= i,
        pos <= s.len(),
    ensures
        find_from(s, p, i) == (match crate::text::find_from(s.skip(pos), p, i - pos) {
            Some(k) => Some(k + pos),
            None => None::<int>,
        }),
    decreases s.len() + 1 - i,
{
    let t = s.skip(pos);
    if i + p.len() <= s.len() {
        assert(crate::text::occurs_at(s, p, i) == crate::text::occurs_at(t, p, i - pos)) by {
            assert(s.subrange(i, i + p.len()) =~= t.subrange(i - pos, i - pos + p.len()));
        }
        lemma_find_from_skip(s, p, pos, i + 1);
    }
}

/// Every occurrence of `pat` in `s` replaced by `rep`.
pub fn replace_all_chars(s: &[char], pat: &[char], rep: &[char]) -> (r: Vec<char>)
    requires
        pat@.len() > 0,
    ensures
        r@ == replace_all(s@, pat@, rep@),
{
    let mut out: Vec<char> = Vec::new();
    let mut pos: usize = 0;
    let slen = s.len();
    proof {
        assert(s@.skip(0) =~= s@);
    }
    while pos <= slen
        invariant
            pos <= slen,
            slen == s@.len(),
            pat@.len() > 0,
            out@ + replace_all(s@.skip(pos as int), pat@, rep@) == replace_all(s@, pat@, rep@),
        decreases slen - pos,
    {
        proof {
            lemma_find_from_skip(s@, pat@, pos as int, pos as int);
            lemma_find_from_bounds(s@, pat@, pos as int);
        }
        match find_from_exec(s, pat, pos) {
            Some(i) => {
                let ghost before = out@;
                let ghost t = s@.skip(pos as int);
                let mid = slice_chars(s, pos, i);
                extend_chars(&mut out, mid.as_slice());
                extend_chars(&mut out, rep);
                proof {
                    assert(find(t, pat@) == Some(i - pos));
                    assert(t.take(i - pos) =~= mid@);
                    assert(t.skip(i - pos + pat@.len()) =~= s@.skip(i + pat@.len()));
                    assert(replace_all(t, pat@, rep@) == mid@ + rep@ + replace_all(s@.skip(i + pat@.len()), pat@, rep@));
                    assert(out@ =~= before + mid@ + rep@);
                }
                pos = i + pat.len();
            },
            None => {
                let rest = slice_chars(s, pos, slen);
                proof {
                    assert(rest@ =~= s@.skip(pos as int));
                    assert(find(s@.skip(pos as int), pat@) is None);
                }
                extend_chars(&mut out, rest.as_slice());
                return out;
            },
        }
    }
    out
}

// ---------------------------------------------------------------------------
// Chapter content with embedded images
// ---------------------------------------------------------------------------

/// A double-quoted `src`, `href` or `xlink:href` attribute.
pub open spec fn resource_attr_pattern() -> Seq<char> {
    "(src|href|xlink:href)=\"([^\"]+)\""@
}

/// A reference to embed: not a data URI, web link, fragment or style sheet.
pub open spec fn is_embeddable(r: Seq<char>) -> bool {
    !starts_with(r, "data:"@) && !starts_with(r, "http://"@) && !starts_with(r, "https://"@) && !starts_with(
        r,
        "#"@,
    ) && !ends_with(r, ".css"@)
}

/// The directory of a chapter: everything before its last `/`.
pub open spec fn chapter_dir(chapter_path: Seq<char>) -> Seq<char> {
    match rfind_char(chapter_path, '/') {
        Some(i) => chapter_path.take(i),
        None => seq![],
    }
}

/// The resources a chapter asks for, in order: each embeddable attribute
/// value with the archive path it resolves to from `dir`.
pub open spec fn resource_requests(ps: Seq<(Seq<char>, Seq<Option<Seq<char>>>)>, dir: Seq<char>) -> Seq<(Seq<char>, Seq<char>)>
    decreases ps.len(),
{
    if ps.len() == 0 {
        seq![]
    } else {
        let prev = resource_requests(ps.drop_last(), dir);
        let r = group_or_empty(ps.last(), 2);
        if is_embeddable(r) {
            prev.push((r, spec_resolve_path(dir, r)))
        } else {
            prev
        }
    }
}

/// The text of capture group `g` of a match, empty where it took no part.
fn group_string(p: &MatchPiece, g: usize) -> (r: String)
    ensures
        r@ == group_or_empty(piece_view(*p), g as int),
{
    if g < p.1.len() {
        match &p.1[g] {
            Some(t) => t.clone(),
            None => String::new(),
        }
    } else {
        String::new()
    }
}

/// The resources a chapter at `chapter_path` asks for: each embeddable
/// reference with the archive path it resolves to; `None` exactly when the
/// pattern does not compile.
pub fn chapter_resource_requests(html: &str, chapter_path: &str) -> (r: Option<Vec<(String, String)>>)
    ensures
        r is Some <==> regex_compiles(resource_attr_pattern()),
        r matches Some(v) ==> crate::analyzer::pair_views(v@) == resource_requests(
            regex_split(resource_attr_pattern(), html@).0,
            chapter_dir(chapter_path@),
        ),
{
    let pieces = match regex_captures("(src|href|xlink:href)=\"([^\"]+)\"", html) {
        Some(v) => v.0,
        None => return None,
    };
    let cp = chars_of(chapter_path);
    proof {
        lemma_rfind_char_bounds(cp@, '/', cp@.len() as int);
    }
    let dir = match rfind_char_exec(cp.as_slice(), '/') {
        Some(i) => string_of(slice_chars(cp.as_slice(), 0, i).as_slice()),
        None => String::new(),
    };
    assert(dir@ == chapter_dir(chapter_path@));
    let ghost pv = pieces_view(pieces@);
    let mut out: Vec<(String, String)> = Vec::new();
    let mut i: usize = 0;
    while i < pieces.len()
        invariant
            i <= pieces@.len(),
            pv == pieces_view(pieces@),
            dir@ == chapter_dir(chapter_path@),
            crate::analyzer::pair_views(out@) == resource_requests(pv.take(i as int), dir@),
        decreases pieces@.len() - i,
    {
        proof {
            let t = pv.take(i + 1);
            assert(t.drop_last() =~= pv.take(i as int));
            assert(t.last() == piece_view(pieces@[i as int]));
        }
        let r = group_string(&pieces[i], 2);
        let rc = chars_of(r.as_str());
        let rs = rc.as_slice();
        if !starts_with_str(rs, "data:") && !starts_with_str(rs, "http://") && !starts_with_str(rs, "https://")
            && !starts_with_str(rs, "#") && !ends_with_str(rs, ".css") {
            let full = resolve_path(dir.as_str(), r.as_str());
            let ghost before = out@;
            out.push((r, full));
            proof {
                assert(crate::analyzer::pair_views(out@) =~= crate::analyzer::pair_views(before).push((r@, full@)));
            }
        }
        i += 1;
    }
    proof {
        assert(pv.take(pieces@.len() as int) =~= pv);
    }
    Some(out)
}

/// The digit of the standard Base64 alphabet for a six-bit value `v`.
pub open spec fn base64_digit(v: int) -> char {
    if v < 26 {
        (65 + v) as char
    } else if v < 52 {
        (97 + v - 26) as char
    } else if v < 62 {
        (48 + v - 52) as char
    } else if v == 62 {
        '+'
    } else {
        '/'
    }
}

/// The standard Base64 encoding of `bytes`: each group of three bytes as
/// four digits, a last group of one or two bytes padded with `=`.
pub open spec fn base64_standard(bytes: Seq<u8>) -> Seq<char>
    decreases bytes.len(),
{
    if bytes.len() == 0 {
        seq![]
    } else if bytes.len() == 1 {
        let a = bytes[0] as int;
        seq![base64_digit(a / 4), base64_digit((a % 4) * 16), '=', '=']
    } else if bytes.len() == 2 {
        let a = bytes[0] as int;
        let b = bytes[1] as int;
        seq![base64_digit(a / 4), base64_digit((a % 4) * 16 + b / 16), base64_digit((b % 16) * 4), '=']
    } else {
        let a = bytes[0] as int;
        let b = bytes[1] as int;
        let c = bytes[2] as int;
        seq![
            base64_digit(a / 4),
            base64_digit((a % 4) * 16 + b / 16),
            base64_digit((b % 16) * 4 + c / 64),
            base64_digit(c % 64),
        ] + base64_standard(bytes.skip(3))
    }
}

/// `base64::engine::general_purpose::STANDARD.encode`: the standard
/// alphabet (`A`-`Z`, `a`-`z`, `0`-`9`, `+`, `/`) with `=` padding, as
/// `base64_standard` states it.
#[verifier::external_body]
fn base64_encode(bytes: &[u8]) -> (r: String)
    ensures
        r@ == base64_standard(bytes@),
{
    base64::Engine::encode(&base64::engine::general_purpose::STANDARD, bytes)
}

/// The standard Base64 encoding of `bytes`, with padding.
pub fn base64_of(bytes: &[u8]) -> (r: String)
    ensures
        r@ == base64_standard(bytes@),
{
    base64_encode(bytes)
}

/// The view of an embedded resource: its key, media type and data.
pub open spec fn resource_view(r: (String, ResourceData)) -> (Seq<char>, Seq<char>, Seq<char>) {
    (r.0@, r.1.mime_type@, r.1.data@)
}

/// The views of embedded resources.
pub open spec fn resource_views(rs: Seq<(String, ResourceData)>) -> Seq<(Seq<char>, Seq<char>, Seq<char>)> {
    rs.map_values(|r: (String, ResourceData)| resource_view(r))
}

/// The view of a fetched request: key, archive path, and the bytes found
/// there (if any).
pub open spec fn fetched_view(f: (String, String, Option<Vec<u8>>)) -> (Seq<char>, Seq<char>, Option<Seq<u8>>) {
    (
        f.0@,
        f.1@,
        match f.2 {
            Some(b) => Some(b@),
            None => None,
        },
    )
}

/// The resources embedded from the fetched requests: each request with
/// bytes whose key is not embedded yet, with the media type of its path and
/// its bytes in Base64.
pub open spec fn embedded(fs: Seq<(Seq<char>, Seq<char>, Option<Seq<u8>>)>) -> Seq<(Seq<char>, Seq<char>, Seq<char>)>
    decreases fs.len(),
{
    if fs.len() == 0 {
        seq![]
    } else {
        let prev = embedded(fs.drop_last());
        let f = fs.last();
        if prev.map_values(|r: (Seq<char>, Seq<char>, Seq<char>)| r.0).contains(f.0) {
            prev
        } else {
            match f.2 {
                Some(b) => prev.push((f.0, spec_guess_mime_type(f.1), base64_standard(b))),
                None => prev,
            }
        }
    }
}

/// Whether the key is among the embedded resources.
fn has_key(rs: &Vec<(String, ResourceData)>, key: &[char]) -> (r: bool)
    ensures
        r == resource_views(rs@).map_values(|r: (Seq<char>, Seq<char>, Seq<char>)| r.0).contains(key@),
{
    let ghost ks = resource_views(rs@).map_values(|r: (Seq<char>, Seq<char>, Seq<char>)| r.0);
    let mut i: usize = 0;
    while i < rs.len()
        invariant
            i <= rs@.len(),
            ks == resource_views(rs@).map_values(|r: (Seq<char>, Seq<char>, Seq<char>)| r.0),
            forall|k: int| 0 <= k < i ==> ks[k] != key@,
        decreases rs@.len() - i,
    {
        let c = chars_of(rs[i].0.as_str());
        if chars_eq(c.as_slice(), key) {
            assert(ks[i as int] == key@);
            return true;
        }
        i += 1;
    }
    false
}

/// The data URI of an embedded resource.
pub open spec fn data_uri(mime: Seq<char>, data: Seq<char>) -> Seq<char> {
    "data:"@ + mime + ";base64,"@ + data
}

/// The HTML with each image resource's `src` and `xlink:href` references
/// replaced by its data URI, resource by resource.
pub open spec fn rewritten(html: Seq<char>, rs: Seq<(Seq<char>, Seq<char>, Seq<char>)>) -> Seq<char>
    decreases rs.len(),
{
    if rs.len() == 0 {
        html
    } else {
        let prev = rewritten(html, rs.drop_last());
        let r = rs.last();
        if starts_with(r.1, "image/"@) || contains(r.1, "svg"@) {
            let uri = data_uri(r.1, r.2);
            replace_all(
                replace_all(prev, "src=\""@ + r.0 + "\""@, "src=\""@ + uri + "\""@),
                "xlink:href=\""@ + r.0 + "\""@,
                "xlink:href=\""@ + uri + "\""@,
            )
        } else {
            prev
        }
    }
}

/// `name="value"` as characters.
fn quoted_attr(name: &str, value: &[char]) -> (r: Vec<char>)
    ensures
        r@ == name@ + "=\""@ + value@ + "\""@,
{
    let mut out = chars_of(name);
    extend_str(&mut out, "=\"");
    extend_chars(&mut out, value);
    extend_str(&mut out, "\"");
    out
}

/// The HTML with the references to image resources replaced by their data
/// URIs.
pub fn rewrite_resource_urls(html: &str, resources: &Vec<(String, ResourceData)>) -> (r: String)
    ensures
        r@ == rewritten(html@, resource_views(resources@)),
{
    let ghost rv = resource_views(resources@);
    let mut result = chars_of(html);
    let mut i: usize = 0;
    while i < resources.len()
        invariant
            i <= resources@.len(),
            rv == resource_views(resources@),
            result@ == rewritten(html@, rv.take(i as int)),
        decreases resources@.len() - i,
    {
        proof {
            let t = rv.take(i + 1);
            assert(t.drop_last() =~= rv.take(i as int));
            assert(t.last() == resource_view(resources@[i as int]));
            reveal_strlit("src");
            reveal_strlit("xlink:href");
            reveal_strlit("src=\"");
            reveal_strlit("xlink:href=\"");
            reveal_strlit("=\"");
            assert("src=\""@ =~= "src"@ + "=\""@);
            assert("xlink:href=\""@ =~= "xlink:href"@ + "=\""@);
        }
        let mime = chars_of(resources[i].1.mime_type.as_str());
        if starts_with_str(mime.as_slice(), "image/") || contains_str_exec(mime.as_slice(), "svg") {
            let mut uri = chars_of("data:");
            extend_chars(&mut uri, mime.as_slice());
            extend_str(&mut uri, ";base64,");
            extend_str(&mut uri, resources[i].1.data.as_str());
            let key = chars_of(resources[i].0.as_str());
            let p1 = quoted_attr("src", key.as_slice());
            let r1 = quoted_attr("src", uri.as_slice());
            let p2 = quoted_attr("xlink:href", key.as_slice());
            let r2 = quoted_attr("xlink:href", uri.as_slice());
            let step = replace_all_chars(result.as_slice(), p1.as_slice(), r1.as_slice());
            result = replace_all_chars(step.as_slice(), p2.as_slice(), r2.as_slice());
        }
        i += 1;
    }
    proof {
        assert(rv.take(resources@.len() as int) =~= rv);
    }
    string_of(result.as_slice())
}

/// The content of a chapter for reading, from its HTML and its resource
/// requests as fetched from the archive: the images embedded as data URIs.
pub fn chapter_content_from(html: &str, fetched: &Vec<(String, String, Option<Vec<u8>>)>) -> (r: ChapterContent)
    ensures
        resource_views(r.resources@) == embedded(fetched@.map_values(|f: (String, String, Option<Vec<u8>>)| fetched_view(f))),
        r.html@ == rewritten(html@, resource_views(r.resources@)),
{
    let ghost fv = fetched@.map_values(|f: (String, String, Option<Vec<u8>>)| fetched_view(f));
    let mut resources: Vec<(String, ResourceData)> = Vec::new();
    let mut i: usize = 0;
    while i < fetched.len()
        invariant
            i <= fetched@.len(),
            fv == fetched@.map_values(|f: (String, String, Option<Vec<u8>>)| fetched_view(f)),
            resource_views(resources@) == embedded(fv.take(i as int)),
        decreases fetched@.len() - i,
    {
        proof {
            let t = fv.take(i + 1);
            assert(t.drop_last() =~= fv.take(i as int));
            assert(t.last() == fetched_view(fetched@[i as int]));
        }
        let key = chars_of(fetched[i].0.as_str());
        if !has_key(&resources, key.as_slice()) {
            match &fetched[i].2 {
                Some(bytes) => {
                    let data = ResourceData {
                        mime_type: guess_mime_type(fetched[i].1.as_str()),
                        data: base64_encode(bytes.as_slice()),
                    };
                    let ghost before = resources@;
                    let item = (fetched[i].0.clone(), data);
                    resources.push(item);
                    proof {
                        assert(resource_views(resources@) =~= resource_views(before).push(resource_view(item)));
                    }
                },
                None => {},
            }
        }
        i += 1;
    }
    proof {
        assert(fv.take(fetched@.len() as int) =~= fv);
    }
    let html2 = rewrite_resource_urls(html, &resources);
    ChapterContent { html: html2, resources }
}

// ---------------------------------------------------------------------------
// The structure of the original package
// ---------------------------------------------------------------------------

/// The kind of a manifest item for the structure: 0 style, 1 image, 2 NCX,
/// 3 navigation document, 4 anything else.
pub open spec fn structure_kind(it: ManifestItem) -> int {
    if starts_with(it.media_type@, "text/css"@) {
        0
    } else if starts_with(it.media_type@, "image/"@) {
        1
    } else if it.media_type@ == "application/x-dtbncx+xml"@ {
        2
    } else if spec_has_property(it, "nav"@) {
        3
    } else {
        4
    }
}

/// The hrefs of the items of a kind, in manifest order.
pub open spec fn hrefs_of_kind(items: Seq<ManifestItem>, k: int) -> Seq<Seq<char>>
    decreases items.len(),
{
    if items.len() == 0 {
        seq![]
    } else if structure_kind(items.last()) == k {
        hrefs_of_kind(items.drop_last(), k).push(items.last().href@)
    } else {
        hrefs_of_kind(items.drop_last(), k)
    }
}

/// The href of the last item of a kind.
pub open spec fn last_href_of_kind(items: Seq<ManifestItem>, k: int) -> Option<Seq<char>> {
    let hs = hrefs_of_kind(items, k);
    if hs.len() == 0 {
        None
    } else {
        Some(hs.last())
    }
}

/// The view of a chapter of the original package.
pub open spec fn chapter_info_view(c: ChapterInfo) -> (Seq<char>, Seq<char>, Seq<char>, nat) {
    (c.id@, c.path@, c.name@, c.order as nat)
}

/// The chapters of the first `n` spine entries: each entry whose id names
/// a manifest item, with that item's id and href, the name after its last
/// `/`, and the entry's position.
pub open spec fn spine_chapter_infos(items: Seq<ManifestItem>, refs: Seq<SpineItemref>, n: int) -> Seq<(Seq<char>, Seq<char>, Seq<char>, nat)>
    decreases n,
{
    if n <= 0 || n > refs.len() {
        seq![]
    } else {
        let prev = spine_chapter_infos(items, refs, n - 1);
        match item_with_id(items, refs[n - 1].idref@, items.len() as int) {
            Some(k) => prev.push((items[k].id@, items[k].href@, after_last_slash(items[k].href@), (n - 1) as nat)),
            None => prev,
        }
    }
}

/// The structure of the original package as the front end shows it: its
/// metadata, the OPF's directory and path, the chapters in spine order,
/// and the hrefs of its styles, images, NCX and navigation document in
/// manifest order (the last NCX and navigation document).
pub fn convert_to_structure_result(parsed: &ParsedEpub, opf_path: &str) -> (r: EpubStructureResult)
    ensures
        metadata_view(r.metadata) == metadata_view(parsed.metadata),
        r.oebps_path@ == spec_opf_base_path(opf_path@),
        r.content_opf@ == opf_path@,
        r.chapters@.map_values(|c: ChapterInfo| chapter_info_view(c)) == spine_chapter_infos(
            parsed.manifest.items@,
            parsed.spine.itemrefs@,
            parsed.spine.itemrefs@.len() as int,
        ),
        string_views(r.styles@) == hrefs_of_kind(parsed.manifest.items@, 0),
        string_views(r.images@) == hrefs_of_kind(parsed.manifest.items@, 1),
        opt_seq(r.toc_ncx) == last_href_of_kind(parsed.manifest.items@, 2),
        opt_seq(r.nav_xhtml) == last_href_of_kind(parsed.manifest.items@, 3),
{
    let items = &parsed.manifest.items;
    let refs = &parsed.spine.itemrefs;
    let mut chapters: Vec<ChapterInfo> = Vec::new();
    let mut n: usize = 0;
    while n < refs.len()
        invariant
            n <= refs@.len(),
            chapters@.map_values(|c: ChapterInfo| chapter_info_view(c)) == spine_chapter_infos(items@, refs@, n as int),
        decreases refs@.len() - n,
    {
        match find_manifest_item(items, refs[n].idref.as_str()) {
            Some(k) => {
                let href = chars_of(items[k].href.as_str());
                proof {
                    lemma_rfind_char_bounds(href@, '/', href@.len() as int);
                }
                let name = match rfind_char_exec(href.as_slice(), '/') {
                    Some(p) => {
                        let hlen = href.len();
                        assert(p < hlen);
                        slice_chars(href.as_slice(), p + 1, hlen)
                    },
                    None => chars_of(items[k].href.as_str()),
                };
                let c = ChapterInfo {
                    id: items[k].id.clone(),
                    path: items[k].href.clone(),
                    name: string_of(name.as_slice()),
                    order: n,
                };
                let ghost before = chapters@;
                chapters.push(c);
                proof {
                    assert(chapters@.map_values(|c: ChapterInfo| chapter_info_view(c)) =~= before.map_values(
                        |c: ChapterInfo| chapter_info_view(c),
                    ).push(chapter_info_view(c)));
                }
            },
            None => {},
        }
        n += 1;
    }
    let mut styles: Vec<String> = Vec::new();
    let mut images: Vec<String> = Vec::new();
    let mut toc_ncx: Option<String> = None;
    let mut nav_xhtml: Option<String> = None;
    let mut i: usize = 0;
    while i < items.len()
        invariant
            i <= items@.len(),
            string_views(styles@) == hrefs_of_kind(items@.take(i as int), 0),
            string_views(images@) == hrefs_of_kind(items@.take(i as int), 1),
            opt_seq(toc_ncx) == last_href_of_kind(items@.take(i as int), 2),
            opt_seq(nav_xhtml) == last_href_of_kind(items@.take(i as int), 3),
        decreases items@.len() - i,
    {
        proof {
            let t = items@.take(i + 1);
            assert(t.drop_last() =~= items@.take(i as int));
            assert(t.last() == items@[i as int]);
        }
        let it = &items[i];
        let mt = chars_of(it.media_type.as_str());
        let ghost bs = styles@;
        let ghost bi = images@;
        if starts_with_str(mt.as_slice(), "text/css") {
            styles.push(it.href.clone());
            proof {
                assert(string_views(styles@) =~= string_views(bs).push(it.href@));
            }
        } else if starts_with_str(mt.as_slice(), "image/") {
            images.push(it.href.clone());
            proof {
                assert(string_views(images@) =~= string_views(bi).push(it.href@));
            }
        } else if is_lit(mt.as_slice(), "application/x-dtbncx+xml") {
            toc_ncx = Some(it.href.clone());
        } else if has_property(it, "nav") {
            nav_xhtml = Some(it.href.clone());
        }
        i += 1;
    }
    proof {
        assert(items@.take(items@.len() as int) =~= items@);
    }
    EpubStructureResult {
        metadata: copy_metadata(&parsed.metadata),
        oebps_path: get_opf_base_path(opf_path),
        content_opf: opf_path.to_string(),
        toc_ncx,
        nav_xhtml,
        chapters,
        styles,
        images,
    }
}

/// Whether `m` holds the characters of the literal `lit`.
fn is_lit(m: &[char], lit: &str) -> (r: bool)
    ensures
        r == (m@ == lit@),
{
    let l = chars_of(lit);
    chars_eq(m, l.as_slice())
}

/// Where a reference of a chapter of the standardized package points: a
/// path under `OEBPS/` as it is (normalized), a path into a standard
/// directory under `OEBPS/`, anything else resolved against the chapter's
/// directory.
pub open spec fn refactored_target(chapter_path: Seq<char>, r: Seq<char>) -> Seq<char> {
    let p = path_part(r);
    if starts_with(p, "OEBPS/"@) {
        spec_normalize(p)
    } else if spec_has_standard_dir_prefix(p) {
        spec_manifest_path(p)
    } else {
        spec_resolve_relative(spec_parent(chapter_path), p)
    }
}

/// The resources a chapter of the standardized package asks for, in
/// order: each reference that is a file and not a style sheet, with the
/// package path it points to.
pub open spec fn refactored_requests(ps: Seq<(Seq<char>, Seq<Option<Seq<char>>>)>, chapter_path: Seq<char>) -> Seq<(Seq<char>, Seq<char>)>
    decreases ps.len(),
{
    if ps.len() == 0 {
        seq![]
    } else {
        let prev = refactored_requests(ps.drop_last(), chapter_path);
        let r = group_or_empty(ps.last(), 2);
        if !spec_should_skip_reference(r) && !ends_with(r, ".css"@) {
            prev.push((r, refactored_target(chapter_path, r)))
        } else {
            prev
        }
    }
}

/// The resources a chapter of the standardized package asks for; `None`
/// exactly when the pattern does not compile.
pub fn refactored_resource_requests(html: &str, chapter_path: &str) -> (r: Option<Vec<(String, String)>>)
    ensures
        r is Some <==> regex_compiles(resource_attr_pattern()),
        r matches Some(v) ==> crate::analyzer::pair_views(v@) == refactored_requests(
            regex_split(resource_attr_pattern(), html@).0,
            chapter_path@,
        ),
{
    let pieces = match regex_captures("(src|href|xlink:href)=\"([^\"]+)\"", html) {
        Some(v) => v.0,
        None => return None,
    };
    let dir = parent(chapter_path);
    let ghost pv = pieces_view(pieces@);
    let mut out: Vec<(String, String)> = Vec::new();
    let mut i: usize = 0;
    while i < pieces.len()
        invariant
            i <= pieces@.len(),
            pv == pieces_view(pieces@),
            dir@ == spec_parent(chapter_path@),
            crate::analyzer::pair_views(out@) == refactored_requests(pv.take(i as int), chapter_path@),
        decreases pieces@.len() - i,
    {
        proof {
            let t = pv.take(i + 1);
            assert(t.drop_last() =~= pv.take(i as int));
            assert(t.last() == piece_view(pieces@[i as int]));
        }
        let r = group_string(&pieces[i], 2);
        let rc = chars_of(r.as_str());
        if !should_skip_reference(r.as_str()) && !ends_with_str(rc.as_slice(), ".css") {
            let (p, _) = split_reference_suffix(r.as_str());
            let pc = chars_of(p);
            let full = if starts_with_str(pc.as_slice(), "OEBPS/") {
                normalize(p)
            } else if has_standard_dir_prefix(p) {
                manifest_path(p)
            } else {
                resolve_relative(dir.as_str(), p)
            };
            let ghost before = out@;
            out.push((r, full));
            proof {
                assert(crate::analyzer::pair_views(out@) =~= crate::analyzer::pair_views(before).push((r@, full@)));
            }
        }
        i += 1;
    }
    proof {
        assert(pv.take(pieces@.len() as int) =~= pv);
    }
    Some(out)
}

} // verus!
