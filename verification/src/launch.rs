//! The EPUB files named on the command line or by the system when the
//! application is asked to open them.

use vstd::prelude::*;
use crate::text::{chars_eq, chars_of, lowercase, lowercase_chars, slice_chars, starts_with, starts_with_str, string_of, trim, trim_chars};
use crate::epub_path::string_views;
use crate::image_handler::{ascii_lower, eq_ignore_ascii_case};

verus! {

/// `s` without leading double quotes.
pub open spec fn strip_leading_quotes(s: Seq<char>) -> Seq<char>
    decreases s.len(),
{
    if s.len() > 0 && s[0] == '"' {
        strip_leading_quotes(s.drop_first())
    } else {
        s
    }
}

/// `s` without trailing double quotes.
pub open spec fn strip_trailing_quotes(s: Seq<char>) -> Seq<char>
    decreases s.len(),
{
    if s.len() > 0 && s.last() == '"' {
        strip_trailing_quotes(s.drop_last())
    } else {
        s
    }
}

/// The path text of an open request: trimmed, without surrounding double
/// quotes, and without a `file://` prefix; none when nothing is left.
pub open spec fn spec_open_arg_path(arg: Seq<char>) -> Option<Seq<char>> {
    let t = strip_trailing_quotes(strip_leading_quotes(trim(arg)));
    if t.len() == 0 {
        None
    } else if starts_with(t, "file://"@) {
        Some(t.skip(7))
    } else {
        Some(t)
    }
}

/// The path text of an open request.
pub fn open_arg_path(arg: &str) -> (r: Option<String>)
    ensures
        match r {
            Some(p) => spec_open_arg_path(arg@) == Some(p@),
            None => spec_open_arg_path(arg@) is None,
        },
{
    let a = chars_of(arg);
    let t = trim_chars(a.as_slice());
    let mut lo: usize = 0;
    let tlen = t.len();
    proof {
        assert(t@.skip(0) =~= t@);
    }
    while lo < tlen && t[lo] == '"'
        invariant
            lo <= tlen,
            tlen == t@.len(),
            strip_leading_quotes(t@) == strip_leading_quotes(t@.skip(lo as int)),
        decreases tlen - lo,
    {
        proof {
            assert(t@.skip(lo as int).drop_first() =~= t@.skip(lo + 1));
        }
        lo += 1;
    }
    let mut hi: usize = tlen;
    let ghost s = t@.skip(lo as int);
    proof {
        assert(strip_leading_quotes(t@) == s);
        assert(s.take(s.len() as int) =~= s);
    }
    while hi > lo && t[hi - 1] == '"'
        invariant
            lo <= hi <= tlen,
            tlen == t@.len(),
            s == t@.skip(lo as int),
            strip_trailing_quotes(s) == strip_trailing_quotes(s.take(hi - lo)),
        decreases hi,
    {
        proof {
            assert(s.take(hi - lo).drop_last() =~= s.take(hi - 1 - lo));
        }
        hi -= 1;
    }
    let core = slice_chars(t.as_slice(), lo, hi);
    proof {
        assert(core@ =~= s.take(hi - lo));
        reveal_strlit("file://");
    }
    if core.len() == 0 {
        return None;
    }
    if starts_with_str(core.as_slice(), "file://") {
        let rest = slice_chars(core.as_slice(), 7, core.len());
        Some(string_of(rest.as_slice()))
    } else {
        Some(string_of(core.as_slice()))
    }
}

/// The paths with the same lowercase form as an earlier one left out.
pub open spec fn distinct_ignoring_case(ps: Seq<Seq<char>>) -> Seq<Seq<char>>
    decreases ps.len(),
{
    if ps.len() == 0 {
        seq![]
    } else {
        let prev = distinct_ignoring_case(ps.drop_last());
        if prev.map_values(|p: Seq<char>| lowercase(p)).contains(lowercase(ps.last())) {
            prev
        } else {
            prev.push(ps.last())
        }
    }
}

/// The paths, each once ignoring case, the first of each kept, in order.
pub fn collect_epub_open_paths(paths: &Vec<String>) -> (r: Vec<String>)
    ensures
        string_views(r@) == distinct_ignoring_case(string_views(paths@)),
{
    let ghost pv = string_views(paths@);
    let mut out: Vec<String> = Vec::new();
    let mut keys: Vec<Vec<char>> = Vec::new();
    let mut i: usize = 0;
    while i < paths.len()
        invariant
            i <= paths@.len(),
            pv == string_views(paths@),
            string_views(out@) == distinct_ignoring_case(pv.take(i as int)),
            keys@.map_values(|k: Vec<char>| k@) == string_views(out@).map_values(|p: Seq<char>| lowercase(p)),
        decreases paths@.len() - i,
    {
        proof {
            let t = pv.take(i + 1);
            assert(t.drop_last() =~= pv.take(i as int));
            assert(t.last() == paths@[i as int]@);
        }
        let p = chars_of(paths[i].as_str());
        let key = lowercase_chars(p.as_slice());
        let ghost kv = keys@.map_values(|k: Vec<char>| k@);
        let mut found = false;
        let mut j: usize = 0;
        while j < keys.len()
            invariant
                j <= keys@.len(),
                kv == keys@.map_values(|k: Vec<char>| k@),
                found == (exists|m: int| 0 <= m < j && kv[m] == key@),
            decreases keys@.len() - j,
        {
            let same = chars_eq(keys[j].as_slice(), key.as_slice());
            proof {
                if same {
                    assert(kv[j as int] == key@);
                } else {
                    assert forall|m: int| 0 <= m < j + 1 && kv[m] == key@ implies m < j by {}
                }
            }
            if same {
                found = true;
            }
            j += 1;
        }
        if !found {
            let ghost before = out@;
            out.push(paths[i].clone());
            keys.push(key);
            proof {
                assert(string_views(out@) =~= string_views(before).push(p@));
                assert(keys@.map_values(|k: Vec<char>| k@) =~= kv.push(key@));
                assert(string_views(out@).map_values(|q: Seq<char>| lowercase(q)) =~= string_views(before).map_values(
                    |q: Seq<char>| lowercase(q),
                ).push(lowercase(p@)));
            }
        }
        i += 1;
    }
    proof {
        assert(pv.take(paths@.len() as int) =~= pv);
    }
    out
}

/// Whether a file extension is `epub` in any ASCII case.
pub fn is_epub_extension(ext: &str) -> (r: bool)
    ensures
        r == eq_ignore_ascii_case(ext@, "epub"@),
{
    let e = chars_of(ext);
    let want = chars_of("epub");
    if e.len() != want.len() {
        return false;
    }
    let mut i: usize = 0;
    while i < e.len()
        invariant
            i <= e@.len(),
            e@ == ext@,
            want@ == "epub"@,
            e@.len() == want@.len(),
            forall|k: int| 0 <= k < i ==> ascii_lower(#[trigger] e@[k]) == ascii_lower(want@[k]),
        decreases e@.len() - i,
    {
        let a = if 'A' <= e[i] && e[i] <= 'Z' {
            ((e[i] as u32) + 32) as u8 as char
        } else {
            e[i]
        };
        let b = if 'A' <= want[i] && want[i] <= 'Z' {
            ((want[i] as u32) + 32) as u8 as char
        } else {
            want[i]
        };
        if a != b {
            assert(ascii_lower(e@[i as int]) != ascii_lower(want@[i as int]));
            return false;
        }
        i += 1;
    }
    true
}

/// Whether the first bytes of a file are the ZIP local header signature
/// `PK\x03\x04`.
pub fn has_zip_signature(header: &[u8]) -> (r: bool)
    ensures
        r == (header@ == seq![0x50u8, 0x4Bu8, 0x03u8, 0x04u8]),
{
    if header.len() != 4 {
        return false;
    }
    let r = header[0] == 0x50 && header[1] == 0x4B && header[2] == 0x03 && header[3] == 0x04;
    proof {
        if r {
            assert(header@ =~= seq![0x50u8, 0x4Bu8, 0x03u8, 0x04u8]);
        }
    }
    r
}

} // verus!
