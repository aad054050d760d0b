//! Laws of package paths: a relative reference computed from one directory
//! to a file resolves, from that directory, back to the file.

use vstd::prelude::*;
use crate::epub_path::{
    apply_parts, common_len, join, oebps, path_part, percent_decode, relative_parts, segments, segs,
    spec_manifest_path, spec_normalize, spec_relative_path, spec_resolve_relative, spec_strip_oebps_prefix,
    strip_dot_slash, suffix_pos_from,
    trim_leading_slashes, ups,
};
use crate::text::{replace_char, starts_with};

verus! {

/// A character that changes nothing under normalization and splitting: no
/// separator, no suffix start, no escape, no backslash.
pub open spec fn inert_char(c: char) -> bool {
    c != '/' && c != '#' && c != '?' && c != '%' && c != '\\'
}

/// A component made of inert characters only.
pub open spec fn inert_component(c: Seq<char>) -> bool {
    c.len() > 0 && forall|i: int| 0 <= i < c.len() ==> inert_char(#[trigger] c[i])
}

/// A plain file or directory name: inert, and neither `.` nor `..`.
pub open spec fn plain_component(c: Seq<char>) -> bool {
    inert_component(c) && c != seq!['.'] && c != seq!['.', '.']
}

/// Plain names only.
pub open spec fn plain_parts(ps: Seq<Seq<char>>) -> bool {
    forall|i: int| 0 <= i < ps.len() ==> plain_component(#[trigger] ps[i])
}

/// Inert components, the first of them not `.`.
pub open spec fn clean_parts(ps: Seq<Seq<char>>) -> bool {
    &&& forall|i: int| 0 <= i < ps.len() ==> inert_component(#[trigger] ps[i])
    &&& (ps.len() > 0 ==> ps[0] != seq!['.'])
}

/// Text of a path that normalization leaves as it is.
pub open spec fn normal_text(s: Seq<char>) -> bool {
    &&& forall|i: int| 0 <= i < s.len() ==> (#[trigger] s[i] != '#' && s[i] != '?' && s[i] != '%' && s[i] != '\\')
    &&& (s.len() > 0 ==> s[0] != '/')
    &&& !(s.len() >= 2 && s[0] == '.' && s[1] == '/')
}

/// Without `#` and `?` the whole text is the path.
proof fn lemma_no_suffix(s: Seq<char>, i: int)
    requires
        0 <= i,
        forall|k: int| 0 <= k < s.len() ==> (#[trigger] s[k] != '#' && s[k] != '?'),
    ensures
        suffix_pos_from(s, i) == s.len(),
    decreases s.len() - i,
{
    if i < s.len() {
        lemma_no_suffix(s, i + 1);
    }
}

/// Normalization leaves normal text as it is.
proof fn lemma_normal_text(s: Seq<char>)
    requires
        normal_text(s),
    ensures
        spec_normalize(s) == s,
{
    lemma_no_suffix(s, 0);
    assert(path_part(s) =~= s);
    assert(!s.contains('%')) by {
        if s.contains('%') {
            let k = choose|k: int| 0 <= k < s.len() && s[k] == '%';
            assert(s[k] != '%');
        }
    }
    assert(percent_decode(s) == s);
    assert(replace_char(s, '\\', '/') =~= s);
    assert(trim_leading_slashes(s) == s);
    assert(strip_dot_slash(s) == s);
}

/// Joining clean components gives normal text.
proof fn lemma_join_normal(ps: Seq<Seq<char>>)
    requires
        clean_parts(ps),
    ensures
        normal_text(join(ps)),
        ps.len() > 0 ==> join(ps).len() >= ps[0].len() && join(ps).subrange(0, ps[0].len() as int) == ps[0],
        ps.len() > 1 ==> join(ps).len() > ps[0].len() && join(ps)[ps[0].len() as int] == '/',
        forall|k: int| 0 <= k < join(ps).len() ==> #[trigger] join(ps)[k] == '/' || inert_char(join(ps)[k]),
    decreases ps.len(),
{
    if ps.len() == 0 {
    } else if ps.len() == 1 {
        assert(join(ps) == ps[0]);
        assert(ps[0].subrange(0, ps[0].len() as int) =~= ps[0]);
        let s = join(ps);
        assert(inert_char(s[0]));
        if s.len() >= 2 && s[0] == '.' && s[1] == '/' {
            assert(inert_char(s[1]));
        }
    } else {
        let t = ps.drop_last();
        assert(clean_parts(t)) by {
            assert forall|i: int| 0 <= i < t.len() implies inert_component(#[trigger] t[i]) by {
                assert(t[i] == ps[i]);
            }
        }
        lemma_join_normal(t);
        let a = join(t);
        let x = ps.last();
        let s = join(ps);
        assert(s == a + seq!['/'] + x);
        assert(inert_component(ps[ps.len() - 1]));
        assert forall|k: int| 0 <= k < s.len() implies #[trigger] s[k] == '/' || inert_char(s[k]) by {
            if k < a.len() {
                assert(s[k] == a[k]);
            } else if k > a.len() {
                assert(s[k] == x[k - a.len() - 1]);
            }
        }
        assert(s.subrange(0, ps[0].len() as int) =~= a.subrange(0, ps[0].len() as int));
        assert(t[0] == ps[0]);
        if t.len() == 1 {
            assert(a == ps[0]);
            assert(s[a.len() as int] == '/');
        } else {
            assert(s[ps[0].len() as int] == a[ps[0].len() as int]);
        }
        assert(inert_component(ps[0]));
        assert(s[0] == ps[0][0]);
        if s.len() >= 2 && s[0] == '.' && s[1] == '/' {
            if ps[0].len() >= 2 {
                assert(s[1] == ps[0][1]);
                assert(inert_char(ps[0][1]));
            } else {
                assert(ps[0] =~= seq!['.']);
            }
        }
    }
}

/// Scanning a component without `/` to its end gives the component.
proof fn lemma_segs_tail(s: Seq<char>, p: int, i: int)
    requires
        0 <= p <= i <= s.len(),
        p < s.len(),
        forall|k: int| p <= k < s.len() ==> #[trigger] s[k] != '/',
    ensures
        segs(s, p, i) == seq![s.subrange(p, s.len() as int)],
    decreases s.len() - i,
{
    if i < s.len() {
        lemma_segs_tail(s, p, i + 1);
    }
}

/// Appending `/` and a component adds that component.
proof fn lemma_segs_append(a: Seq<char>, x: Seq<char>, start: int, i: int)
    requires
        0 <= start <= i <= a.len(),
        x.len() > 0,
        forall|k: int| 0 <= k < x.len() ==> #[trigger] x[k] != '/',
    ensures
        segs(a + seq!['/'] + x, start, i) == segs(a, start, i) + seq![x],
    decreases a.len() - i,
{
    let s = a + seq!['/'] + x;
    let p = a.len() + 1 as int;
    assert forall|k: int| p <= k < s.len() implies #[trigger] s[k] != '/' by {
        assert(s[k] == x[k - p]);
    }
    lemma_segs_tail(s, p, p);
    assert(s.subrange(p, s.len() as int) =~= x);
    if i == a.len() {
        assert(s[i] == '/');
        if start < i {
            assert(s.subrange(start, i) =~= a.subrange(start, i));
        }
    } else {
        assert(s[i] == a[i]);
        lemma_segs_append(a, x, i + 1, i + 1);
        lemma_segs_append(a, x, start, i + 1);
        if a[i] == '/' && start < i {
            assert(s.subrange(start, i) =~= a.subrange(start, i));
        }
    }
}

/// Splitting joined components gives them back.
proof fn lemma_segments_join(ps: Seq<Seq<char>>)
    requires
        forall|i: int| 0 <= i < ps.len() ==> (#[trigger] ps[i]).len() > 0 && (forall|k: int| 0 <= k < ps[i].len() ==> ps[i][k] != '/'),
    ensures
        segments(join(ps)) == ps,
    decreases ps.len(),
{
    if ps.len() == 0 {
        assert(segments(join(ps)) =~= ps);
    } else if ps.len() == 1 {
        let x = ps[0];
        lemma_segs_tail(x, 0, 0);
        assert(x.subrange(0, x.len() as int) =~= x);
        assert(segments(join(ps)) =~= ps);
    } else {
        let t = ps.drop_last();
        assert forall|i: int| 0 <= i < t.len() implies (#[trigger] t[i]).len() > 0 && (forall|k: int| 0 <= k < t[i].len() ==> t[i][k] != '/') by {
            assert(t[i] == ps[i]);
        }
        lemma_segments_join(t);
        let x = ps.last();
        assert(x == ps[ps.len() - 1]);
        lemma_segs_append(join(t), x, 0, 0);
        assert(segments(join(ps)) =~= ps);
    }
}

/// Going up `n` levels, then down through plain names.
proof fn lemma_apply_ups(base: Seq<Seq<char>>, n: nat, rest: Seq<Seq<char>>)
    requires
        n <= base.len(),
        plain_parts(rest),
    ensures
        apply_parts(base, ups(n) + rest) == base.take(base.len() - n) + rest,
    decreases n, rest.len(),
{
    if n > 0 {
        let parts = ups(n) + rest;
        assert(parts[0] == seq!['.', '.']);
        assert(parts.drop_first() =~= ups((n - 1) as nat) + rest);
        lemma_apply_ups(base.drop_last(), (n - 1) as nat, rest);
        assert(base.drop_last().take(base.drop_last().len() - (n - 1)) =~= base.take(base.len() - n));
    } else if rest.len() > 0 {
        let parts = ups(0) + rest;
        assert(parts =~= rest);
        assert(plain_component(rest[0]));
        let r2 = rest.drop_first();
        assert(plain_parts(r2)) by {
            assert forall|i: int| 0 <= i < r2.len() implies plain_component(#[trigger] r2[i]) by {
                assert(r2[i] == rest[i + 1]);
            }
        }
        lemma_apply_ups(base.push(rest[0]), 0, r2);
        assert(ups(0) + r2 =~= r2);
        assert(base.push(rest[0]).take(base.len() + 1 as int) + r2 =~= base.take(base.len() as int) + rest);
    } else {
        assert(ups(0) + rest =~= Seq::<Seq<char>>::empty());
        assert(base.take(base.len() as int) + rest =~= base);
    }
}

/// The shared leading components are shared.
proof fn lemma_common_len(a: Seq<Seq<char>>, b: Seq<Seq<char>>)
    ensures
        common_len(a, b) <= a.len(),
        common_len(a, b) <= b.len(),
        a.take(common_len(a, b) as int) == b.take(common_len(a, b) as int),
        common_len(a, b) < a.len() && common_len(a, b) < b.len() ==> a[common_len(a, b) as int] != b[common_len(a, b) as int],
    decreases a.len(),
{
    if a.len() == 0 || b.len() == 0 || a[0] != b[0] {
        assert(a.take(0) =~= b.take(0));
    } else {
        lemma_common_len(a.drop_first(), b.drop_first());
        let c = common_len(a.drop_first(), b.drop_first());
        assert(a.take(c + 1 as int) =~= seq![a[0]] + a.drop_first().take(c as int));
        assert(b.take(c + 1 as int) =~= seq![b[0]] + b.drop_first().take(c as int));
    }
}

/// A relative reference computed from one directory to a file resolves,
/// from that directory, back to the file; for plain names, a file that is
/// not the directory itself, and no `OEBPS` name below the top level.
pub proof fn law_relative_path_resolves(fp: Seq<Seq<char>>, tp: Seq<Seq<char>>)
    requires
        plain_parts(fp),
        plain_parts(tp),
        tp.len() > 0,
        fp != tp,
        forall|k: int| 1 <= k < tp.len() ==> #[trigger] tp[k] != seq!['O', 'E', 'B', 'P', 'S'],
    ensures
        spec_resolve_relative(join(fp), spec_relative_path(join(fp), join(tp))) == join(tp),
{
    assert(clean_parts(fp) && clean_parts(tp));
    lemma_join_normal(fp);
    lemma_join_normal(tp);
    lemma_normal_text(join(fp));
    lemma_normal_text(join(tp));
    lemma_segments_join(fp);
    lemma_segments_join(tp);
    lemma_common_len(fp, tp);
    let c = common_len(fp, tp);
    let n = (fp.len() - c) as nat;
    let parts = ups(n) + tp.skip(c as int);
    assert(relative_parts(join(fp), join(tp)) == parts);
    if parts.len() == 0 {
        assert(fp =~= fp.take(c as int));
        assert(tp =~= tp.take(c as int));
    }
    let rel = join(parts);
    assert(spec_relative_path(join(fp), join(tp)) == rel);
    assert(clean_parts(parts)) by {
        assert forall|i: int| 0 <= i < parts.len() implies inert_component(#[trigger] parts[i]) by {
            if i >= n {
                assert(parts[i] == tp[c + i - n]);
            } else {
                assert(parts[i] == seq!['.', '.']);
            }
        }
        if parts.len() > 0 {
            if n > 0 {
                assert(parts[0] == seq!['.', '.']);
            } else {
                assert(parts[0] == tp[c as int]);
            }
        }
    }
    lemma_join_normal(parts);
    lemma_normal_text(rel);
    lemma_no_suffix(rel, 0);
    assert(path_part(rel) =~= rel);
    lemma_segments_join(parts);
    let rest = tp.skip(c as int);
    assert(plain_parts(rest)) by {
        assert forall|i: int| 0 <= i < rest.len() implies plain_component(#[trigger] rest[i]) by {
            assert(rest[i] == tp[c + i]);
        }
    }
    lemma_apply_ups(fp, n, rest);
    assert(fp.take(fp.len() - n) + rest =~= tp);
    if starts_with(rel, oebps()) {
        assert(rel[0] == 'O');
        if n > 0 {
            assert(parts[0] == seq!['.', '.']);
            assert(rel.subrange(0, 2) == parts[0]);
            assert(rel[0] == '.');
        } else {
            assert(rel.subrange(0, parts[0].len() as int) == parts[0]);
            if c > 0 {
                let x = parts[0];
                assert(x == tp[c as int]);
                assert(rel[5] == '/');
                if x.len() >= 6 {
                    assert(rel[5] == x[5]);
                    assert(inert_char(x[5]));
                } else {
                    assert(x.len() <= 5);
                    if x.len() == 5 {
                        assert(x =~= seq!['O', 'E', 'B', 'P', 'S']);
                    } else {
                        assert(parts.len() > 1);
                        assert(rel[x.len() as int] == '/');
                    }
                }
            } else {
                assert(fp.len() == 0);
                assert(parts =~= tp);
            }
        }
    }
    assert(!starts_with(rel, seq!['/']));
}

/// A path of plain segments: normal text whose `/`-separated segments are
/// neither empty nor `.`.
pub open spec fn plain_path(h: Seq<char>) -> bool {
    &&& normal_text(h)
    &&& forall|i: int| 0 <= i < h.len() && #[trigger] h[i] == '/' ==> i + 1 < h.len() && h[i + 1] != '/' && !(h[i + 1]
        == '.' && (i + 2 == h.len() || h[i + 2] == '/'))
}

/// `OEBPS/` followed by normal text is normal text.
proof fn lemma_prefixed_normal(h: Seq<char>)
    requires
        normal_text(h),
    ensures
        normal_text(oebps() + h),
{
    let s = oebps() + h;
    assert forall|i: int| 0 <= i < s.len() implies (#[trigger] s[i] != '#' && s[i] != '?' && s[i] != '%' && s[i] != '\\') by {
        if i >= 6 {
            assert(s[i] == h[i - 6]);
        }
    }
}

/// The manifest href of a package path and the package path of a manifest
/// href undo each other: for a path of plain segments (not starting with
/// `OEBPS/OEBPS/`), `manifest_path` gives the path under `OEBPS/`,
/// `to_opf_href` the path without it, and each applied after the other
/// gives the same as applied alone.
pub proof fn law_manifest_href_round_trip(h: Seq<char>)
    requires
        plain_path(h),
        !starts_with(h, oebps() + oebps()),
    ensures
        starts_with(spec_manifest_path(h), oebps()),
        !starts_with(spec_strip_oebps_prefix(h), oebps()),
        spec_strip_oebps_prefix(spec_manifest_path(h)) == spec_strip_oebps_prefix(h),
        spec_manifest_path(spec_strip_oebps_prefix(h)) == spec_manifest_path(h),
{
    lemma_normal_text(h);
    if starts_with(h, oebps()) {
        let t = h.skip(6);
        assert(h[5] == oebps()[5]);
        assert(h[5] == '/');
        assert(h[6] != '/');
        assert forall|i: int| 0 <= i < t.len() implies (#[trigger] t[i] != '#' && t[i] != '?' && t[i] != '%' && t[i] != '\\') by {
            assert(t[i] == h[i + 6]);
        }
        assert(t[0] == h[6]);
        if t.len() >= 2 && t[0] == '.' && t[1] == '/' {
            assert(h[7] == t[1]);
        }
        assert(normal_text(t));
        lemma_normal_text(t);
        if starts_with(t, oebps()) {
            assert(h.take(12) =~= oebps() + oebps()) by {
                assert forall|k: int| 0 <= k < 12 implies h.take(12)[k] == (oebps() + oebps())[k] by {
                    if k >= 6 {
                        assert(h[k] == t[k - 6]);
                        assert(t[k - 6] == t.take(6)[k - 6]);
                    } else {
                        assert(h[k] == h.take(6)[k]);
                    }
                }
            }
            assert(h.take(12) == h.subrange(0, 12));
        }
        assert(oebps() + t =~= h) by {
            assert(h.take(6) == h.subrange(0, 6));
        }
    } else {
        lemma_prefixed_normal(h);
        lemma_normal_text(oebps() + h);
        assert((oebps() + h).take(6) =~= oebps());
        assert((oebps() + h).skip(6) =~= h);
    }
}

} // verus!
