//! Regular-expression matching through the `regex` crate: the text is split
//! into the matches of a pattern and the text between them.

use vstd::prelude::*;
use crate::text::{chars_of, string_of, trim, trim_chars};

verus! {

/// A match as values: the text since the previous match (or the start),
/// and the text of each capture group, group 0 being the whole match.
pub type MatchPiece = (String, Vec<Option<String>>);

/// The view of an optional string.
pub open spec fn opt_seq(o: Option<String>) -> Option<Seq<char>> {
    match o {
        Some(s) => Some(s@),
        None => None,
    }
}

/// The view of one match.
pub open spec fn piece_view(p: MatchPiece) -> (Seq<char>, Seq<Option<Seq<char>>>) {
    (p.0@, p.1@.map_values(|g: Option<String>| opt_seq(g)))
}

/// The views of matches.
pub open spec fn pieces_view(ps: Seq<MatchPiece>) -> Seq<(Seq<char>, Seq<Option<Seq<char>>>)> {
    ps.map_values(|p: MatchPiece| piece_view(p))
}

/// What `Regex::captures_iter` finds of `pattern` in `text`: each
/// successive match as the text before it and its capture groups, and the
/// text after the last match.
pub uninterp spec fn regex_split(pattern: Seq<char>, text: Seq<char>) -> (Seq<(Seq<char>, Seq<Option<Seq<char>>>)>, Seq<char>);

/// Whether `Regex::new` accepts `pattern`: its syntax is valid and the
/// compiled program fits the default size limits.
pub uninterp spec fn regex_compiles(pattern: Seq<char>) -> bool;

/// The whole match of a piece.
pub open spec fn whole_match(p: (Seq<char>, Seq<Option<Seq<char>>>)) -> Seq<char> {
    match p.1[0] {
        Some(m) => m,
        None => seq![],
    }
}

/// The text the pieces came from: each gap followed by its match, then the tail.
pub open spec fn reassembled(ps: Seq<(Seq<char>, Seq<Option<Seq<char>>>)>, tail: Seq<char>) -> Seq<char>
    decreases ps.len(),
{
    if ps.len() == 0 {
        tail
    } else {
        ps[0].0 + whole_match(ps[0]) + reassembled(ps.drop_first(), tail)
    }
}

/// Every piece has its whole match as group 0.
pub open spec fn pieces_well_formed(ps: Seq<(Seq<char>, Seq<Option<Seq<char>>>)>) -> bool {
    forall|i: int| 0 <= i < ps.len() ==> (#[trigger] ps[i]).1.len() > 0 && ps[i].1[0] is Some
}

/// `Regex::new(pattern)` and `captures_iter(text)`: the matches in order,
/// each with the text since the previous one and its groups (group 0 is
/// always there), and the text after the last; `None` exactly when
/// `Regex::new` refuses the pattern (named by `regex_compiles`). The pieces
/// and the tail put together give `text` back.
#[verifier::external_body]
pub(crate) fn regex_captures(pattern: &str, text: &str) -> (r: Option<(Vec<MatchPiece>, String)>)
    ensures
        r is Some <==> regex_compiles(pattern@),
        r matches Some(v) ==> (pieces_view(v.0@), v.1@) == regex_split(pattern@, text@)
            && pieces_well_formed(pieces_view(v.0@)) && reassembled(pieces_view(v.0@), v.1@)
            == text@,
{
    let re = match regex::Regex::new(pattern) {
        Ok(re) => re,
        Err(_) => return None,
    };
    let mut pieces: Vec<MatchPiece> = Vec::new();
    let mut last: usize = 0;
    for caps in re.captures_iter(text) {
        let whole = caps.get(0).unwrap();
        let groups = caps.iter().map(|g| g.map(|m| m.as_str().to_string())).collect();
        pieces.push((text[last..whole.start()].to_string(), groups));
        last = whole.end();
    }
    Some((pieces, text[last..].to_string()))
}

/// The matches of `pattern` in `text` and the text after the last; no
/// match (the whole text as tail) if the pattern does not compile.
pub fn split_by_pattern(pattern: &str, text: &str) -> (r: (Vec<MatchPiece>, String))
    ensures
        pieces_well_formed(pieces_view(r.0@)),
        reassembled(pieces_view(r.0@), r.1@) == text@,
        (pieces_view(r.0@), r.1@) == regex_split(pattern@, text@) || (r.0@.len() == 0 && r.1@ == text@),
        regex_compiles(pattern@) ==> (pieces_view(r.0@), r.1@) == regex_split(pattern@, text@),
        !regex_compiles(pattern@) ==> r.0@.len() == 0 && r.1@ == text@,
{
    match regex_captures(pattern, text) {
        Some(v) => v,
        None => {
            let ghost e = Seq::<MatchPiece>::empty();
            assert(pieces_view(e) =~= Seq::empty());
            (Vec::new(), string_of(chars_of(text).as_slice()))
        },
    }
}

/// The trimmed texts of capture group `g` of the pieces, where it took part.
pub open spec fn group_texts(ps: Seq<(Seq<char>, Seq<Option<Seq<char>>>)>, g: int) -> Seq<Seq<char>>
    decreases ps.len(),
{
    if ps.len() == 0 {
        seq![]
    } else {
        let prev = group_texts(ps.drop_last(), g);
        let p = ps.last();
        if 0 <= g < p.1.len() && p.1[g] is Some {
            prev.push(trim(p.1[g]->0))
        } else {
            prev
        }
    }
}

/// Appends the trimmed texts of capture group `g` of the pieces.
pub fn push_group_texts(out: &mut Vec<String>, pieces: &Vec<MatchPiece>, g: usize)
    ensures
        final(out)@.map_values(|s: String| s@) == old(out)@.map_values(|s: String| s@) + group_texts(
            pieces_view(pieces@),
            g as int,
        ),
{
    let ghost base = out@.map_values(|s: String| s@);
    let ghost pv = pieces_view(pieces@);
    let mut i: usize = 0;
    proof {
        assert(pv.take(0) =~= Seq::empty());
        assert(base + group_texts(pv.take(0), g as int) =~= base);
    }
    while i < pieces.len()
        invariant
            i <= pieces@.len(),
            pv == pieces_view(pieces@),
            pv.len() == pieces@.len(),
            out@.map_values(|s: String| s@) == base + group_texts(pv.take(i as int), g as int),
        decreases pieces@.len() - i,
    {
        let ghost before = out@;
        proof {
            let t = pv.take(i + 1);
            assert(t.drop_last() =~= pv.take(i as int));
            assert(t.last() == piece_view(pieces@[i as int]));
        }
        let groups = &pieces[i].1;
        if g < groups.len() {
            match &groups[g] {
                Some(text) => {
                    let tv = chars_of(text.as_str());
                    let t = trim_chars(tv.as_slice());
                    out.push(string_of(t.as_slice()));
                    proof {
                        assert(out@.map_values(|s: String| s@) =~= before.map_values(|s: String| s@).push(t@));
                    }
                },
                None => {},
            }
        }
        i += 1;
    }
    proof {
        assert(pv.take(pieces@.len() as int) =~= pv);
    }
}

} // verus!
