//! Reading the table of contents from the navigation documents of the
//! standardized package: `nav.xhtml` (an XHTML `<nav>` list or an NCX
//! navigation map) or `toc.ncx`.

use vstd::prelude::*;
use crate::models::{RefactorError, StandardManifest, StandardSpine, TocChapterDto};
use crate::opf_document::lemma_find_from_bounds;
use crate::epub_path::string_views;
use crate::text::{chars_of, contains, find_from, find_from_exec, slice_chars, string_of};
use crate::toc_edit::flat_views;
use crate::toc_groups::{
    attach_spine_file_groups_to_entries, ordered_chapter_paths, prune_missing_toc_targets,
    pruned_entry, pruned_views, attached_views, spec_ordered_chapter_paths,
};
use crate::toc_manager::{
    contains_str_exec, find_matching_close_html, parse_navpoints, is_toc_nav, lemma_match_close_html_bounds,
    match_close_html, navpoint_items, ol_items, parsed_entries, spec_is_toc_nav, TocManager,
};
use crate::toc_tree::{
    dedupe_views, entry_count, renumbered, toc_view, toc_views, tree_count, TocView,
};

verus! {

/// Scanning `c` from `pos` for `<nav>` elements: the first one whose start
/// tag marks it as the table of contents, else `first`, or else the first
/// one after `pos` that holds an `<ol`; as a range of `c`.
pub open spec fn toc_nav_scan(c: Seq<char>, pos: int, first: Option<(int, int)>) -> Option<(int, int)>
    decreases c.len() - pos,
{
    if pos < 0 || pos > c.len() {
        first
    } else {
        match find_from(c, "<nav"@, pos) {
            None => first,
            Some(ns) => if ns < pos || ns + 4 > c.len() {
                first
            } else {
                match match_close_html(c.skip(ns), "<nav"@, "</nav>"@, 0, 0) {
                    None => toc_nav_scan(c, ns + 4, first),
                    Some(e) => if e <= 0 || ns + e > c.len() {
                        first
                    } else {
                        let nav = c.subrange(ns, ns + e);
                        if spec_is_toc_nav(nav) {
                            Some((ns, ns + e))
                        } else {
                            toc_nav_scan(
                                c,
                                ns + e,
                                if first is None && contains(nav, "<ol"@) {
                                    Some((ns, ns + e))
                                } else {
                                    first
                                },
                            )
                        }
                    },
                }
            },
        }
    }
}

/// The `<nav>` element holding the table of contents, as a range.
fn find_toc_nav_range(c: &[char]) -> (r: Option<(usize, usize)>)
    ensures
        match r {
            Some(p) => toc_nav_scan(c@, 0, None) == Some((p.0 as int, p.1 as int)) && p.0 <= p.1 <= c@.len(),
            None => toc_nav_scan(c@, 0, None) is None,
        },
{
    let clen = c.len();
    let open = chars_of("<nav");
    let close = chars_of("</nav>");
    let ol = chars_of("<ol");
    let mut first: Option<(usize, usize)> = None;
    let mut pos: usize = 0;
    let ghost target = toc_nav_scan(c@, 0, None);
    proof {
        reveal_strlit("<nav");
    }
    while pos <= clen
        invariant
            clen == c@.len(),
            target == toc_nav_scan(c@, 0, None),
            open@ == "<nav"@,
            open@.len() == 4,
            close@ == "</nav>"@,
            ol@ == "<ol"@,
            pos <= clen + 1,
            pos <= clen ==> target == toc_nav_scan(c@, pos as int, match first {
                Some(p) => Some((p.0 as int, p.1 as int)),
                None => None,
            }),
            pos > clen ==> target == match first {
                Some(p) => Some((p.0 as int, p.1 as int)),
                None => None,
            },
            match first {
                Some(p) => p.0 <= p.1 <= clen,
                None => true,
            },
        ensures
            target == match first {
                Some(p) => Some((p.0 as int, p.1 as int)),
                None => None,
            },
            match first {
                Some(p) => p.0 <= p.1 <= clen,
                None => true,
            },
        decreases clen + 1 - pos,
    {
        proof {
            lemma_find_from_bounds(c@, open@, pos as int);
        }
        let ns = match find_from_exec(c, open.as_slice(), pos) {
            Some(p) => p,
            None => break,
        };
        let tail = slice_chars(c, ns, clen);
        proof {
            assert(tail@ =~= c@.skip(ns as int));
        }
        match find_matching_close_html(tail.as_slice(), open.as_slice(), close.as_slice()) {
            None => {
                pos = ns + 4;
            },
            Some(e) => {
                proof {
                    lemma_match_close_html_bounds(tail@, open@, close@, 0, 0);
                }
                let nav = slice_chars(c, ns, ns + e);
                if is_toc_nav(nav.as_slice()) {
                    return Some((ns, ns + e));
                }
                if first.is_none() && contains_str_exec(nav.as_slice(), "<ol") {
                    first = Some((ns, ns + e));
                }
                pos = ns + e;
            },
        }
    }
    first
}

impl TocManager {
    /// The `<nav>` element of an XHTML navigation document that holds the
    /// table of contents: the first whose start tag has type `toc`, else the
    /// first that holds a list.
    pub fn find_toc_nav_content(content: &str) -> (r: Option<String>)
        ensures
            match r {
                Some(s) => exists|a: int, b: int|
                    toc_nav_scan(content@, 0, None) == Some((a, b)) && s@ == content@.subrange(a, b),
                None => toc_nav_scan(content@, 0, None) is None,
            },
    {
        let c = chars_of(content);
        match find_toc_nav_range(c.as_slice()) {
            Some((a, b)) => {
                let s = slice_chars(c.as_slice(), a, b);
                Some(string_of(s.as_slice()))
            },
            None => None,
        }
    }
}


/// The entries of a table of contents as the parsers give them: numbered
/// from 0, as many numbers as entries.
pub open spec fn parsed_toc(es: Seq<TocChapterDto>) -> bool {
    parsed_entries(es, 0, 0, tree_count(toc_views(es)))
}

/// The list of the table-of-contents `<nav>` of `c`: its first `<ol>`
/// element (to the end of the `<nav>` where it is not closed), or the whole
/// `<nav>` without one.
pub open spec fn nav_list_text(c: Seq<char>) -> Option<Seq<char>> {
    match toc_nav_scan(c, 0, None) {
        None => None,
        Some(range) => {
            let nav = c.subrange(range.0, range.1);
            match find_from(nav, "<ol"@, 0) {
                Some(os) => match match_close_html(nav.subrange(os, nav.len() as int), "<ol"@, "</ol>"@, 0, 0) {
                    Some(oe) => Some(nav.subrange(os, os + oe)),
                    None => Some(nav),
                },
                None => Some(nav),
            }
        },
    }
}

/// The entries of the XHTML table of contents of `c`.
pub open spec fn nav_list_toc(c: Seq<char>) -> Seq<TocView> {
    match nav_list_text(c) {
        Some(l) => ol_items(l, 0, 0, 0).0,
        None => seq![],
    }
}

/// The entries of the navigation map of `c`: the points from its first
/// `<navMap` on.
pub open spec fn nav_map_toc(c: Seq<char>, src_first: bool) -> Seq<TocView> {
    match find_from(c, "<navMap"@, 0) {
        Some(st) => navpoint_items(c.subrange(st, c.len() as int), 0, 0, 0, src_first).0,
        None => seq![],
    }
}

/// The entries of `nav.xhtml`: read as a navigation map (targets from the
/// first `src`) where it has a `<navMap`, else as XHTML.
pub open spec fn nav_document_toc(c: Seq<char>) -> Seq<TocView> {
    if contains(c, "<navMap"@) {
        nav_map_toc(c, true)
    } else {
        nav_list_toc(c)
    }
}

/// The entries parsed from the `<ol>` list of the table-of-contents `<nav>`.
fn load_nav_list(c: &[char]) -> (r: Vec<TocChapterDto>)
    requires
        c@.len() + 1 <= usize::MAX,
    ensures
        parsed_toc(r@),
        tree_count(toc_views(r@)) <= c@.len(),
        toc_views(r@) == nav_list_toc(c@),
{
    let mut entries: Vec<TocChapterDto> = Vec::new();
    let mut order_counter: usize = 0;
    match find_toc_nav_range(c) {
        Some((a, b)) => {
            let nav = slice_chars(c, a, b);
            let ol_open = chars_of("<ol");
            let ol_close = chars_of("</ol>");
            proof {
                lemma_find_from_bounds(nav@, ol_open@, 0);
            }
            let list = match find_from_exec(nav.as_slice(), ol_open.as_slice(), 0) {
                Some(os) => {
                    let tail = slice_chars(nav.as_slice(), os, nav.len());
                    match find_matching_close_html(tail.as_slice(), ol_open.as_slice(), ol_close.as_slice()) {
                        Some(oe) => {
                            proof {
                                lemma_match_close_html_bounds(tail@, ol_open@, ol_close@, 0, 0);
                            }
                            slice_chars(nav.as_slice(), os, os + oe)
                        },
                        None => nav,
                    }
                },
                None => nav,
            };
            proof {
                assert(nav_list_text(c@) == Some(list@));
            }
            TocManager::parse_ol_elements_chars(list.as_slice(), 0, &mut entries, &mut order_counter, "");
        },
        None => {
            proof {
                assert(toc_views(entries@) =~= Seq::<TocView>::empty());
            }
        },
    }
    proof {
        assert(entries@.skip(0) =~= entries@);
    }
    entries
}

/// The entries parsed from the `<navPoint>`s after the first `<navMap`.
fn load_nav_map(c: &[char], src_attribute_first: bool) -> (r: Vec<TocChapterDto>)
    requires
        c@.len() + 1 <= usize::MAX,
    ensures
        parsed_toc(r@),
        tree_count(toc_views(r@)) <= c@.len(),
        toc_views(r@) == nav_map_toc(c@, src_attribute_first),
{
    let mut entries: Vec<TocChapterDto> = Vec::new();
    let mut order_counter: usize = 0;
    let open = chars_of("<navMap");
    proof {
        lemma_find_from_bounds(c@, open@, 0);
    }
    match find_from_exec(c, open.as_slice(), 0) {
        Some(start) => {
            let map = slice_chars(c, start, c.len());
            if src_attribute_first {
                parse_navpoints(map.as_slice(), 0, &mut entries, &mut order_counter, true);
            } else {
                parse_navpoints(map.as_slice(), 0, &mut entries, &mut order_counter, false);
            }
        },
        None => {
            proof {
                assert(toc_views(entries@) =~= Seq::<TocView>::empty());
            }
        },
    }
    proof {
        assert(entries@.skip(0) =~= entries@);
    }
    entries
}

impl TocManager {
    /// The table of contents of an XHTML navigation document: the entries of
    /// the list of its table-of-contents `<nav>`.
    pub fn load_from_nav_epub3(content: &str, base_path: &str) -> (r: Result<Vec<TocChapterDto>, RefactorError>)
        requires
            content@.len() + 1 <= usize::MAX,
        ensures
            r matches Ok(v) && parsed_toc(v@) && tree_count(toc_views(v@)) <= content@.len()
                && toc_views(v@) == nav_list_toc(content@),
    {
        let c = chars_of(content);
        Ok(load_nav_list(c.as_slice()))
    }

    /// The table of contents of a navigation document written as an NCX
    /// navigation map.
    pub fn load_from_nav_ncx_format(content: &str, base_path: &str) -> (r: Result<Vec<TocChapterDto>, RefactorError>)
        requires
            content@.len() + 1 <= usize::MAX,
        ensures
            r matches Ok(v) && parsed_toc(v@) && tree_count(toc_views(v@)) <= content@.len()
                && toc_views(v@) == nav_map_toc(content@, true),
    {
        let c = chars_of(content);
        Ok(load_nav_map(c.as_slice(), true))
    }

    /// The table of contents of `nav.xhtml`, read as an NCX navigation map
    /// if it has a `<navMap`, else as XHTML.
    pub fn load_from_nav(content: &str, base_path: &str) -> (r: Result<Vec<TocChapterDto>, RefactorError>)
        requires
            content@.len() + 1 <= usize::MAX,
        ensures
            r matches Ok(v) && parsed_toc(v@) && tree_count(toc_views(v@)) <= content@.len()
                && toc_views(v@) == nav_document_toc(content@),
    {
        let c = chars_of(content);
        proof {
            reveal_strlit("<navMap");
        }
        if contains_str_exec(c.as_slice(), "<navMap") {
            Ok(load_nav_map(c.as_slice(), true))
        } else {
            Ok(load_nav_list(c.as_slice()))
        }
    }

    /// The table of contents of `toc.ncx`.
    pub fn load_from_ncx(content: &str, base_path: &str) -> (r: Result<Vec<TocChapterDto>, RefactorError>)
        requires
            content@.len() + 1 <= usize::MAX,
        ensures
            r matches Ok(v) && parsed_toc(v@) && tree_count(toc_views(v@)) <= content@.len()
                && toc_views(v@) == nav_map_toc(content@, false),
    {
        let c = chars_of(content);
        Ok(load_nav_map(c.as_slice(), false))
    }

    /// The table of contents of the standardized package from its
    /// navigation documents (`nav.xhtml` first, else `toc.ncx`): the entries
    /// without those whose target is not among `existing_files`, without
    /// duplicates, numbered in document order, with the chapters each covers
    /// in the reading order of `manifest` and `spine`.
    pub fn load_toc_from_documents(
        nav: Option<&str>,
        ncx: Option<&str>,
        existing_files: &Vec<String>,
        manifest: &StandardManifest,
        spine: &StandardSpine,
    ) -> (r: Result<Vec<TocChapterDto>, RefactorError>)
        requires
            nav matches Some(s) ==> s@.len() + 1 <= usize::MAX,
            ncx matches Some(s) ==> s@.len() + 1 <= usize::MAX,
        ensures
            r is Err <==> nav is None && ncx is None,
            r matches Err(e) ==> e matches RefactorError::MissingFile(m) && m@
                == "No navigation file found (nav.xhtml or toc.ncx)"@,
            r matches Ok(v) ==> {
                let parsed = match nav {
                    Some(s) => nav_document_toc(s@),
                    None => nav_map_toc(ncx->0@, false),
                };
                let n = renumbered(dedupe_views(pruned_views(parsed, string_views(existing_files@))), 0, 0);
                toc_views(v@) == attached_views(n, flat_views(n), spec_ordered_chapter_paths(manifest.items@, spine.itemrefs@))
            },
    {
        let entries = match nav {
            Some(s) => match Self::load_from_nav(s, "") {
                Ok(v) => v,
                Err(e) => return Err(e),
            },
            None => match ncx {
                Some(s) => match Self::load_from_ncx(s, "") {
                    Ok(v) => v,
                    Err(e) => return Err(e),
                },
                None => {
                    return Err(RefactorError::MissingFile(
                        string_of(chars_of("No navigation file found (nav.xhtml or toc.ncx)").as_slice()),
                    ));
                },
            },
        };
        let ghost parsed = entries@;
        let pruned = prune_missing_toc_targets(entries.as_slice(), existing_files);
        proof {
            crate::toc_groups::lemma_pruned_count(toc_views(parsed), string_views(existing_files@));
        }
        let normalized = Self::normalize_toc_entries(pruned);
        let ordered = ordered_chapter_paths(manifest, spine);
        let r = attach_spine_file_groups_to_entries(normalized, ordered.as_slice());
        proof {
            let n = renumbered(
                dedupe_views(pruned_views(toc_views(parsed), string_views(existing_files@))),
                0,
                0,
            );
            assert(parsed_toc(parsed));
        }
        Ok(r)
    }
}

} // verus!
