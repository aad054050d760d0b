//! New contents of the navigation files after the table of contents
//! changed.

use vstd::prelude::*;
use crate::models::{RefactorError, TocChapterDto, TocEntry};
use crate::nav_builder::{
    checked_max_depth, max_depth, ncx_document, ncx_points_fit, ncx_points_fit_exec, nav_document,
    render_nav_xhtml, render_toc_ncx,
};
use crate::text::{chars_of, contains, string_of};
use crate::toc_edit::{nav_views, toc_navs, toc_to_navigation};
use crate::toc_manager::contains_str_exec;
use crate::toc_tree::toc_views;

verus! {

/// The new `nav.xhtml`: rendered from the table of contents where the old
/// one has a `<nav` element, else the old content unchanged.
pub fn updated_nav_content(toc: &[TocChapterDto], content: &str) -> (r: Result<String, RefactorError>)
    ensures
        contains(content@, "<nav"@) ==> (r matches Ok(s) && exists|es: Seq<TocEntry>|
            nav_views(es) == toc_navs(toc_views(toc@)) && s@ == #[trigger] nav_document(es)),
        !contains(content@, "<nav"@) ==> (r matches Ok(s) && s@ == content@),
{
    let c = chars_of(content);
    if contains_str_exec(c.as_slice(), "<nav") {
        let navigation = toc_to_navigation(toc);
        render_nav_xhtml(&navigation)
    } else {
        Ok(string_of(c.as_slice()))
    }
}

/// The new `toc.ncx`: rendered from the table of contents where the old
/// one has a `<navMap` element, else the old content unchanged; an error
/// where the entries nest so deep that their numbers do not fit in `usize`.
pub fn updated_ncx_content(toc: &[TocChapterDto], content: &str) -> (r: Result<String, RefactorError>)
    ensures
        contains(content@, "<navMap"@) ==> match r {
            Ok(s) => exists|es: Seq<TocEntry>|
                nav_views(es) == toc_navs(toc_views(toc@)) && s@ == #[trigger] ncx_document(es),
            Err(e) => exists|es: Seq<TocEntry>|
                nav_views(es) == toc_navs(toc_views(toc@)) && !(#[trigger] ncx_points_fit(es, 1, 0) && max_depth(es)
                    <= usize::MAX) && e is InvalidStructure,
        },
        !contains(content@, "<navMap"@) ==> (r matches Ok(s) && s@ == content@),
{
    let c = chars_of(content);
    if contains_str_exec(c.as_slice(), "<navMap") {
        let navigation = toc_to_navigation(toc);
        let fits = ncx_points_fit_exec(navigation.toc.as_slice(), 1, 0);
        let depth = checked_max_depth(navigation.toc.as_slice());
        if fits && depth.is_some() {
            render_toc_ncx(&navigation)
        } else {
            Err(RefactorError::InvalidStructure("目录层级过深".to_string()))
        }
    } else {
        Ok(string_of(c.as_slice()))
    }
}

} // verus!
