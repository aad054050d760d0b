//! Rendering of the navigation documents (`toc.ncx`, `nav.xhtml`).

use vstd::prelude::*;
use crate::models::{Navigation, RefactorError, TocEntry};
use crate::text::{chars_of, decimal, decimal_chars, escape_xml_spec, extend_chars, extend_str, push_escaped, string_of};

pub use crate::text::escape_xml;

verus! {

/// The depth of the deepest entry (1 for an empty list).
pub open spec fn max_depth(es: Seq<TocEntry>) -> nat
    decreases es,
{
    if es.len() == 0 {
        1
    } else {
        let e = es.last();
        let d = if e.children@.len() == 0 {
            1
        } else {
            1 + max_depth(e.children@)
        };
        let rest = if es.len() == 1 {
            0
        } else {
            max_depth(es.drop_last())
        };
        if d >= rest {
            d
        } else {
            rest
        }
    }
}

/// `n` spaces.
pub open spec fn spaces(n: nat) -> Seq<char> {
    Seq::new(n, |i: int| ' ')
}

/// The label line of a `navPoint`.
pub open spec fn ncx_label_part(e: TocEntry, level: nat) -> Seq<char> {
    let indent = spaces(2 * (level + 1));
    indent + spaces(2) + "<navLabel>\n"@ + indent + spaces(4) + "<text>"@ + escape_xml_spec(e.label@)
        + "</text>\n"@ + indent + spaces(2) + "</navLabel>\n"@
}

/// The opening of one `navPoint`, up to its children.
pub open spec fn ncx_point_open(e: TocEntry, id: nat, level: nat) -> Seq<char> {
    let indent = spaces(2 * (level + 1));
    indent + "<navPoint id=\"navPoint-"@ + decimal(id) + "\" playOrder=\""@ + decimal(id)
        + "\">\n"@ + ncx_label_part(e, level) + indent + spaces(2) + "<content src=\""@
        + escape_xml_spec(e.content_src@) + "\"/>\n"@ + indent + "\n"@
}

/// One `navPoint` of the NCX with id and play order `id`, indented for
/// `level`, followed by its children numbered from `id * 1000`.
pub open spec fn ncx_point(e: TocEntry, id: nat, level: nat) -> Seq<char>
    decreases e,
{
    let children = if e.children@.len() == 0 {
        seq![]
    } else {
        seq!['\n'] + ncx_points(e.children@, id * 1000, level + 2)
    };
    ncx_point_open(e, id, level) + children + "</navPoint>"@
}

/// The `navPoint`s of `es`, numbered from `start + 1`, one per line.
pub open spec fn ncx_points(es: Seq<TocEntry>, start: nat, level: nat) -> Seq<char>
    decreases es,
{
    if es.len() == 0 {
        seq![]
    } else if es.len() == 1 {
        ncx_point(es.last(), start + 1, level)
    } else {
        ncx_points(es.drop_last(), start, level) + seq!['\n'] + ncx_point(
            es.last(),
            start + es.len(),
            level,
        )
    }
}

/// The numbers and indentation of one `navPoint` and its children fit in
/// `usize`.
pub open spec fn ncx_point_fits(e: TocEntry, id: nat, level: nat) -> bool
    decreases e,
{
    &&& id <= usize::MAX
    &&& 2 * (level + 3) <= usize::MAX
    &&& e.children@.len() > 0 ==> id * 1000 <= usize::MAX && ncx_points_fit(
        e.children@,
        id * 1000,
        level + 2,
    )
}

/// The numbers and indentation of the `navPoint`s of `es` fit in `usize`.
pub open spec fn ncx_points_fit(es: Seq<TocEntry>, start: nat, level: nat) -> bool
    decreases es,
{
    if es.len() == 0 {
        true
    } else {
        (es.len() == 1 || ncx_points_fit(es.drop_last(), start, level)) && ncx_point_fits(
            es.last(),
            start + es.len(),
            level,
        )
    }
}

/// The XHTML list items of `es`, one per line, nested lists for children.
pub open spec fn nav_items(es: Seq<TocEntry>) -> Seq<char>
    decreases es,
{
    if es.len() == 0 {
        seq![]
    } else if es.len() == 1 {
        nav_item(es.last())
    } else {
        nav_items(es.drop_last()) + seq!['\n'] + nav_item(es.last())
    }
}

/// The XHTML list item of one entry.
pub open spec fn nav_item(e: TocEntry) -> Seq<char>
    decreases e,
{
    let children = if e.children@.len() == 0 {
        seq![]
    } else {
        "\n"@ + "\n        <ol class=\"toc\">\n          "@ + nav_items(e.children@)
            + "\n        </ol>"@
    };
    "        <li>\n          <a href=\""@ + escape_xml_spec(e.content_src@) + "\">"@
        + escape_xml_spec(e.label@) + "</a>"@ + children + "\n        </li>"@
}

/// The beginning of `toc.ncx`, up to the depth.
pub open spec fn ncx_head() -> Seq<char> {
    "<?xml version=\"1.0\" encoding=\"UTF-8\"?>\n<ncx xmlns=\"http://www.daisy.org/z3986/2005/ncx/\" version=\"2005-1\">\n  <head>\n    <meta name=\"dtb:uid\" content=\"ogham-book-id\"/>\n    <meta name=\"dtb:depth\" content=\""@
}

/// The part of `toc.ncx` between the depth and the navigation points.
pub open spec fn ncx_middle() -> Seq<char> {
    "\"/>\n    <meta name=\"dtb:totalPageCount\" content=\"0\"/>\n    <meta name=\"dtb:maxPageNumber\" content=\"0\"/>\n  </head>\n  <docTitle>\n    <text>目录</text>\n  </docTitle>\n  <navMap>\n    "@
}

/// The end of `toc.ncx`.
pub open spec fn ncx_tail() -> Seq<char> {
    "\n  </navMap>\n</ncx>\n"@
}

/// The whole of `toc.ncx` for a navigation.
pub open spec fn ncx_document(toc: Seq<TocEntry>) -> Seq<char> {
    ncx_head() + decimal(max_depth(toc)) + ncx_middle() + ncx_points(toc, 1, 0) + ncx_tail()
}

/// The beginning of `nav.xhtml`, up to the list items.
pub open spec fn nav_head() -> Seq<char> {
    "<?xml version=\"1.0\" encoding=\"UTF-8\"?>\n<!DOCTYPE html>\n<html xmlns=\"http://www.w3.org/1999/xhtml\" xmlns:epub=\"http://www.idpf.org/2007/ops\">\n  <head>\n    <title>目录</title>\n    <style type=\"text/css\">\n      nav {\n        display: block;\n      }\n      nav ol {\n        list-style-type: none;\n        padding-left: 0;\n      }\n      nav ol.toc {\n        padding-left: 2em;\n      }\n      nav li {\n        margin: 0.5em 0;\n      }\n      nav a {\n        text-decoration: none;\n        color: inherit;\n      }\n      nav a:hover {\n        text-decoration: underline;\n      }\n    </style>\n  </head>\n  <body>\n    <nav epub:type=\"toc\">\n      <h1>目录</h1>\n      <ol class=\"toc\">\n        "@
}

/// The end of `nav.xhtml`.
pub open spec fn nav_tail() -> Seq<char> {
    "\n      </ol>\n    </nav>\n  </body>\n</html>\n"@
}

/// The whole of `nav.xhtml` for a navigation.
pub open spec fn nav_document(toc: Seq<TocEntry>) -> Seq<char> {
    nav_head() + nav_items(toc) + nav_tail()
}

fn push_spaces(out: &mut Vec<char>, n: usize)
    ensures
        final(out)@ == old(out)@ + spaces(n as nat),
{
    let mut k: usize = 0;
    while k < n
        invariant
            k <= n,
            out@ == old(out)@ + spaces(k as nat),
        decreases n - k,
    {
        out.push(' ');
        k += 1;
        assert(spaces(k as nat) =~= spaces((k - 1) as nat).push(' '));
    }
}

fn push_ncx_label(out: &mut Vec<char>, e: &TocEntry, level: usize)
    requires
        2 * (level + 3) <= usize::MAX,
    ensures
        final(out)@ == old(out)@ + ncx_label_part(*e, level as nat),
{
    let ghost start = out@;
    let n = 2 * (level + 1);
    push_spaces(out, n + 2);
    extend_str(out, "<navLabel>\n");
    push_spaces(out, n + 4);
    extend_str(out, "<text>");
    let label = chars_of(e.label.as_str());
    push_escaped(out, label.as_slice());
    extend_str(out, "</text>\n");
    push_spaces(out, n + 2);
    extend_str(out, "</navLabel>\n");
    proof {
        let indent = spaces(n as nat);
        assert(spaces((n + 2) as nat) =~= indent + spaces(2));
        assert(spaces((n + 4) as nat) =~= indent + spaces(4));
        assert(out@ =~= start + ncx_label_part(*e, level as nat));
    }
}

#[verifier::rlimit(40)]
fn push_ncx_open(out: &mut Vec<char>, e: &TocEntry, id: usize, level: usize)
    requires
        2 * (level + 3) <= usize::MAX,
    ensures
        final(out)@ == old(out)@ + ncx_point_open(*e, id as nat, level as nat),
{
    let ghost start = out@;
    let n = 2 * (level + 1);
    let idc = decimal_chars(id as u128);
    push_spaces(out, n);
    extend_str(out, "<navPoint id=\"navPoint-");
    extend_chars(out, idc.as_slice());
    extend_str(out, "\" playOrder=\"");
    extend_chars(out, idc.as_slice());
    extend_str(out, "\">\n");
    let ghost a = out@;
    push_ncx_label(out, e, level);
    let ghost b = out@;
    push_spaces(out, n + 2);
    extend_str(out, "<content src=\"");
    let src = chars_of(e.content_src.as_str());
    push_escaped(out, src.as_slice());
    extend_str(out, "\"/>\n");
    push_spaces(out, n);
    extend_str(out, "\n");
    proof {
        let indent = spaces(n as nat);
        assert(spaces((n + 2) as nat) =~= indent + spaces(2));
        assert(out@ =~= start + ncx_point_open(*e, id as nat, level as nat));
    }
}

fn push_ncx_point(out: &mut Vec<char>, e: &TocEntry, id: usize, level: usize)
    requires
        ncx_point_fits(*e, id as nat, level as nat),
    ensures
        final(out)@ == old(out)@ + ncx_point(*e, id as nat, level as nat),
    decreases *e, 0nat,
{
    let ghost start = out@;
    push_ncx_open(out, e, id, level);
    let ghost mid = out@;
    if e.children.len() > 0 {
        out.push('\n');
        push_ncx_points(out, e.children.as_slice(), id * 1000, level + 2);
    }
    let ghost after_children = out@;
    extend_str(out, "</navPoint>");
    proof {
        let children = if e.children@.len() == 0 {
            seq![]
        } else {
            seq!['\n'] + ncx_points(e.children@, (id * 1000) as nat, (level + 2) as nat)
        };
        assert(after_children =~= mid + children);
        assert(out@ =~= start + ncx_point(*e, id as nat, level as nat));
    }
}

fn push_ncx_points(out: &mut Vec<char>, es: &[TocEntry], start: usize, level: usize)
    requires
        ncx_points_fit(es@, start as nat, level as nat),
    ensures
        final(out)@ == old(out)@ + ncx_points(es@, start as nat, level as nat),
    decreases es@, 1nat,
{
    let ghost base = out@;
    let mut i: usize = 0;
    while i < es.len()
        invariant
            i <= es@.len(),
            ncx_points_fit(es@, start as nat, level as nat),
            out@ == base + ncx_points(es@.take(i as int), start as nat, level as nat),
        decreases es@.len() - i,
    {
        proof {
            lemma_points_fit_prefix(es@, start as nat, level as nat, (i + 1) as nat);
            let t = es@.take(i + 1);
            assert(t.drop_last() =~= es@.take(i as int));
            assert(t.last() == es@[i as int]);
        }
        if i > 0 {
            out.push('\n');
        }
        push_ncx_point(out, &es[i], start + i + 1, level);
        proof {
            let t = es@.take(i + 1);
            if i == 0 {
                assert(out@ =~= base + ncx_points(t, start as nat, level as nat));
            } else {
                assert(out@ =~= base + ncx_points(t, start as nat, level as nat));
            }
        }
        i += 1;
    }
    assert(es@.take(es@.len() as int) =~= es@);
}

/// A prefix of a list whose numbers fit has numbers that fit, and its last
/// entry's numbers fit.
proof fn lemma_points_fit_prefix(es: Seq<TocEntry>, start: nat, level: nat, k: nat)
    requires
        ncx_points_fit(es, start, level),
        1 <= k <= es.len(),
    ensures
        ncx_points_fit(es.take(k as int), start, level),
        ncx_point_fits(es[k - 1], start + k, level),
    decreases es.len(),
{
    if k == es.len() {
        assert(es.take(k as int) =~= es);
    } else {
        lemma_points_fit_prefix(es.drop_last(), start, level, k);
        assert(es.drop_last().take(k as int) =~= es.take(k as int));
    }
}

/// The depth of the deepest entry (1 for an empty list).
pub fn calculate_max_depth(entries: &[TocEntry]) -> (r: usize)
    requires
        max_depth(entries@) <= usize::MAX,
    ensures
        r == max_depth(entries@),
    decreases entries@,
{
    let mut best: usize = 0;
    let mut i: usize = 0;
    while i < entries.len()
        invariant
            i <= entries@.len(),
            max_depth(entries@) <= usize::MAX,
            i == 0 ==> best == 0,
            i > 0 ==> best == max_depth(entries@.take(i as int)),
            best <= max_depth(entries@),
        decreases entries@.len() - i,
    {
        proof {
            lemma_max_depth_prefix(entries@, (i + 1) as nat);
        }
        let e = &entries[i];
        let d: usize = if e.children.len() == 0 {
            1
        } else {
            proof {
                lemma_max_depth_child(entries@, i as int);
            }
            1 + calculate_max_depth(e.children.as_slice())
        };
        proof {
            let t = entries@.take(i + 1);
            assert(t.drop_last() =~= entries@.take(i as int));
            assert(t.last() == entries@[i as int]);
        }
        if d >= best {
            best = d;
        }
        i += 1;
    }
    if i == 0 {
        1
    } else {
        assert(entries@.take(i as int) =~= entries@);
        best
    }
}

/// The depth of a prefix is at most the depth of the list.
proof fn lemma_max_depth_prefix(es: Seq<TocEntry>, k: nat)
    requires
        1 <= k <= es.len(),
    ensures
        max_depth(es.take(k as int)) <= max_depth(es),
    decreases es.len(),
{
    if k == es.len() {
        assert(es.take(k as int) =~= es);
    } else {
        lemma_max_depth_prefix(es.drop_last(), k);
        assert(es.drop_last().take(k as int) =~= es.take(k as int));
    }
}

/// An entry's children are one level less deep than the list.
proof fn lemma_max_depth_child(es: Seq<TocEntry>, i: int)
    requires
        0 <= i < es.len(),
        es[i].children@.len() > 0,
    ensures
        1 + max_depth(es[i].children@) <= max_depth(es),
    decreases es.len(),
{
    if i < es.len() - 1 {
        lemma_max_depth_child(es.drop_last(), i);
    }
}

fn push_nav_item(out: &mut Vec<char>, e: &TocEntry)
    ensures
        final(out)@ == old(out)@ + nav_item(*e),
    decreases *e, 0nat,
{
    let ghost start = out@;
    extend_str(out, "        <li>\n          <a href=\"");
    let src = chars_of(e.content_src.as_str());
    push_escaped(out, src.as_slice());
    extend_str(out, "\">");
    let label = chars_of(e.label.as_str());
    push_escaped(out, label.as_slice());
    extend_str(out, "</a>");
    let ghost mid = out@;
    if e.children.len() > 0 {
        extend_str(out, "\n");
        extend_str(out, "\n        <ol class=\"toc\">\n          ");
        push_nav_items(out, e.children.as_slice());
        extend_str(out, "\n        </ol>");
    }
    let ghost after_children = out@;
    extend_str(out, "\n        </li>");
    proof {
        let children = if e.children@.len() == 0 {
            seq![]
        } else {
            "\n"@ + "\n        <ol class=\"toc\">\n          "@ + nav_items(e.children@)
                + "\n        </ol>"@
        };
        assert(after_children =~= mid + children);
        assert(out@ =~= start + nav_item(*e));
    }
}

fn push_nav_items(out: &mut Vec<char>, es: &[TocEntry])
    ensures
        final(out)@ == old(out)@ + nav_items(es@),
    decreases es@, 1nat,
{
    let ghost base = out@;
    let mut i: usize = 0;
    while i < es.len()
        invariant
            i <= es@.len(),
            out@ == base + nav_items(es@.take(i as int)),
        decreases es@.len() - i,
    {
        proof {
            let t = es@.take(i + 1);
            assert(t.drop_last() =~= es@.take(i as int));
            assert(t.last() == es@[i as int]);
        }
        if i > 0 {
            out.push('\n');
        }
        push_nav_item(out, &es[i]);
        proof {
            let t = es@.take(i + 1);
            assert(out@ =~= base + nav_items(t));
        }
        i += 1;
    }
    assert(es@.take(es@.len() as int) =~= es@);
}

/// The XHTML list items of the entries, nested lists for children.
pub fn build_nav_xhtml_items(entries: &[TocEntry]) -> (r: String)
    ensures
        r@ == nav_items(entries@),
{
    let mut out: Vec<char> = Vec::new();
    push_nav_items(&mut out, entries);
    string_of(out.as_slice())
}

/// The `navPoint`s of the entries, numbered from `start_id + 1`.
pub fn build_ncx_nav_points(entries: &[TocEntry], start_id: usize, level: usize) -> (r: String)
    requires
        ncx_points_fit(entries@, start_id as nat, level as nat),
    ensures
        r@ == ncx_points(entries@, start_id as nat, level as nat),
{
    let mut out: Vec<char> = Vec::new();
    push_ncx_points(&mut out, entries, start_id, level);
    string_of(out.as_slice())
}

/// The whole of `toc.ncx`.
pub fn build_ncx_xml(navigation: &Navigation) -> (r: Result<String, RefactorError>)
    requires
        ncx_points_fit(navigation.toc@, 1, 0),
        max_depth(navigation.toc@) <= usize::MAX,
    ensures
        r matches Ok(s) && s@ == ncx_document(navigation.toc@),
{
    let depth = calculate_max_depth(navigation.toc.as_slice());
    let mut out: Vec<char> = Vec::new();
    extend_str(&mut out, "<?xml version=\"1.0\" encoding=\"UTF-8\"?>\n<ncx xmlns=\"http://www.daisy.org/z3986/2005/ncx/\" version=\"2005-1\">\n  <head>\n    <meta name=\"dtb:uid\" content=\"ogham-book-id\"/>\n    <meta name=\"dtb:depth\" content=\"");
    let dc = decimal_chars(depth as u128);
    extend_chars(&mut out, dc.as_slice());
    extend_str(&mut out, "\"/>\n    <meta name=\"dtb:totalPageCount\" content=\"0\"/>\n    <meta name=\"dtb:maxPageNumber\" content=\"0\"/>\n  </head>\n  <docTitle>\n    <text>目录</text>\n  </docTitle>\n  <navMap>\n    ");
    push_ncx_points(&mut out, navigation.toc.as_slice(), 1, 0);
    extend_str(&mut out, "\n  </navMap>\n</ncx>\n");
    assert(out@ =~= ncx_document(navigation.toc@));
    Ok(string_of(out.as_slice()))
}

/// The whole of `nav.xhtml`.
pub fn build_nav_xhtml(navigation: &Navigation) -> (r: Result<String, RefactorError>)
    ensures
        r matches Ok(s) && s@ == nav_document(navigation.toc@),
{
    let mut out: Vec<char> = Vec::new();
    extend_str(&mut out, "<?xml version=\"1.0\" encoding=\"UTF-8\"?>\n<!DOCTYPE html>\n<html xmlns=\"http://www.w3.org/1999/xhtml\" xmlns:epub=\"http://www.idpf.org/2007/ops\">\n  <head>\n    <title>目录</title>\n    <style type=\"text/css\">\n      nav {\n        display: block;\n      }\n      nav ol {\n        list-style-type: none;\n        padding-left: 0;\n      }\n      nav ol.toc {\n        padding-left: 2em;\n      }\n      nav li {\n        margin: 0.5em 0;\n      }\n      nav a {\n        text-decoration: none;\n        color: inherit;\n      }\n      nav a:hover {\n        text-decoration: underline;\n      }\n    </style>\n  </head>\n  <body>\n    <nav epub:type=\"toc\">\n      <h1>目录</h1>\n      <ol class=\"toc\">\n        ");
    push_nav_items(&mut out, navigation.toc.as_slice());
    extend_str(&mut out, "\n      </ol>\n    </nav>\n  </body>\n</html>\n");
    assert(out@ =~= nav_document(navigation.toc@));
    Ok(string_of(out.as_slice()))
}

/// Renders the complete `toc.ncx`.
pub fn render_toc_ncx(navigation: &Navigation) -> (r: Result<String, RefactorError>)
    requires
        ncx_points_fit(navigation.toc@, 1, 0),
        max_depth(navigation.toc@) <= usize::MAX,
    ensures
        r matches Ok(s) && s@ == ncx_document(navigation.toc@),
{
    build_ncx_xml(navigation)
}

/// Renders the complete `nav.xhtml`.
pub fn render_nav_xhtml(navigation: &Navigation) -> (r: Result<String, RefactorError>)
    ensures
        r matches Ok(s) && s@ == nav_document(navigation.toc@),
{
    build_nav_xhtml(navigation)
}

/// The depth of the deepest entry, or `None` where it does not fit in
/// `usize`.
pub fn checked_max_depth(entries: &[TocEntry]) -> (r: Option<usize>)
    ensures
        match r {
            Some(d) => d == max_depth(entries@),
            None => max_depth(entries@) > usize::MAX,
        },
    decreases entries@,
{
    let mut best: usize = 0;
    let mut i: usize = 0;
    while i < entries.len()
        invariant
            i <= entries@.len(),
            i == 0 ==> best == 0,
            i > 0 ==> best == max_depth(entries@.take(i as int)),
        decreases entries@.len() - i,
    {
        let e = &entries[i];
        proof {
            let t = entries@.take(i + 1);
            assert(t.drop_last() =~= entries@.take(i as int));
            assert(t.last() == entries@[i as int]);
            lemma_max_depth_prefix(entries@, (i + 1) as nat);
        }
        let d: usize = if e.children.len() == 0 {
            1
        } else {
            proof {
                lemma_max_depth_child(entries@, i as int);
            }
            match checked_max_depth(e.children.as_slice()) {
                Some(c) => {
                    if c == usize::MAX {
                        return None;
                    }
                    1 + c
                },
                None => return None,
            }
        };
        if d >= best {
            best = d;
        }
        i += 1;
    }
    if i == 0 {
        Some(1)
    } else {
        assert(entries@.take(i as int) =~= entries@);
        Some(best)
    }
}

/// Whether the numbers and indentation of the `navPoint`s of `entries`,
/// numbered from `start + 1` at `level`, fit in `usize`.
pub fn ncx_points_fit_exec(entries: &[TocEntry], start: usize, level: usize) -> (r: bool)
    ensures
        r == ncx_points_fit(entries@, start as nat, level as nat),
    decreases entries@,
{
    let mut i: usize = 0;
    while i < entries.len()
        invariant
            i <= entries@.len(),
            ncx_points_fit(entries@.take(i as int), start as nat, level as nat),
        decreases entries@.len() - i,
    {
        let t = Ghost(entries@.take(i + 1));
        proof {
            assert(t@.drop_last() =~= entries@.take(i as int));
            assert(t@.last() == entries@[i as int]);
            assert(t@.len() == i + 1);
        }
        let e = &entries[i];
        if start > usize::MAX - (i + 1) {
            proof {
                assert(!ncx_point_fits(entries@[i as int], (start as nat + t@.len()) as nat, level as nat));
                assert(!ncx_points_fit(t@, start as nat, level as nat));
                lemma_fit_prefix(entries@, start as nat, level as nat, (i + 1) as nat);
            }
            return false;
        }
        let id = start + (i + 1);
        if level > (usize::MAX / 2) - 3 {
            proof {
                assert(2 * (level + 3) > usize::MAX);
                assert(!ncx_point_fits(entries@[i as int], (start as nat + t@.len()) as nat, level as nat));
                assert(!ncx_points_fit(t@, start as nat, level as nat));
                lemma_fit_prefix(entries@, start as nat, level as nat, (i + 1) as nat);
            }
            return false;
        }
        if e.children.len() > 0 {
            if id > usize::MAX / 1000 {
                proof {
                    assert(id * 1000 > usize::MAX) by (nonlinear_arith)
                        requires
                            id > usize::MAX / 1000,
                    ;
                    assert(!ncx_point_fits(entries@[i as int], (start as nat + t@.len()) as nat, level as nat));
                    assert(!ncx_points_fit(t@, start as nat, level as nat));
                    lemma_fit_prefix(entries@, start as nat, level as nat, (i + 1) as nat);
                }
                return false;
            }
            if !ncx_points_fit_exec(e.children.as_slice(), id * 1000, level + 2) {
                proof {
                    assert(!ncx_point_fits(entries@[i as int], (start as nat + t@.len()) as nat, level as nat));
                    assert(!ncx_points_fit(t@, start as nat, level as nat));
                    lemma_fit_prefix(entries@, start as nat, level as nat, (i + 1) as nat);
                }
                return false;
            }
            proof {
                assert(id * 1000 <= usize::MAX) by (nonlinear_arith)
                    requires
                        id <= usize::MAX / 1000,
                ;
            }
        }
        proof {
            assert(2 * (level + 3) <= usize::MAX);
            assert(ncx_point_fits(entries@[i as int], (start as nat + t@.len()) as nat, level as nat));
            assert(ncx_points_fit(t@, start as nat, level as nat));
        }
        i += 1;
    }
    assert(entries@.take(i as int) =~= entries@);
    true
}

/// A list fits only if each of its prefixes fits.
proof fn lemma_fit_prefix(es: Seq<TocEntry>, start: nat, level: nat, k: nat)
    requires
        1 <= k <= es.len(),
    ensures
        ncx_points_fit(es, start, level) ==> ncx_points_fit(es.take(k as int), start, level),
    decreases es.len(),
{
    if k == es.len() {
        assert(es.take(k as int) =~= es);
    } else {
        lemma_fit_prefix(es.drop_last(), start, level, k);
        assert(es.drop_last().take(k as int) =~= es.take(k as int));
    }
}

} // verus!
