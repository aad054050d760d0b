//! The index of the resources of a standardized package: each manifest
//! item with its kind and the files that reference it, and every reference
//! found in the text files, resolved or not.

use vstd::prelude::*;
use crate::models::{ResourceIndex, ResourceIndexItem, ResourceIndexType, ResourceReference, StandardManifestItem};
use crate::opf_document::OpfDocument;
use crate::epub_path::{
    casefold, has_standard_dir_prefix, is_text_like_file, manifest_path, normalize, oebps, parent, path_part,
    resolve_relative, should_skip_reference, spec_casefold, spec_has_standard_dir_prefix, spec_is_text_like_file,
    spec_manifest_path, spec_normalize, spec_parent, spec_resolve_relative, spec_should_skip_reference,
    spec_strip_oebps_prefix, split_reference_suffix, string_views, to_opf_href,
};
use crate::library::{is_font_media_type, spec_is_font_media_type};
use crate::text::{chars_eq, chars_of, lowercase, lowercase_chars, starts_with, starts_with_str, string_of, trim, trim_chars};
use crate::toc_tree::copy_strings;
use crate::pattern::{piece_view, pieces_view, regex_captures, regex_compiles, regex_split, MatchPiece};
use crate::image_handler::{group_or_empty, sort_strings, sorted_strs};
use crate::analyzer::pair_views;

verus! {

// ---------------------------------------------------------------------------
// Resources of the manifest
// ---------------------------------------------------------------------------

/// Whether the properties hold `p`.
pub open spec fn props_have(props: Option<Vec<String>>, p: Seq<char>) -> bool {
    match props {
        Some(v) => string_views(v@).contains(p),
        None => false,
    }
}

/// The kind of a manifest item: navigation document, NCX, chapter (an
/// XHTML, HTML or XML document under `Text/`), style, image, font, or
/// anything else.
pub open spec fn spec_classify_index_type(item: StandardManifestItem) -> ResourceIndexType {
    let lower = lowercase(spec_strip_oebps_prefix(item.href@));
    let mt = item.media_type@;
    if props_have(item.properties, "nav"@) || lower == "nav.xhtml"@ {
        ResourceIndexType::Nav
    } else if mt == "application/x-dtbncx+xml"@ || lower == "toc.ncx"@ {
        ResourceIndexType::Ncx
    } else if (mt == "application/xhtml+xml"@ || mt == "text/html"@ || mt == "application/xml"@) && starts_with(
        lower,
        "text/"@,
    ) {
        ResourceIndexType::Chapter
    } else if mt == "text/css"@ {
        ResourceIndexType::Style
    } else if starts_with(mt, "image/"@) {
        ResourceIndexType::Image
    } else if spec_is_font_media_type(mt) {
        ResourceIndexType::Font
    } else {
        ResourceIndexType::Misc
    }
}

/// The item is neither the navigation document (by its `nav` property or
/// its name) nor the NCX by its name.
pub open spec fn neither_nav_nor_ncx(item: StandardManifestItem) -> bool {
    &&& !props_have(item.properties, "nav"@)
    &&& lowercase(spec_strip_oebps_prefix(item.href@)) != "nav.xhtml"@
    &&& lowercase(spec_strip_oebps_prefix(item.href@)) != "toc.ncx"@
}

/// How the index sorts items that are neither the navigation document nor
/// the NCX: by media type, a CSS file is a style, an `image/*` file an
/// image, a TrueType, OpenType, WOFF or WOFF2 font a font; an item with the
/// `nav` property or named `nav.xhtml` is the navigation document.
pub proof fn law_index_kind_by_media_type(item: StandardManifestItem)
    ensures
        neither_nav_nor_ncx(item) && item.media_type@ == "text/css"@ ==> spec_classify_index_type(item)
            == ResourceIndexType::Style,
        neither_nav_nor_ncx(item) && starts_with(item.media_type@, "image/"@) ==> spec_classify_index_type(item)
            == ResourceIndexType::Image,
        neither_nav_nor_ncx(item) && (item.media_type@ == "font/ttf"@ || item.media_type@ == "font/otf"@
            || item.media_type@ == "font/woff"@ || item.media_type@ == "font/woff2"@
            || item.media_type@ == "application/font-ttf"@ || item.media_type@ == "application/font-woff"@
            || item.media_type@ == "application/font-woff2"@) ==> spec_classify_index_type(item)
            == ResourceIndexType::Font,
        props_have(item.properties, "nav"@) || lowercase(spec_strip_oebps_prefix(item.href@)) == "nav.xhtml"@
            ==> spec_classify_index_type(item) == ResourceIndexType::Nav,
        !props_have(item.properties, "nav"@) && lowercase(spec_strip_oebps_prefix(item.href@)) != "nav.xhtml"@
            && (item.media_type@ == "application/x-dtbncx+xml"@ || lowercase(spec_strip_oebps_prefix(item.href@))
            == "toc.ncx"@) ==> spec_classify_index_type(item) == ResourceIndexType::Ncx,
        neither_nav_nor_ncx(item) && (item.media_type@ == "application/xhtml+xml"@ || item.media_type@
            == "text/html"@ || item.media_type@ == "application/xml"@) && starts_with(
            lowercase(spec_strip_oebps_prefix(item.href@)),
            "text/"@,
        ) ==> spec_classify_index_type(item) == ResourceIndexType::Chapter,
{
    let mt = item.media_type@;
    reveal_strlit("text/css");
    reveal_strlit("image/");
    reveal_strlit("application/x-dtbncx+xml");
    reveal_strlit("application/xhtml+xml");
    reveal_strlit("text/html");
    reveal_strlit("application/xml");
    reveal_strlit("font/ttf");
    reveal_strlit("font/otf");
    reveal_strlit("font/woff");
    reveal_strlit("font/woff2");
    reveal_strlit("application/font-ttf");
    reveal_strlit("application/font-woff");
    reveal_strlit("application/font-woff2");
    if starts_with(mt, "image/"@) {
        assert(mt.subrange(0, 6)[0] == mt[0]);
        assert(mt.subrange(0, 6)[1] == mt[1]);
        assert(mt[0] == 'i');
        assert(mt != "text/css"@);
        assert(mt != "application/x-dtbncx+xml"@);
        assert(mt != "application/xhtml+xml"@);
        assert(mt != "text/html"@);
        assert(mt != "application/xml"@);
    }
    if mt == "font/ttf"@ || mt == "font/otf"@ || mt == "font/woff"@ || mt == "font/woff2"@
        || mt == "application/font-ttf"@ || mt == "application/font-woff"@ || mt == "application/font-woff2"@ {
        assert(mt[0] == 'f' || mt[0] == 'a');
        assert(mt.subrange(0, 6)[0] == mt[0]);
        assert(!starts_with(mt, "image/"@));
        assert(mt != "text/css"@);
        assert(mt != "text/html"@);
        assert(mt[0] == 'a' ==> mt[12] == 'f');
        assert("application/x-dtbncx+xml"@[12] == 'x');
        assert("application/xhtml+xml"@[12] == 'x');
        assert("application/xml"@[12] == 'x');
        assert(mt != "application/x-dtbncx+xml"@);
        assert(mt != "application/xhtml+xml"@);
        assert(mt != "application/xml"@);
    }
}

/// Whether `m` holds the characters of the literal `lit`.
fn is_lit(m: &[char], lit: &str) -> (r: bool)
    ensures
        r == (m@ == lit@),
{
    let l = chars_of(lit);
    chars_eq(m, l.as_slice())
}

/// Whether the properties hold `p`.
#[verifier::loop_isolation(false)]
fn props_have_exec(props: &Option<Vec<String>>, p: &str) -> (r: bool)
    ensures
        r == props_have(*props, p@),
{
    match props {
        Some(v) => {
            let mut i: usize = 0;
            while i < v.len()
                invariant
                    i <= v@.len(),
                    forall|k: int| 0 <= k < i ==> v@[k]@ != p@,
                decreases v@.len() - i,
            {
                let c = chars_of(v[i].as_str());
                if is_lit(c.as_slice(), p) {
                    assert(string_views(v@)[i as int] == p@);
                    return true;
                }
                i += 1;
            }
            assert(!string_views(v@).contains(p@)) by {
                if string_views(v@).contains(p@) {
                    let k = choose|k: int| 0 <= k < string_views(v@).len() && string_views(v@)[k] == p@;
                    assert(v@[k]@ == p@);
                }
            }
            false
        },
        None => false,
    }
}

/// The kind of a manifest item.
pub fn classify_resource_type(item: &StandardManifestItem) -> (r: ResourceIndexType)
    ensures
        r == spec_classify_index_type(*item),
{
    let href = to_opf_href(item.href.as_str());
    let hc = chars_of(href.as_str());
    let lower = lowercase_chars(hc.as_slice());
    let lower = lower.as_slice();
    let mt = chars_of(item.media_type.as_str());
    let mt = mt.as_slice();
    if props_have_exec(&item.properties, "nav") || is_lit(lower, "nav.xhtml") {
        ResourceIndexType::Nav
    } else if is_lit(mt, "application/x-dtbncx+xml") || is_lit(lower, "toc.ncx") {
        ResourceIndexType::Ncx
    } else if (is_lit(mt, "application/xhtml+xml") || is_lit(mt, "text/html") || is_lit(mt, "application/xml"))
        && starts_with_str(lower, "text/") {
        ResourceIndexType::Chapter
    } else if is_lit(mt, "text/css") {
        ResourceIndexType::Style
    } else if starts_with_str(mt, "image/") {
        ResourceIndexType::Image
    } else if is_font_media_type(mt) {
        ResourceIndexType::Font
    } else {
        ResourceIndexType::Misc
    }
}

/// The mathematical value of an index item.
#[verifier::ext_equal]
pub ghost struct IndexItemView {
    pub path: Seq<char>,
    pub href: Seq<char>,
    pub manifest_id: Option<Seq<char>>,
    pub media_type: Seq<char>,
    pub resource_type: ResourceIndexType,
    pub properties: Option<Seq<Seq<char>>>,
    pub referenced_by: Seq<Seq<char>>,
}

/// The view of an optional list of strings.
pub open spec fn opt_strings(o: Option<Vec<String>>) -> Option<Seq<Seq<char>>> {
    match o {
        Some(v) => Some(string_views(v@)),
        None => None,
    }
}

/// The view of an index item.
pub open spec fn index_item_view(r: ResourceIndexItem) -> IndexItemView {
    IndexItemView {
        path: r.path@,
        href: r.href@,
        manifest_id: match r.manifest_id {
            Some(s) => Some(s@),
            None => None,
        },
        media_type: r.media_type@,
        resource_type: r.resource_type,
        properties: opt_strings(r.properties),
        referenced_by: string_views(r.referenced_by@),
    }
}

/// The index item of a manifest item, referenced by nothing yet: its href
/// relative to `OEBPS/`, its package path, id, media type, kind and
/// properties.
pub open spec fn spec_index_item(item: StandardManifestItem) -> IndexItemView {
    IndexItemView {
        path: spec_manifest_path(spec_strip_oebps_prefix(item.href@)),
        href: spec_strip_oebps_prefix(item.href@),
        manifest_id: Some(item.id@),
        media_type: item.media_type@,
        resource_type: spec_classify_index_type(item),
        properties: opt_strings(item.properties),
        referenced_by: seq![],
    }
}

/// The index item of a manifest item.
pub fn index_item_from_manifest(item: &StandardManifestItem) -> (r: ResourceIndexItem)
    ensures
        index_item_view(r) == spec_index_item(*item),
{
    let href = to_opf_href(item.href.as_str());
    let path = manifest_path(href.as_str());
    let properties = match &item.properties {
        Some(v) => Some(copy_strings(v)),
        None => None,
    };
    let r = ResourceIndexItem {
        path,
        href,
        manifest_id: Some(item.id.clone()),
        media_type: item.media_type.clone(),
        resource_type: classify_resource_type(item),
        properties,
        referenced_by: Vec::new(),
    };
    proof {
        assert(index_item_view(r) =~= spec_index_item(*item));
    }
    r
}

/// Whether the references of a resource are worth collecting: a text-like
/// file, or a chapter, style, navigation document or NCX.
pub open spec fn spec_should_scan(r: IndexItemView) -> bool {
    spec_is_text_like_file(r.path) || r.resource_type == ResourceIndexType::Chapter || r.resource_type
        == ResourceIndexType::Style || r.resource_type == ResourceIndexType::Nav || r.resource_type
        == ResourceIndexType::Ncx
}

/// Whether the references of a resource are worth collecting.
pub fn should_scan(resource: &ResourceIndexItem) -> (r: bool)
    ensures
        r == spec_should_scan(index_item_view(*resource)),
{
    is_text_like_file(resource.path.as_str()) || resource.resource_type == ResourceIndexType::Chapter
        || resource.resource_type == ResourceIndexType::Style || resource.resource_type == ResourceIndexType::Nav
        || resource.resource_type == ResourceIndexType::Ncx
}

/// The index items of the manifest, in manifest order.
pub fn resource_items(doc: &OpfDocument) -> (r: Vec<ResourceIndexItem>)
    ensures
        r@.map_values(|x: ResourceIndexItem| index_item_view(x)) == doc.manifest.items@.map_values(
            |i: StandardManifestItem| spec_index_item(i),
        ),
{
    let items = &doc.manifest.items;
    let mut out: Vec<ResourceIndexItem> = Vec::new();
    let mut i: usize = 0;
    while i < items.len()
        invariant
            i <= items@.len(),
            out@.map_values(|x: ResourceIndexItem| index_item_view(x)) == items@.take(i as int).map_values(
                |it: StandardManifestItem| spec_index_item(it),
            ),
        decreases items@.len() - i,
    {
        let ghost before = out@;
        let x = index_item_from_manifest(&items[i]);
        out.push(x);
        proof {
            assert(items@.take(i + 1) =~= items@.take(i as int).push(items@[i as int]));
            assert(out@ =~= before.push(x));
            assert(items@.take(i + 1).map_values(|it: StandardManifestItem| spec_index_item(it)) =~= items@.take(
                i as int,
            ).map_values(|it: StandardManifestItem| spec_index_item(it)).push(spec_index_item(items@[i as int])));
            assert(out@.map_values(|x: ResourceIndexItem| index_item_view(x)) =~= items@.take(i + 1).map_values(
                |it: StandardManifestItem| spec_index_item(it),
            ));
        }
        i += 1;
    }
    proof {
        assert(items@.take(items@.len() as int) =~= items@);
    }
    out
}

/// The paths of the resources whose references are collected, in order.
pub open spec fn spec_scan_sources(rs: Seq<IndexItemView>) -> Seq<Seq<char>>
    decreases rs.len(),
{
    if rs.len() == 0 {
        seq![]
    } else if spec_should_scan(rs.last()) {
        spec_scan_sources(rs.drop_last()).push(rs.last().path)
    } else {
        spec_scan_sources(rs.drop_last())
    }
}

/// The paths of the resources whose references are collected, in order.
pub fn scan_sources(resources: &Vec<ResourceIndexItem>) -> (r: Vec<String>)
    ensures
        string_views(r@) == spec_scan_sources(resources@.map_values(|x: ResourceIndexItem| index_item_view(x))),
{
    let ghost rv = resources@.map_values(|x: ResourceIndexItem| index_item_view(x));
    let mut out: Vec<String> = Vec::new();
    let mut i: usize = 0;
    while i < resources.len()
        invariant
            i <= resources@.len(),
            rv == resources@.map_values(|x: ResourceIndexItem| index_item_view(x)),
            string_views(out@) == spec_scan_sources(rv.take(i as int)),
        decreases resources@.len() - i,
    {
        proof {
            let t = rv.take(i + 1);
            assert(t.drop_last() =~= rv.take(i as int));
            assert(t.last() == index_item_view(resources@[i as int]));
        }
        if should_scan(&resources[i]) {
            let ghost before = out@;
            out.push(resources[i].path.clone());
            proof {
                assert(string_views(out@) =~= string_views(before).push(resources@[i as int].path@));
            }
        }
        i += 1;
    }
    proof {
        assert(rv.take(resources@.len() as int) =~= rv);
    }
    out
}

// ---------------------------------------------------------------------------
// Resolving references
// ---------------------------------------------------------------------------

/// The package path a reference in `source` points to: none for a skipped
/// reference (fragment, data URI, web or mail link, script) or an empty
/// path; a path under `OEBPS/` as it is; a root-relative path into a
/// standard directory under `OEBPS/`; anything else resolved against the
/// source's directory, put under `OEBPS/` when it lands in a standard
/// directory.
pub open spec fn spec_resolve_reference_target(source: Seq<char>, raw: Seq<char>) -> Option<Seq<char>> {
    let t = trim(raw);
    let p = path_part(t);
    let n = spec_normalize(p);
    let r = spec_resolve_relative(spec_parent(source), p);
    if spec_should_skip_reference(t) || p.len() == 0 || n.len() == 0 {
        None
    } else if starts_with(n, oebps()) {
        Some(n)
    } else if starts_with(t, seq!['/']) && spec_has_standard_dir_prefix(n) {
        Some(spec_manifest_path(n))
    } else if !starts_with(r, oebps()) && spec_has_standard_dir_prefix(r) {
        Some(spec_manifest_path(r))
    } else {
        Some(r)
    }
}

/// The package path a reference in `source_path` points to.
pub fn resolve_reference_target(source_path: &str, raw_reference: &str) -> (r: Option<String>)
    ensures
        match r {
            Some(t) => spec_resolve_reference_target(source_path@, raw_reference@) == Some(t@),
            None => spec_resolve_reference_target(source_path@, raw_reference@) is None,
        },
{
    proof {
        reveal_strlit("OEBPS/");
        reveal_strlit("/");
        assert("OEBPS/"@ =~= oebps());
        assert("/"@ =~= seq!['/']);
    }
    let rc = chars_of(raw_reference);
    let tc = trim_chars(rc.as_slice());
    let trimmed = string_of(tc.as_slice());
    if should_skip_reference(trimmed.as_str()) {
        return None;
    }
    let (p, _) = split_reference_suffix(trimmed.as_str());
    let pc = chars_of(p);
    if pc.len() == 0 {
        return None;
    }
    let normalized = normalize(p);
    let nc = chars_of(normalized.as_str());
    if nc.len() == 0 {
        return None;
    }
    if starts_with_str(nc.as_slice(), "OEBPS/") {
        return Some(normalized);
    }
    if starts_with_str(tc.as_slice(), "/") && has_standard_dir_prefix(normalized.as_str()) {
        return Some(manifest_path(normalized.as_str()));
    }
    let dir = parent(source_path);
    let resolved = resolve_relative(dir.as_str(), p);
    let resc = chars_of(resolved.as_str());
    if !starts_with_str(resc.as_slice(), "OEBPS/") && has_standard_dir_prefix(resolved.as_str()) {
        Some(manifest_path(resolved.as_str()))
    } else {
        Some(resolved)
    }
}

// ---------------------------------------------------------------------------
// Collecting references
// ---------------------------------------------------------------------------

/// A double-quoted `src`, `href` or `xlink:href` attribute.
pub open spec fn double_quoted_pattern() -> Seq<char> {
    "(src|href|xlink:href)\\s*=\\s*\"([^\"]+)\""@
}

/// A single-quoted `src`, `href` or `xlink:href` attribute.
pub open spec fn single_quoted_pattern() -> Seq<char> {
    "(src|href|xlink:href)\\s*=\\s*'([^']+)'"@
}

/// A CSS `url(...)`, quoted or not.
pub open spec fn css_url_ref_pattern() -> Seq<char> {
    "url\\(\\s*(['\"]?)([^'\")]+)(['\"]?)\\s*\\)"@
}

/// The `(attribute, raw reference)` of each match: groups `name_group` and
/// `value_group`, or the fixed attribute `fixed` where given.
pub open spec fn candidates(ps: Seq<(Seq<char>, Seq<Option<Seq<char>>>)>, fixed: Option<Seq<char>>) -> Seq<(Seq<char>, Seq<char>)>
    decreases ps.len(),
{
    if ps.len() == 0 {
        seq![]
    } else {
        let a = match fixed {
            Some(f) => f,
            None => group_or_empty(ps.last(), 1),
        };
        candidates(ps.drop_last(), fixed).push((a, group_or_empty(ps.last(), 2)))
    }
}

/// The candidate references of a file: its double-quoted attributes, its
/// single-quoted attributes, then its CSS `url(...)`s.
pub open spec fn file_candidates(content: Seq<char>) -> Seq<(Seq<char>, Seq<char>)> {
    candidates(regex_split(double_quoted_pattern(), content).0, None) + candidates(
        regex_split(single_quoted_pattern(), content).0,
        None,
    ) + candidates(regex_split(css_url_ref_pattern(), content).0, Some("url"@))
}

/// The mathematical value of a reference.
#[verifier::ext_equal]
pub ghost struct RefView {
    pub source: Seq<char>,
    pub target: Option<Seq<char>>,
    pub raw: Seq<char>,
    pub attribute: Seq<char>,
    pub is_resolved: bool,
}

/// The view of a reference.
pub open spec fn ref_view(r: ResourceReference) -> RefView {
    RefView {
        source: r.source_path@,
        target: match r.target_path {
            Some(t) => Some(t@),
            None => None,
        },
        raw: r.raw_reference@,
        attribute: r.attribute@,
        is_resolved: r.is_resolved,
    }
}

/// The views of references.
pub open spec fn ref_views(rs: Seq<ResourceReference>) -> Seq<RefView> {
    rs.map_values(|r: ResourceReference| ref_view(r))
}

/// The last position of `key` in `keys`.
pub open spec fn last_index(keys: Seq<Seq<char>>, key: Seq<char>) -> Option<int>
    decreases keys.len(),
{
    if keys.len() == 0 {
        None
    } else if keys.last() == key {
        Some(keys.len() - 1)
    } else {
        last_index(keys.drop_last(), key)
    }
}

/// The case-insensitive keys of the resources' paths.
pub open spec fn resource_keys(rs: Seq<IndexItemView>) -> Seq<Seq<char>> {
    rs.map_values(|r: IndexItemView| spec_casefold(r.path))
}

/// The references of `source` among its candidates: each candidate that
/// resolves to a path, with its trimmed text, its attribute, and whether a
/// resource has that path (ignoring case).
pub open spec fn source_refs(source: Seq<char>, cands: Seq<(Seq<char>, Seq<char>)>, keys: Seq<Seq<char>>) -> Seq<RefView>
    decreases cands.len(),
{
    if cands.len() == 0 {
        seq![]
    } else {
        let prev = source_refs(source, cands.drop_last(), keys);
        let c = cands.last();
        match spec_resolve_reference_target(source, c.1) {
            Some(t) => prev.push(
                RefView {
                    source,
                    target: Some(t),
                    raw: trim(c.1),
                    attribute: c.0,
                    is_resolved: last_index(keys, spec_casefold(t)) is Some,
                },
            ),
            None => prev,
        }
    }
}

/// The references of all the files, file by file.
pub open spec fn all_refs(files: Seq<(Seq<char>, Seq<char>)>, keys: Seq<Seq<char>>) -> Seq<RefView>
    decreases files.len(),
{
    if files.len() == 0 {
        seq![]
    } else {
        all_refs(files.drop_last(), keys) + source_refs(files.last().0, file_candidates(files.last().1), keys)
    }
}

/// Whether a reference points to resource `k` (the last with its key).
pub open spec fn hits(r: RefView, keys: Seq<Seq<char>>, k: int) -> bool {
    match r.target {
        Some(t) => last_index(keys, spec_casefold(t)) == Some(k),
        None => false,
    }
}

/// The files that reference resource `k`.
pub open spec fn referrers(refs: Seq<RefView>, keys: Seq<Seq<char>>, k: int) -> Set<Seq<char>> {
    Set::new(|x: Seq<char>| exists|j: int| 0 <= j < refs.len() && hits(#[trigger] refs[j], keys, k) && refs[j].source == x)
}

/// The text of capture group `g` of a match, empty where it took no part.
fn group_string(p: &MatchPiece, g: usize) -> (r: String)
    ensures
        r@ == group_or_empty(piece_view(*p), g as int),
{
    if g < p.1.len() {
        match &p.1[g] {
            Some(t) => t.clone(),
            None => String::new(),
        }
    } else {
        String::new()
    }
}

/// Appends the candidates of the matches.
fn push_candidates(out: &mut Vec<(String, String)>, pieces: &Vec<MatchPiece>, fixed: Option<&str>)
    ensures
        pair_views(final(out)@) == pair_views(old(out)@) + candidates(
            pieces_view(pieces@),
            match fixed {
                Some(f) => Some(f@),
                None => None,
            },
        ),
{
    let ghost fx = match fixed {
        Some(f) => Some(f@),
        None => None,
    };
    let ghost base = pair_views(out@);
    let ghost pv = pieces_view(pieces@);
    let mut i: usize = 0;
    proof {
        assert(base + candidates(pv.take(0), fx) =~= base);
    }
    while i < pieces.len()
        invariant
            i <= pieces@.len(),
            pv == pieces_view(pieces@),
            fx == (match fixed {
                Some(f) => Some(f@),
                None => None::<Seq<char>>,
            }),
            pair_views(out@) == base + candidates(pv.take(i as int), fx),
        decreases pieces@.len() - i,
    {
        proof {
            let t = pv.take(i + 1);
            assert(t.drop_last() =~= pv.take(i as int));
            assert(t.last() == piece_view(pieces@[i as int]));
        }
        let a = match fixed {
            Some(f) => f.to_string(),
            None => group_string(&pieces[i], 1),
        };
        let raw = group_string(&pieces[i], 2);
        let ghost before = out@;
        out.push((a, raw));
        proof {
            assert(pair_views(out@) =~= pair_views(before).push((a@, raw@)));
        }
        i += 1;
    }
    proof {
        assert(pv.take(pieces@.len() as int) =~= pv);
    }
}

/// The three reference patterns compile.
pub open spec fn reference_patterns_compile() -> bool {
    regex_compiles(double_quoted_pattern()) && regex_compiles(single_quoted_pattern()) && regex_compiles(css_url_ref_pattern())
}

/// The candidate references of a file; `None` exactly when a pattern does
/// not compile.
fn file_candidates_exec(content: &str) -> (r: Option<Vec<(String, String)>>)
    ensures
        r is Some <==> reference_patterns_compile(),
        r matches Some(v) ==> pair_views(v@) == file_candidates(content@),
{
    let d = match regex_captures("(src|href|xlink:href)\\s*=\\s*\"([^\"]+)\"", content) {
        Some(v) => v.0,
        None => return None,
    };
    let s = match regex_captures("(src|href|xlink:href)\\s*=\\s*'([^']+)'", content) {
        Some(v) => v.0,
        None => return None,
    };
    let c = match regex_captures("url\\(\\s*(['\"]?)([^'\")]+)(['\"]?)\\s*\\)", content) {
        Some(v) => v.0,
        None => return None,
    };
    let mut out: Vec<(String, String)> = Vec::new();
    proof {
        assert(pair_views(out@) =~= Seq::<(Seq<char>, Seq<char>)>::empty());
    }
    push_candidates(&mut out, &d, None);
    push_candidates(&mut out, &s, None);
    push_candidates(&mut out, &c, Some("url"));
    proof {
        reveal_strlit("url");
        assert(pair_views(out@) =~= file_candidates(content@));
    }
    Some(out)
}

/// The position of the resource a target points to.
pub open spec fn target_index(r: RefView, keys: Seq<Seq<char>>) -> Option<int> {
    match r.target {
        Some(t) => last_index(keys, spec_casefold(t)),
        None => None,
    }
}

/// The view of an optional position.
pub open spec fn opt_pos(o: Option<usize>) -> Option<int> {
    match o {
        Some(k) => Some(k as int),
        None => None,
    }
}

/// The last position of `key` in `keys`.
fn last_index_exec(keys: &Vec<Vec<char>>, key: &[char]) -> (r: Option<usize>)
    ensures
        opt_pos(r) == last_index(keys@.map_values(|k: Vec<char>| k@), key@),
{
    let ghost kv = keys@.map_values(|k: Vec<char>| k@);
    let mut end = keys.len();
    proof {
        assert(kv.take(end as int) =~= kv);
    }
    while end > 0
        invariant
            end <= keys@.len(),
            kv == keys@.map_values(|k: Vec<char>| k@),
            last_index(kv, key@) == last_index(kv.take(end as int), key@),
        decreases end,
    {
        proof {
            let t = kv.take(end as int);
            assert(t.drop_last() =~= kv.take(end - 1));
            assert(t.last() == keys@[end - 1]@);
        }
        if chars_eq(keys[end - 1].as_slice(), key) {
            return Some(end - 1);
        }
        end -= 1;
    }
    None
}

/// Appends the references of `source` among its candidates, and for each
/// the position of the resource it points to.
fn push_source_refs(
    source: &String,
    cands: &Vec<(String, String)>,
    keys: &Vec<Vec<char>>,
    refs: &mut Vec<ResourceReference>,
    hit: &mut Vec<Option<usize>>,
)
    requires
        old(hit)@.len() == old(refs)@.len(),
        forall|j: int| 0 <= j < old(refs)@.len() ==> opt_pos(#[trigger] old(hit)@[j]) == target_index(
            ref_views(old(refs)@)[j],
            keys@.map_values(|k: Vec<char>| k@),
        ),
    ensures
        ref_views(final(refs)@) == ref_views(old(refs)@) + source_refs(
            source@,
            pair_views(cands@),
            keys@.map_values(|k: Vec<char>| k@),
        ),
        final(hit)@.len() == final(refs)@.len(),
        forall|j: int| 0 <= j < final(refs)@.len() ==> opt_pos(#[trigger] final(hit)@[j]) == target_index(
            ref_views(final(refs)@)[j],
            keys@.map_values(|k: Vec<char>| k@),
        ),
{
    let ghost kv = keys@.map_values(|k: Vec<char>| k@);
    let ghost cv = pair_views(cands@);
    let ghost base = ref_views(refs@);
    let mut i: usize = 0;
    proof {
        assert(base + source_refs(source@, cv.take(0), kv) =~= base);
    }
    while i < cands.len()
        invariant
            i <= cands@.len(),
            kv == keys@.map_values(|k: Vec<char>| k@),
            cv == pair_views(cands@),
            ref_views(refs@) == base + source_refs(source@, cv.take(i as int), kv),
            hit@.len() == refs@.len(),
            forall|j: int| 0 <= j < refs@.len() ==> opt_pos(#[trigger] hit@[j]) == target_index(ref_views(refs@)[j], kv),
        decreases cands@.len() - i,
    {
        proof {
            let t = cv.take(i + 1);
            assert(t.drop_last() =~= cv.take(i as int));
            assert(t.last() == (cands@[i as int].0@, cands@[i as int].1@));
        }
        let raw = &cands[i].1;
        match resolve_reference_target(source.as_str(), raw.as_str()) {
            Some(target) => {
                let tkey = chars_of(casefold(target.as_str()).as_str());
                let idx = last_index_exec(keys, tkey.as_slice());
                let rc = chars_of(raw.as_str());
                let trimmed = string_of(trim_chars(rc.as_slice()).as_slice());
                let r = ResourceReference {
                    source_path: source.clone(),
                    target_path: Some(target),
                    raw_reference: trimmed,
                    attribute: cands[i].0.clone(),
                    is_resolved: idx.is_some(),
                };
                let ghost rb = refs@;
                let ghost hb = hit@;
                refs.push(r);
                hit.push(idx);
                proof {
                    assert(ref_views(refs@) =~= ref_views(rb).push(ref_view(r)));
                    assert forall|j: int| 0 <= j < refs@.len() implies opt_pos(#[trigger] hit@[j]) == target_index(
                        ref_views(refs@)[j],
                        kv,
                    ) by {
                        if j < rb.len() {
                            assert(hit@[j] == hb[j]);
                            assert(ref_views(refs@)[j] == ref_views(rb)[j]);
                        }
                    }
                }
            },
            None => {},
        }
        i += 1;
    }
    proof {
        assert(cv.take(cands@.len() as int) =~= cv);
    }
}

/// The files among the first `n` references that reference resource `k`.
pub open spec fn referrers_below(refs: Seq<RefView>, keys: Seq<Seq<char>>, k: int, n: int) -> Set<Seq<char>> {
    Set::new(|x: Seq<char>| exists|j: int| 0 <= j < n && hits(#[trigger] refs[j], keys, k) && refs[j].source == x)
}

/// Sequences with the same elements, each as often, have the same set of
/// elements, and the one is free of duplicates when the other is.
proof fn lemma_same_multiset(a: Seq<Seq<char>>, b: Seq<Seq<char>>)
    requires
        a.to_multiset() == b.to_multiset(),
        b.no_duplicates(),
    ensures
        a.no_duplicates(),
        a.to_set() == b.to_set(),
{
    broadcast use vstd::seq_lib::group_to_multiset_ensures;
    b.lemma_multiset_has_no_duplicates();
    a.lemma_multiset_has_no_duplicates_conv();
    assert forall|x: Seq<char>| a.to_set().contains(x) <==> b.to_set().contains(x) by {
        assert(a.contains(x) <==> a.to_multiset().count(x) > 0);
        assert(b.contains(x) <==> b.to_multiset().count(x) > 0);
    }
    assert(a.to_set() =~= b.to_set());
}

/// The files that reference resource `k`, each once, ordered.
fn referrers_of(refs: &Vec<ResourceReference>, hit: &Vec<Option<usize>>, k: usize, Ghost(kv): Ghost<Seq<Seq<char>>>) -> (r: Vec<String>)
    requires
        hit@.len() == refs@.len(),
        forall|j: int| 0 <= j < refs@.len() ==> opt_pos(#[trigger] hit@[j]) == target_index(ref_views(refs@)[j], kv),
    ensures
        sorted_strs(string_views(r@)),
        string_views(r@).no_duplicates(),
        string_views(r@).to_set() == referrers(ref_views(refs@), kv, k as int),
{
    let ghost rv = ref_views(refs@);
    let mut out: Vec<String> = Vec::new();
    let mut j: usize = 0;
    proof {
        assert(string_views(out@).to_set() =~= referrers_below(rv, kv, k as int, 0));
    }
    while j < refs.len()
        invariant
            j <= refs@.len(),
            rv == ref_views(refs@),
            hit@.len() == refs@.len(),
            forall|i: int| 0 <= i < refs@.len() ==> opt_pos(#[trigger] hit@[i]) == target_index(rv[i], kv),
            string_views(out@).no_duplicates(),
            string_views(out@).to_set() == referrers_below(rv, kv, k as int, j as int),
        decreases refs@.len() - j,
    {
        let ghost sv = string_views(out@);
        assert(opt_pos(hit@[j as int]) == target_index(rv[j as int], kv));
        let is_hit = match hit[j] {
            Some(h) => h == k,
            None => false,
        };
        assert(is_hit == hits(rv[j as int], kv, k as int));
        if is_hit {
            let src = chars_of(refs[j].source_path.as_str());
            let mut present = false;
            let mut q: usize = 0;
            while q < out.len()
                invariant
                    q <= out@.len(),
                    sv == string_views(out@),
                    present == (exists|m: int| 0 <= m < q && sv[m] == src@),
                decreases out@.len() - q,
            {
                let c = chars_of(out[q].as_str());
                let same = chars_eq(c.as_slice(), src.as_slice());
                proof {
                    assert(sv[q as int] == c@);
                    if same {
                        assert(sv[q as int] == src@);
                    } else {
                        assert forall|m: int| 0 <= m < q + 1 && sv[m] == src@ implies m < q by {}
                    }
                }
                if same {
                    present = true;
                }
                q += 1;
            }
            if !present {
                out.push(refs[j].source_path.clone());
                proof {
                    assert(string_views(out@) =~= sv.push(src@));
                    assert forall|a: int, b: int| 0 <= a < b < string_views(out@).len() implies string_views(out@)[a]
                        != string_views(out@)[b] by {
                        if b == sv.len() {
                            assert(sv[a] != src@);
                        }
                    }
                }
            }
            proof {
                assert(rv[j as int].source == src@);
                assert forall|x: Seq<char>| string_views(out@).to_set().contains(x) <==> referrers_below(
                    rv,
                    kv,
                    k as int,
                    j + 1,
                ).contains(x) by {
                    if x == src@ {
                        assert(hits(rv[j as int], kv, k as int) && rv[j as int].source == x);
                        if present {
                            let m = choose|m: int| 0 <= m < sv.len() && sv[m] == src@;
                            assert(string_views(out@)[m] == x);
                        } else {
                            assert(string_views(out@)[sv.len() as int] == x);
                        }
                    } else {
                        if string_views(out@).to_set().contains(x) {
                            let m = choose|m: int| 0 <= m < string_views(out@).len() && string_views(out@)[m] == x;
                            assert(sv[m] == x);
                            assert(sv.to_set().contains(x));
                            let i = choose|i: int| 0 <= i < j && hits(#[trigger] rv[i], kv, k as int) && rv[i].source == x;
                        }
                        if referrers_below(rv, kv, k as int, j + 1).contains(x) {
                            let i = choose|i: int| 0 <= i < j + 1 && hits(#[trigger] rv[i], kv, k as int) && rv[i].source == x;
                            assert(i < j);
                            assert(referrers_below(rv, kv, k as int, j as int).contains(x));
                            let m = choose|m: int| 0 <= m < sv.len() && sv[m] == x;
                            assert(string_views(out@)[m] == x);
                        }
                    }
                }
                assert(string_views(out@).to_set() =~= referrers_below(rv, kv, k as int, j + 1));
            }
        } else {
            proof {
                assert forall|x: Seq<char>| referrers_below(rv, kv, k as int, j + 1).contains(x)
                    <==> referrers_below(rv, kv, k as int, j as int).contains(x) by {
                    if referrers_below(rv, kv, k as int, j + 1).contains(x) {
                        let i = choose|i: int| 0 <= i < j + 1 && hits(#[trigger] rv[i], kv, k as int) && rv[i].source == x;
                        assert(i < j);
                    }
                }
                assert(referrers_below(rv, kv, k as int, j + 1) =~= referrers_below(rv, kv, k as int, j as int));
            }
        }
        j += 1;
    }
    proof {
        assert(referrers_below(rv, kv, k as int, refs@.len() as int) =~= referrers(rv, kv, k as int));
    }
    let sorted = sort_strings(out);
    proof {
        lemma_same_multiset(string_views(sorted@), string_views(out@));
    }
    sorted
}

/// The unresolved references, in order.
pub open spec fn unresolved(refs: Seq<RefView>) -> Seq<RefView>
    decreases refs.len(),
{
    if refs.len() == 0 {
        seq![]
    } else if refs.last().is_resolved {
        unresolved(refs.drop_last())
    } else {
        unresolved(refs.drop_last()).push(refs.last())
    }
}

/// A copy of a reference.
fn copy_reference(r: &ResourceReference) -> (c: ResourceReference)
    ensures
        ref_view(c) == ref_view(*r),
{
    ResourceReference {
        source_path: r.source_path.clone(),
        target_path: match &r.target_path {
            Some(t) => Some(t.clone()),
            None => None,
        },
        raw_reference: r.raw_reference.clone(),
        attribute: r.attribute.clone(),
        is_resolved: r.is_resolved,
    }
}

/// What the index says of resource `k`: its manifest entry, and the files
/// that reference it, each once and ordered.
pub open spec fn indexed_as(v: IndexItemView, item: IndexItemView, refs: Seq<RefView>, keys: Seq<Seq<char>>, k: int) -> bool {
    &&& v == IndexItemView { referenced_by: v.referenced_by, ..item }
    &&& sorted_strs(v.referenced_by)
    &&& v.referenced_by.no_duplicates()
    &&& v.referenced_by.to_set() == referrers(refs, keys, k)
}

/// The resource index of a package: its manifest items in order, each
/// with the files that reference it; every reference found in the given
/// files (path and content, in order) that resolves to a path; and those
/// that match no resource. `None` exactly when there are files to read and
/// a reference pattern does not compile.
pub fn build_resource_index(epub_id: &str, doc: &OpfDocument, files: &Vec<(String, String)>, generated_at: u64) -> (r: Option<ResourceIndex>)
    ensures
        r is Some <==> (files@.len() == 0 || reference_patterns_compile()),
        r matches Some(idx) ==> {
            let items = doc.manifest.items@.map_values(|i: StandardManifestItem| spec_index_item(i));
            let keys = resource_keys(items);
            let refs = all_refs(pair_views(files@), keys);
            &&& idx.version == 1
            &&& idx.epub_id@ == epub_id@
            &&& idx.generated_at == generated_at
            &&& ref_views(idx.references@) == refs
            &&& ref_views(idx.unresolved_references@) == unresolved(refs)
            &&& idx.resources@.len() == items.len()
            &&& forall|k: int| 0 <= k < items.len() ==> indexed_as(index_item_view(#[trigger] idx.resources@[k]), items[k], refs, keys, k)
        },
{
    let ghost items = doc.manifest.items@.map_values(|i: StandardManifestItem| spec_index_item(i));
    let base = resource_items(doc);
    let mut keys: Vec<Vec<char>> = Vec::new();
    let mut i: usize = 0;
    while i < base.len()
        invariant
            i <= base@.len(),
            base@.map_values(|x: ResourceIndexItem| index_item_view(x)) == items,
            keys@.map_values(|k: Vec<char>| k@) == resource_keys(items).take(i as int),
        decreases base@.len() - i,
    {
        let ghost before = keys@;
        let k = chars_of(casefold(base[i].path.as_str()).as_str());
        keys.push(k);
        proof {
            assert(items[i as int] == index_item_view(base@[i as int]));
            assert(resource_keys(items)[i as int] == k@);
            assert(keys@ =~= before.push(k));
            assert(resource_keys(items).take(i + 1) =~= resource_keys(items).take(i as int).push(k@));
            assert(keys@.map_values(|k: Vec<char>| k@) =~= resource_keys(items).take(i + 1));
        }
        i += 1;
    }
    let ghost kv = resource_keys(items);
    proof {
        assert(resource_keys(items).take(base@.len() as int) =~= resource_keys(items));
    }
    let ghost fv = pair_views(files@);
    let mut refs: Vec<ResourceReference> = Vec::new();
    let mut hit: Vec<Option<usize>> = Vec::new();
    let mut f: usize = 0;
    proof {
        assert(ref_views(refs@) =~= all_refs(fv.take(0), kv));
    }
    while f < files.len()
        invariant
            f <= files@.len(),
            fv == pair_views(files@),
            keys@.map_values(|k: Vec<char>| k@) == kv,
            ref_views(refs@) == all_refs(fv.take(f as int), kv),
            f > 0 ==> reference_patterns_compile(),
            hit@.len() == refs@.len(),
            forall|j: int| 0 <= j < refs@.len() ==> opt_pos(#[trigger] hit@[j]) == target_index(ref_views(refs@)[j], kv),
        decreases files@.len() - f,
    {
        let cands = match file_candidates_exec(files[f].1.as_str()) {
            Some(c) => c,
            None => return None,
        };
        push_source_refs(&files[f].0, &cands, &keys, &mut refs, &mut hit);
        proof {
            let t = fv.take(f + 1);
            assert(t.drop_last() =~= fv.take(f as int));
            assert(t.last() == (files@[f as int].0@, files@[f as int].1@));
        }
        f += 1;
    }
    proof {
        assert(fv.take(files@.len() as int) =~= fv);
    }
    let ghost rv = ref_views(refs@);
    let items_exec = &doc.manifest.items;
    let mut resources: Vec<ResourceIndexItem> = Vec::new();
    let mut k: usize = 0;
    while k < items_exec.len()
        invariant
            k <= items_exec@.len(),
            items_exec@ == doc.manifest.items@,
            items == doc.manifest.items@.map_values(|i: StandardManifestItem| spec_index_item(i)),
            rv == ref_views(refs@),
            hit@.len() == refs@.len(),
            forall|j: int| 0 <= j < refs@.len() ==> opt_pos(#[trigger] hit@[j]) == target_index(ref_views(refs@)[j], kv),
            resources@.len() == k,
            forall|q: int| 0 <= q < k ==> indexed_as(index_item_view(#[trigger] resources@[q]), items[q], rv, kv, q),
        decreases items_exec@.len() - k,
    {
        let mut it = index_item_from_manifest(&items_exec[k]);
        let rb = referrers_of(&refs, &hit, k, Ghost(kv));
        it.referenced_by = rb;
        let ghost before = resources@;
        resources.push(it);
        proof {
            assert(index_item_view(it) =~= IndexItemView { referenced_by: string_views(rb@), ..items[k as int] });
            assert forall|q: int| 0 <= q < k + 1 implies indexed_as(index_item_view(#[trigger] resources@[q]), items[q], rv, kv, q) by {
                if q < k {
                    assert(resources@[q] == before[q]);
                }
            }
        }
        k += 1;
    }
    let mut unresolved_refs: Vec<ResourceReference> = Vec::new();
    let mut j: usize = 0;
    while j < refs.len()
        invariant
            j <= refs@.len(),
            rv == ref_views(refs@),
            ref_views(unresolved_refs@) == unresolved(rv.take(j as int)),
        decreases refs@.len() - j,
    {
        proof {
            let t = rv.take(j + 1);
            assert(t.drop_last() =~= rv.take(j as int));
            assert(t.last() == ref_view(refs@[j as int]));
        }
        if !refs[j].is_resolved {
            let ghost before = unresolved_refs@;
            let c = copy_reference(&refs[j]);
            unresolved_refs.push(c);
            proof {
                assert(ref_views(unresolved_refs@) =~= ref_views(before).push(ref_view(c)));
            }
        }
        j += 1;
    }
    proof {
        assert(rv.take(refs@.len() as int) =~= rv);
    }
    Some(
        ResourceIndex {
            version: 1,
            epub_id: epub_id.to_string(),
            generated_at,
            resources,
            references: refs,
            unresolved_references: unresolved_refs,
        },
    )
}

} // verus!
