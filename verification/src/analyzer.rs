//! Deciding the standardized layout of a package: which spine items are
//! chapters, which manifest items are resources of which kind, where each
//! goes, and which files the content references outside the manifest.

use vstd::prelude::*;
use crate::epub_path::{
    allocate_unique_path, casefold_chars, filename_chars, lemma_rfind_char_bounds, normalize_chars, spec_casefold, spec_filename,
    oebps, spec_normalize, spec_strip_oebps_prefix, strip_first_dir, unique_candidate, spec_standard_path, standard_path,
    str_views, string_views,
};
use crate::library::{is_font_media_type, spec_is_font_media_type};
use crate::models::{
    ExtendedChapterInfo, FileMap, ManifestItem, NavPoint, ParsedEpub, RefactorError, ResourceCollection, ResourceFile,
    SpecialFiles, SpineItemref,
};
use crate::pattern::opt_seq;
use crate::opf_document::{id_candidate, id_chars, sanitize_id_chars, sanitized_id, trim_underscores};
use crate::text::{
    chars_eq, chars_of, contains_string, decimal_chars, extend_chars, extend_str, lowercase,
    lowercase_chars, rfind_char, rfind_char_exec, slice_chars, starts_with, starts_with_str,
    string_of,
};

verus! {

// ---------------------------------------------------------------------------
// Kinds of resources
// ---------------------------------------------------------------------------

/// The kinds of resources, by media type.
#[derive(PartialEq, Eq, Structural, Clone, Copy, Debug)]
pub enum ResourceType {
    Style,
    Image,
    Font,
    Misc,
}

/// The kind of a resource of media type `mt`: CSS is a style, `image/*` an
/// image, the font types fonts, anything else miscellaneous.
pub open spec fn spec_classify_resource_type(mt: Seq<char>) -> ResourceType {
    if mt == "text/css"@ {
        ResourceType::Style
    } else if starts_with(mt, "image/"@) {
        ResourceType::Image
    } else if spec_is_font_media_type(mt) {
        ResourceType::Font
    } else {
        ResourceType::Misc
    }
}

/// The kind of a resource of media type `media_type`.
pub fn classify_resource_type(media_type: &str) -> (r: ResourceType)
    ensures
        r == spec_classify_resource_type(media_type@),
{
    let m = chars_of(media_type);
    let css = chars_of("text/css");
    if chars_eq(m.as_slice(), css.as_slice()) {
        ResourceType::Style
    } else if starts_with_str(m.as_slice(), "image/") {
        ResourceType::Image
    } else if is_font_media_type(m.as_slice()) {
        ResourceType::Font
    } else {
        ResourceType::Misc
    }
}

/// Where a resource of media type `mt` goes: under `Styles`, `Images`,
/// `Fonts` or `Misc`, its original directory of that name dropped.
pub open spec fn spec_classify_resource_path(mt: Seq<char>, href: Seq<char>) -> Seq<char> {
    match spec_classify_resource_type(mt) {
        ResourceType::Style => spec_standard_path("Styles"@, href, seq!["Styles"@, "Style"@]),
        ResourceType::Image => spec_standard_path("Images"@, href, seq!["Images"@, "Image"@]),
        ResourceType::Font => spec_standard_path("Fonts"@, href, seq!["Fonts"@, "Font"@]),
        ResourceType::Misc => spec_standard_path("Misc"@, href, seq!["Misc"@]),
    }
}

/// The standard path of a resource.
pub fn classify_resource_path(media_type: &str, original_href: &str) -> (r: String)
    ensures
        r@ == spec_classify_resource_path(media_type@, original_href@),
{
    match classify_resource_type(media_type) {
        ResourceType::Style => {
            let ps: [&str; 2] = ["Styles", "Style"];
            let r = standard_path("Styles", original_href, &ps);
            assert(str_views(ps@) =~= seq!["Styles"@, "Style"@]);
            r
        },
        ResourceType::Image => {
            let ps: [&str; 2] = ["Images", "Image"];
            let r = standard_path("Images", original_href, &ps);
            assert(str_views(ps@) =~= seq!["Images"@, "Image"@]);
            r
        },
        ResourceType::Font => {
            let ps: [&str; 2] = ["Fonts", "Font"];
            let r = standard_path("Fonts", original_href, &ps);
            assert(str_views(ps@) =~= seq!["Fonts"@, "Font"@]);
            r
        },
        ResourceType::Misc => {
            let ps: [&str; 1] = ["Misc"];
            let r = standard_path("Misc", original_href, &ps);
            assert(str_views(ps@) =~= seq!["Misc"@]);
            r
        },
    }
}

/// A standard path starts with `OEBPS/`, its target directory and `/`.
proof fn lemma_standard_path_prefix(root: Seq<char>, href: Seq<char>, ps: Seq<Seq<char>>)
    ensures
        starts_with(spec_standard_path(root, href, ps), oebps() + root + seq!['/']),
{
    let p = oebps() + root + seq!['/'];
    let x = strip_first_dir(spec_strip_oebps_prefix(href), ps);
    assert((p + x).subrange(0, p.len() as int) =~= p);
}

/// Where a resource goes by its media type: a CSS file is a style under
/// `OEBPS/Styles/`, an `image/*` file an image under `OEBPS/Images/`, a
/// TrueType, OpenType, WOFF or WOFF2 font (in its `font/` or
/// `application/font-` form) a font under `OEBPS/Fonts/`, and any other
/// file miscellaneous under `OEBPS/Misc/`.
pub proof fn law_resource_kind_and_place(mt: Seq<char>, href: Seq<char>)
    ensures
        mt == "text/css"@ ==> spec_classify_resource_type(mt) == ResourceType::Style && starts_with(
            spec_classify_resource_path(mt, href),
            "OEBPS/Styles/"@,
        ),
        starts_with(mt, "image/"@) ==> spec_classify_resource_type(mt) == ResourceType::Image && starts_with(
            spec_classify_resource_path(mt, href),
            "OEBPS/Images/"@,
        ),
        (mt == "font/ttf"@ || mt == "font/otf"@ || mt == "font/woff"@ || mt == "font/woff2"@
            || mt == "application/font-ttf"@ || mt == "application/font-woff"@ || mt == "application/font-woff2"@)
            ==> spec_classify_resource_type(mt) == ResourceType::Font && starts_with(
            spec_classify_resource_path(mt, href),
            "OEBPS/Fonts/"@,
        ),
        (mt != "text/css"@ && !starts_with(mt, "image/"@) && mt != "font/ttf"@ && mt != "font/otf"@
            && mt != "font/woff"@ && mt != "font/woff2"@ && mt != "application/font-ttf"@
            && mt != "application/font-woff"@ && mt != "application/font-woff2"@)
            ==> spec_classify_resource_type(mt) == ResourceType::Misc && starts_with(
            spec_classify_resource_path(mt, href),
            "OEBPS/Misc/"@,
        ),
{
    reveal_strlit("text/css");
    reveal_strlit("image/");
    reveal_strlit("font/ttf");
    reveal_strlit("font/otf");
    reveal_strlit("font/woff");
    reveal_strlit("font/woff2");
    reveal_strlit("application/font-ttf");
    reveal_strlit("application/font-woff");
    reveal_strlit("application/font-woff2");
    reveal_strlit("OEBPS/Styles/");
    reveal_strlit("OEBPS/Images/");
    reveal_strlit("OEBPS/Fonts/");
    reveal_strlit("OEBPS/Misc/");
    reveal_strlit("Styles");
    reveal_strlit("Images");
    reveal_strlit("Fonts");
    reveal_strlit("Misc");
    assert(oebps() + "Styles"@ + seq!['/'] =~= "OEBPS/Styles/"@);
    assert(oebps() + "Images"@ + seq!['/'] =~= "OEBPS/Images/"@);
    assert(oebps() + "Fonts"@ + seq!['/'] =~= "OEBPS/Fonts/"@);
    assert(oebps() + "Misc"@ + seq!['/'] =~= "OEBPS/Misc/"@);
    lemma_standard_path_prefix("Styles"@, href, seq!["Styles"@, "Style"@]);
    lemma_standard_path_prefix("Images"@, href, seq!["Images"@, "Image"@]);
    lemma_standard_path_prefix("Fonts"@, href, seq!["Fonts"@, "Font"@]);
    lemma_standard_path_prefix("Misc"@, href, seq!["Misc"@]);
    if starts_with(mt, "image/"@) {
        assert(mt.subrange(0, 6)[0] == mt[0]);
        assert(mt[0] == 'i');
        assert(mt != "text/css"@);
    }
    if mt == "font/ttf"@ || mt == "font/otf"@ || mt == "font/woff"@ || mt == "font/woff2"@
        || mt == "application/font-ttf"@ || mt == "application/font-woff"@ || mt == "application/font-woff2"@ {
        assert(mt[0] == 'f' || mt[0] == 'a');
        assert(mt.subrange(0, 6)[0] == mt[0]);
        assert(!starts_with(mt, "image/"@));
        assert(mt != "text/css"@);
    }
}

/// The media types of chapters.
pub open spec fn spec_is_chapter_media_type(mt: Seq<char>) -> bool {
    mt == "application/xhtml+xml"@ || mt == "text/html"@ || mt == "application/xml"@
}

/// Whether `media_type` is a chapter media type.
pub fn is_chapter_media_type(media_type: &str) -> (r: bool)
    ensures
        r == spec_is_chapter_media_type(media_type@),
{
    let m = chars_of(media_type);
    chars_eq(m.as_slice(), chars_of("application/xhtml+xml").as_slice()) || chars_eq(
        m.as_slice(),
        chars_of("text/html").as_slice(),
    ) || chars_eq(m.as_slice(), chars_of("application/xml").as_slice())
}

/// The item lists `property` among its properties.
pub open spec fn spec_has_property(item: ManifestItem, property: Seq<char>) -> bool {
    item.properties matches Some(props) && string_views(props@).contains(property)
}

/// Whether the item lists `property` among its properties.
pub fn has_property(item: &ManifestItem, property: &str) -> (r: bool)
    ensures
        r == spec_has_property(*item, property@),
{
    match &item.properties {
        Some(props) => {
            let p = chars_of(property);
            contains_string(props, p.as_slice())
        },
        None => false,
    }
}

/// Whether the item is the navigation document.
pub fn is_navigation_file(item: &ManifestItem) -> (r: bool)
    ensures
        r == spec_has_property(*item, "nav"@),
{
    has_property(item, "nav")
}

/// Files that the standardization writes itself: the navigation document,
/// a cover page (a chapter-type item with the `cover` property) and the NCX.
pub open spec fn spec_is_special_file(item: ManifestItem) -> bool {
    ||| spec_has_property(item, "nav"@)
    ||| (spec_has_property(item, "cover"@) && spec_is_chapter_media_type(item.media_type@))
    ||| item.media_type@ == "application/x-dtbncx+xml"@
}

/// Whether the item is a file the standardization writes itself.
pub fn is_special_file(item: &ManifestItem) -> (r: bool)
    ensures
        r == spec_is_special_file(*item),
{
    let m = chars_of(item.media_type.as_str());
    has_property(item, "nav") || (has_property(item, "cover") && is_chapter_media_type(
        item.media_type.as_str(),
    )) || chars_eq(m.as_slice(), chars_of("application/x-dtbncx+xml").as_slice())
}

// ---------------------------------------------------------------------------
// Media types and ids of files found outside the manifest
// ---------------------------------------------------------------------------

/// `p` without its trailing `/`s.
pub open spec fn without_trailing_slashes(p: Seq<char>) -> Seq<char>
    decreases p.len(),
{
    if p.len() > 0 && p.last() == '/' {
        without_trailing_slashes(p.drop_last())
    } else {
        p
    }
}

/// The extension of a path as `Path::extension` gives it: the part of the
/// file name (the last component) after its last `.`, unless that `.` starts
/// the name or the name is `.` or `..`.
pub open spec fn path_extension(p: Seq<char>) -> Option<Seq<char>> {
    let t = without_trailing_slashes(p);
    let name = match rfind_char(t, '/') {
        Some(i) => t.skip(i + 1),
        None => t,
    };
    if name == "."@ || name == ".."@ {
        None
    } else {
        match rfind_char(name, '.') {
            Some(i) => if i > 0 {
                Some(name.skip(i + 1))
            } else {
                None
            },
            None => None,
        }
    }
}

/// The media type guessed from the lowercase extension of a path.
pub open spec fn spec_infer_media_type(p: Seq<char>) -> Seq<char> {
    let e = lowercase(
        match path_extension(p) {
            Some(x) => x,
            None => seq![],
        },
    );
    if e == "css"@ {
        "text/css"@
    } else if e == "jpg"@ || e == "jpeg"@ {
        "image/jpeg"@
    } else if e == "png"@ {
        "image/png"@
    } else if e == "gif"@ {
        "image/gif"@
    } else if e == "webp"@ {
        "image/webp"@
    } else if e == "svg"@ {
        "image/svg+xml"@
    } else if e == "ttf"@ {
        "font/ttf"@
    } else if e == "otf"@ {
        "font/otf"@
    } else if e == "woff"@ {
        "font/woff"@
    } else if e == "woff2"@ {
        "font/woff2"@
    } else if e == "xhtml"@ || e == "html"@ {
        "application/xhtml+xml"@
    } else if e == "xml"@ {
        "application/xml"@
    } else {
        "application/octet-stream"@
    }
}

/// The extension of a path.
fn path_extension_chars(p: &[char]) -> (r: Option<Vec<char>>)
    ensures
        match r {
            Some(e) => path_extension(p@) == Some(e@),
            None => path_extension(p@) is None,
        },
{
    let mut end = p.len();
    assert(p@.take(end as int) =~= p@);
    while end > 0 && p[end - 1] == '/'
        invariant
            end <= p@.len(),
            without_trailing_slashes(p@) == without_trailing_slashes(p@.take(end as int)),
        decreases end,
    {
        assert(p@.take(end as int).drop_last() =~= p@.take(end - 1));
        end -= 1;
    }
    let t = slice_chars(p, 0, end);
    assert(t@ =~= p@.take(end as int));
    proof {
        lemma_rfind_char_bounds(t@, '/', t@.len() as int);
    }
    let name = match rfind_char_exec(t.as_slice(), '/') {
        Some(i) => slice_chars(t.as_slice(), i + 1, t.len()),
        None => t,
    };
    if chars_eq(name.as_slice(), chars_of(".").as_slice()) || chars_eq(name.as_slice(), chars_of("..").as_slice()) {
        return None;
    }
    proof {
        lemma_rfind_char_bounds(name@, '.', name@.len() as int);
    }
    match rfind_char_exec(name.as_slice(), '.') {
        Some(i) => if i > 0 {
            Some(slice_chars(name.as_slice(), i + 1, name.len()))
        } else {
            None
        },
        None => None,
    }
}

/// Whether `e` holds the literal `lit`.
fn is_lit(e: &[char], lit: &str) -> (r: bool)
    ensures
        r == (e@ == lit@),
{
    chars_eq(e, chars_of(lit).as_slice())
}

/// The media type guessed from the extension of a path.
pub fn infer_media_type(path: &str) -> (r: String)
    ensures
        r@ == spec_infer_media_type(path@),
{
    let pv = chars_of(path);
    let ext = match path_extension_chars(pv.as_slice()) {
        Some(x) => x,
        None => Vec::new(),
    };
    let e = lowercase_chars(ext.as_slice());
    let m = if is_lit(e.as_slice(), "css") {
        "text/css"
    } else if is_lit(e.as_slice(), "jpg") || is_lit(e.as_slice(), "jpeg") {
        "image/jpeg"
    } else if is_lit(e.as_slice(), "png") {
        "image/png"
    } else if is_lit(e.as_slice(), "gif") {
        "image/gif"
    } else if is_lit(e.as_slice(), "webp") {
        "image/webp"
    } else if is_lit(e.as_slice(), "svg") {
        "image/svg+xml"
    } else if is_lit(e.as_slice(), "ttf") {
        "font/ttf"
    } else if is_lit(e.as_slice(), "otf") {
        "font/otf"
    } else if is_lit(e.as_slice(), "woff") {
        "font/woff"
    } else if is_lit(e.as_slice(), "woff2") {
        "font/woff2"
    } else if is_lit(e.as_slice(), "xhtml") || is_lit(e.as_slice(), "html") {
        "application/xhtml+xml"
    } else if is_lit(e.as_slice(), "xml") {
        "application/xml"
    } else {
        "application/octet-stream"
    };
    string_of(chars_of(m).as_slice())
}

/// An id made from `value`: characters outside `[A-Za-z0-9_-]` as `_`,
/// without leading and trailing `_`, `inferred_item` if nothing is left.
pub fn sanitize_resource_id(value: &str) -> (r: String)
    ensures
        r@ == sanitized_id(value@, "inferred_item"@),
{
    let v = chars_of(value);
    let id = sanitize_id_chars(v.as_slice());
    if id.len() == 0 {
        string_of(chars_of("inferred_item").as_slice())
    } else {
        string_of(id.as_slice())
    }
}

/// The file name of a path without its last extension.
pub open spec fn file_stem(p: Seq<char>) -> Seq<char> {
    let f = spec_filename(p);
    match rfind_char(f, '.') {
        Some(i) => f.take(i),
        None => f,
    }
}

/// The base id of a file found outside the manifest: `inferred_` and its stem, sanitized.
pub open spec fn inferred_id_base(p: Seq<char>) -> Seq<char> {
    sanitized_id("inferred_"@ + file_stem(p), "inferred_item"@)
}

/// An id for a file found outside the manifest: the base id, then with
/// `_1`, `_2`, ... appended, the first not among `used_ids`; it is recorded
/// as used.
pub fn make_unique_inferred_id(path: &str, used_ids: &mut Vec<String>) -> (r: String)
    ensures
        string_views(final(used_ids)@) == string_views(old(used_ids)@).push(r@),
        exists|j: nat|
            r@ == id_candidate(inferred_id_base(path@), j) && (forall|i: nat|
                i < j ==> string_views(old(used_ids)@).contains(
                    #[trigger] id_candidate(inferred_id_base(path@), i),
                )) && (!string_views(old(used_ids)@).contains(r@) || j + 1 == usize::MAX),
{
    let pv = chars_of(path);
    let f = filename_chars(pv.as_slice());
    proof {
        lemma_rfind_char_bounds(f@, '.', f@.len() as int);
    }
    let stem = match rfind_char_exec(f.as_slice(), '.') {
        Some(i) => slice_chars(f.as_slice(), 0, i),
        None => f,
    };
    let mut raw = chars_of("inferred_");
    extend_chars(&mut raw, stem.as_slice());
    let s = sanitize_resource_id(string_of(raw.as_slice()).as_str());
    let base = chars_of(s.as_str());
    let ghost b = base@;
    assert(b == inferred_id_base(path@)) by {
        assert(stem@ == file_stem(path@));
    }
    let mut candidate = chars_of(s.as_str());
    let mut suffix: usize = 1;
    loop
        invariant
            1 <= suffix,
            base@ == b,
            s@ == b,
            b == inferred_id_base(path@),
            candidate@ == id_candidate(b, (suffix - 1) as nat),
            used_ids@ == old(used_ids)@,
            forall|i: nat|
                i < suffix - 1 ==> string_views(used_ids@).contains(#[trigger] id_candidate(b, i)),
        decreases usize::MAX - suffix,
    {
        if !contains_string(used_ids, candidate.as_slice()) || suffix == usize::MAX {
            let r = string_of(candidate.as_slice());
            used_ids.push(string_of(candidate.as_slice()));
            assert(string_views(used_ids@) =~= string_views(old(used_ids)@).push(r@));
            assert(r@ == id_candidate(b, (suffix - 1) as nat));
            return r;
        }
        assert(string_views(used_ids@).contains(id_candidate(b, (suffix - 1) as nat)));
        let mut next = chars_of(s.as_str());
        next.push('_');
        let d = decimal_chars(suffix as u128);
        extend_chars(&mut next, d.as_slice());
        assert(next@ =~= id_candidate(b, suffix as nat));
        candidate = next;
        suffix += 1;
    }
}


// ---------------------------------------------------------------------------
// Sorting resources by original path
// ---------------------------------------------------------------------------

/// The mathematical value of a resource.
pub ghost struct ResourceView {
    pub id: Seq<char>,
    pub original_path: Seq<char>,
    pub standard_path: Seq<char>,
    pub media_type: Seq<char>,
}

/// The view of a resource.
pub open spec fn resource_view(r: ResourceFile) -> ResourceView {
    ResourceView {
        id: r.id@,
        original_path: r.original_path@,
        standard_path: r.standard_path@,
        media_type: r.media_type@,
    }
}

/// The views of resources.
pub open spec fn resource_views(rs: Seq<ResourceFile>) -> Seq<ResourceView> {
    rs.map_values(|r: ResourceFile| resource_view(r))
}

/// `a` comes before or equals `b` character by character, as `String`s
/// compare (the UTF-8 byte order is the order of the characters).
pub open spec fn seq_le(a: Seq<char>, b: Seq<char>) -> bool
    decreases a.len(),
{
    if a.len() == 0 {
        true
    } else if b.len() == 0 {
        false
    } else if a[0] != b[0] {
        a[0] < b[0]
    } else {
        seq_le(a.drop_first(), b.drop_first())
    }
}

/// `x` inserted into `s` after every element whose path is not greater.
pub open spec fn insert_sorted(s: Seq<ResourceView>, x: ResourceView) -> Seq<ResourceView>
    decreases s.len(),
{
    if s.len() == 0 || seq_le(s.last().original_path, x.original_path) {
        s.push(x)
    } else {
        insert_sorted(s.drop_last(), x).push(s.last())
    }
}

/// `s` ordered by original path, equal paths in their order in `s`.
pub open spec fn stable_sort(s: Seq<ResourceView>) -> Seq<ResourceView>
    decreases s.len(),
{
    if s.len() == 0 {
        seq![]
    } else {
        insert_sorted(stable_sort(s.drop_last()), s.last())
    }
}

/// Whether `a` comes before or equals `b`.
pub(crate) fn seq_le_exec(a: &[char], b: &[char]) -> (r: bool)
    ensures
        r == seq_le(a@, b@),
{
    let mut i: usize = 0;
    assert(a@.skip(0) =~= a@);
    assert(b@.skip(0) =~= b@);
    while i < a.len() && i < b.len() && a[i] == b[i]
        invariant
            i <= a@.len(),
            i <= b@.len(),
            seq_le(a@, b@) == seq_le(a@.skip(i as int), b@.skip(i as int)),
        decreases a@.len() - i,
    {
        assert(a@.skip(i as int).drop_first() =~= a@.skip(i + 1));
        assert(b@.skip(i as int).drop_first() =~= b@.skip(i + 1));
        i += 1;
    }
    if i == a.len() {
        true
    } else if i == b.len() {
        false
    } else {
        a[i] < b[i]
    }
}

/// Inserting at the scan position is the recursive insertion.
proof fn lemma_insert_sorted_at(s: Seq<ResourceView>, x: ResourceView, p: int)
    requires
        0 <= p <= s.len(),
        p == 0 || seq_le(s[p - 1].original_path, x.original_path),
        forall|k: int| p <= k < s.len() ==> !seq_le(#[trigger] s[k].original_path, x.original_path),
    ensures
        insert_sorted(s, x) == s.insert(p, x),
    decreases s.len(),
{
    if s.len() == 0 || seq_le(s.last().original_path, x.original_path) {
        assert(p == s.len());
        assert(s.push(x) =~= s.insert(p, x));
    } else {
        lemma_insert_sorted_at(s.drop_last(), x, p);
        assert(s.drop_last().insert(p, x).push(s.last()) =~= s.insert(p, x));
    }
}

/// The resources ordered by original path, equal paths keeping their order.
pub fn sort_resource_files(v: Vec<ResourceFile>) -> (r: Vec<ResourceFile>)
    ensures
        resource_views(r@) == stable_sort(resource_views(v@)),
{
    let ghost all = resource_views(v@);
    let mut rest = v;
    let mut out: Vec<ResourceFile> = Vec::new();
    let ghost mut i: int = 0;
    while rest.len() > 0
        invariant
            0 <= i <= all.len(),
            resource_views(rest@) == all.skip(i),
            resource_views(out@) == stable_sort(all.take(i)),
        decreases rest@.len(),
    {
        let ghost rb = rest@;
        let x = rest.remove(0);
        proof {
            assert(resource_views(rb).len() == rb.len());
            assert(all.skip(i).len() == rb.len());
            assert(i < all.len());
            assert(resource_views(rb)[0] == resource_view(x));
            assert(all.skip(i)[0] == resource_view(x));
            assert(rest@ =~= rb.skip(1));
            assert forall|k: int| 0 <= k < rest@.len() implies #[trigger] resource_views(rest@)[k] == all.skip(i + 1)[k] by {
                assert(rest@[k] == rb[k + 1]);
                assert(resource_views(rb)[k + 1] == all.skip(i)[k + 1]);
            }
            assert(resource_views(rest@) =~= all.skip(i + 1));
            assert(all.take(i + 1).drop_last() =~= all.take(i));
            assert(all.take(i + 1).last() == resource_view(x));
        }
        let key = chars_of(x.original_path.as_str());
        let mut p = out.len();
        while p > 0 && !seq_le_exec(chars_of(out[p - 1].original_path.as_str()).as_slice(), key.as_slice())
            invariant
                p <= out@.len(),
                forall|k: int| p <= k < out@.len() ==> !seq_le(#[trigger] out@[k].original_path@, key@),
            decreases p,
        {
            p -= 1;
        }
        proof {
            let sv = resource_views(out@);
            assert forall|k: int| p <= k < sv.len() implies !seq_le(#[trigger] sv[k].original_path, resource_view(x).original_path) by {
                assert(sv[k].original_path == out@[k].original_path@);
            }
            lemma_insert_sorted_at(sv, resource_view(x), p as int);
        }
        let ghost before = out@;
        out.insert(p, x);
        proof {
            assert(resource_views(out@) =~= resource_views(before).insert(p as int, resource_view(x)));
            i = i + 1;
        }
    }
    proof {
        assert(all.take(i) =~= all);
    }
    out
}


/// `seq_le` orders any two sequences one way or the other.
pub proof fn lemma_seq_le_total(a: Seq<char>, b: Seq<char>)
    ensures
        seq_le(a, b) || seq_le(b, a),
    decreases a.len(),
{
    if a.len() > 0 && b.len() > 0 && a[0] == b[0] {
        lemma_seq_le_total(a.drop_first(), b.drop_first());
    }
}

/// `seq_le` is transitive.
pub proof fn lemma_seq_le_trans(a: Seq<char>, b: Seq<char>, c: Seq<char>)
    requires
        seq_le(a, b),
        seq_le(b, c),
    ensures
        seq_le(a, c),
    decreases a.len(),
{
    if a.len() > 0 && b.len() > 0 && c.len() > 0 && a[0] == b[0] && b[0] == c[0] {
        lemma_seq_le_trans(a.drop_first(), b.drop_first(), c.drop_first());
    }
}

/// Resources ordered by original path.
pub open spec fn sorted_by_path(s: Seq<ResourceView>) -> bool {
    forall|i: int, j: int| 0 <= i < j < s.len() ==> seq_le(#[trigger] s[i].original_path, #[trigger] s[j].original_path)
}

/// Inserting into an ordered list keeps it ordered and adds exactly `x`.
proof fn lemma_insert_sorted(s: Seq<ResourceView>, x: ResourceView)
    requires
        sorted_by_path(s),
    ensures
        sorted_by_path(insert_sorted(s, x)),
        insert_sorted(s, x).to_multiset() == s.to_multiset().insert(x),
        insert_sorted(s, x).len() == s.len() + 1,
        forall|k: int| 0 <= k < insert_sorted(s, x).len() ==> (#[trigger] insert_sorted(s, x)[k] == x || s.contains(insert_sorted(s, x)[k])),
    decreases s.len(),
{
    broadcast use vstd::seq_lib::group_to_multiset_ensures;
    if s.len() == 0 || seq_le(s.last().original_path, x.original_path) {
        let r = s.push(x);
        assert forall|i: int, j: int| 0 <= i < j < r.len() implies seq_le(#[trigger] r[i].original_path, #[trigger] r[j].original_path) by {
            if j == s.len() && i < s.len() - 1 {
                lemma_seq_le_trans(s[i].original_path, s.last().original_path, x.original_path);
            }
        }
        assert forall|k: int| 0 <= k < r.len() implies (#[trigger] r[k] == x || s.contains(r[k])) by {
            if k < s.len() {
                assert(s[k] == r[k]);
            }
        }
    } else {
        let t = s.drop_last();
        lemma_insert_sorted(t, x);
        let m = insert_sorted(t, x);
        let r = m.push(s.last());
        lemma_seq_le_total(s.last().original_path, x.original_path);
        assert forall|i: int, j: int| 0 <= i < j < r.len() implies seq_le(#[trigger] r[i].original_path, #[trigger] r[j].original_path) by {
            if j == m.len() {
                assert(r[i] == m[i]);
                if m[i] != x {
                    let q = choose|q: int| 0 <= q < t.len() && t[q] == m[i];
                    assert(s[q] == t[q]);
                }
            } else {
                assert(r[i] == m[i] && r[j] == m[j]);
            }
        }
        assert forall|k: int| 0 <= k < r.len() implies (#[trigger] r[k] == x || s.contains(r[k])) by {
            if k < m.len() {
                assert(r[k] == m[k]);
                if m[k] != x {
                    let q = choose|q: int| 0 <= q < t.len() && t[q] == m[k];
                    assert(s[q] == t[q]);
                }
            } else {
                assert(s[s.len() - 1] == r[k]);
            }
        }
        assert(s =~= t.push(s.last()));
    }
}

/// Sorting resources by original path gives an ordered list with the same
/// resources, each as often as before.
pub proof fn law_stable_sort_orders(s: Seq<ResourceView>)
    ensures
        sorted_by_path(stable_sort(s)),
        stable_sort(s).to_multiset() == s.to_multiset(),
    decreases s.len(),
{
    broadcast use vstd::seq_lib::group_to_multiset_ensures;
    if s.len() > 0 {
        law_stable_sort_orders(s.drop_last());
        lemma_insert_sorted(stable_sort(s.drop_last()), s.last());
        assert(s =~= s.drop_last().push(s.last()));
    }
}

} // verus!

verus! {

// ---------------------------------------------------------------------------
// Titles from the table of contents
// ---------------------------------------------------------------------------

/// Each navigation point followed by its descendants, in document order.
pub open spec fn np_flat(ns: Seq<NavPoint>) -> Seq<NavPoint>
    decreases ns, 1nat,
{
    if ns.len() == 0 {
        seq![]
    } else {
        np_flat(ns.drop_last()) + np_flat_entry(ns.last())
    }
}

/// A navigation point followed by its descendants, in document order.
pub open spec fn np_flat_entry(n: NavPoint) -> Seq<NavPoint>
    decreases n, 0nat,
{
    seq![n] + np_flat(n.children@)
}

/// The keys of key/value pairs.
pub open spec fn pair_keys(ps: Seq<(Seq<char>, Seq<char>)>) -> Seq<Seq<char>> {
    ps.map_values(|p: (Seq<char>, Seq<char>)| p.0)
}

/// The titles of the navigation points: for each normalized reference that
/// is not empty, the label of the first point with it, in document order.
pub open spec fn title_pairs(flat: Seq<NavPoint>) -> Seq<(Seq<char>, Seq<char>)>
    decreases flat.len(),
{
    if flat.len() == 0 {
        seq![]
    } else {
        let prev = title_pairs(flat.drop_last());
        let key = spec_normalize(flat.last().content_src@);
        if key.len() > 0 && !pair_keys(prev).contains(key) {
            prev.push((key, flat.last().label@))
        } else {
            prev
        }
    }
}

/// The value of the first pair with key `k`.
pub open spec fn pair_lookup(ps: Seq<(Seq<char>, Seq<char>)>, k: Seq<char>, i: int) -> Option<Seq<char>>
    decreases ps.len() - i,
{
    if i < 0 || i >= ps.len() {
        None
    } else if ps[i].0 == k {
        Some(ps[i].1)
    } else {
        pair_lookup(ps, k, i + 1)
    }
}

/// Chapter titles by normalized href.
pub struct TocTitles {
    pub entries: Vec<(String, String)>,
}

/// The views of string pairs.
pub open spec fn pair_views(ps: Seq<(String, String)>) -> Seq<(Seq<char>, Seq<char>)> {
    ps.map_values(|p: (String, String)| (p.0@, p.1@))
}

impl TocTitles {
    /// The title for a normalized href.
    pub fn get(&self, key: &str) -> (r: Option<&String>)
        ensures
            match r {
                Some(v) => pair_lookup(pair_views(self.entries@), key@, 0) == Some(v@),
                None => pair_lookup(pair_views(self.entries@), key@, 0) is None,
            },
    {
        let k = chars_of(key);
        let mut i: usize = 0;
        while i < self.entries.len()
            invariant
                i <= self.entries@.len(),
                k@ == key@,
                pair_lookup(pair_views(self.entries@), key@, 0) == pair_lookup(pair_views(self.entries@), key@, i as int),
            decreases self.entries@.len() - i,
        {
            let e = chars_of(self.entries[i].0.as_str());
            if chars_eq(e.as_slice(), k.as_slice()) {
                return Some(&self.entries[i].1);
            }
            i += 1;
        }
        None
    }
}

/// Appends the references and labels of the points and their descendants,
/// in document order.
fn flatten_nav_points(ns: &[NavPoint], srcs: &mut Vec<String>, labels: &mut Vec<String>)
    requires
        old(srcs)@.len() == old(labels)@.len(),
    ensures
        final(srcs)@.len() == final(labels)@.len(),
        string_views(final(srcs)@) == string_views(old(srcs)@) + np_flat(ns@).map_values(|n: NavPoint| n.content_src@),
        string_views(final(labels)@) == string_views(old(labels)@) + np_flat(ns@).map_values(|n: NavPoint| n.label@),
    decreases ns@, 1nat,
{
    let ghost s0 = string_views(srcs@);
    let ghost l0 = string_views(labels@);
    let n = ns.len();
    let mut i: usize = 0;
    proof {
        assert(np_flat(ns@.take(0)) =~= Seq::<NavPoint>::empty());
    }
    while i < n
        invariant
            n == ns@.len(),
            i <= n,
            srcs@.len() == labels@.len(),
            string_views(srcs@) == s0 + np_flat(ns@.take(i as int)).map_values(|n: NavPoint| n.content_src@),
            string_views(labels@) == l0 + np_flat(ns@.take(i as int)).map_values(|n: NavPoint| n.label@),
        decreases n - i,
    {
        let ghost sb = string_views(srcs@);
        let ghost lb = string_views(labels@);
        srcs.push(ns[i].content_src.clone());
        labels.push(ns[i].label.clone());
        proof {
            assert(string_views(srcs@) =~= sb.push(ns@[i as int].content_src@));
            assert(string_views(labels@) =~= lb.push(ns@[i as int].label@));
        }
        flatten_nav_points(ns[i].children.as_slice(), srcs, labels);
        proof {
            let t = ns@.take(i + 1);
            assert(t.drop_last() =~= ns@.take(i as int));
            let prev = np_flat(ns@.take(i as int));
            let e = np_flat_entry(ns@[i as int]);
            assert(np_flat(t) == prev + e);
            assert((prev + e).map_values(|n: NavPoint| n.content_src@) =~= prev.map_values(|n: NavPoint| n.content_src@)
                + seq![ns@[i as int].content_src@] + np_flat(ns@[i as int].children@).map_values(|n: NavPoint| n.content_src@));
            assert((prev + e).map_values(|n: NavPoint| n.label@) =~= prev.map_values(|n: NavPoint| n.label@)
                + seq![ns@[i as int].label@] + np_flat(ns@[i as int].children@).map_values(|n: NavPoint| n.label@));
        }
        i += 1;
    }
    proof {
        assert(ns@.take(n as int) =~= ns@);
    }
}

/// The navigation points of a package in document order.
pub open spec fn toc_flat(parsed: ParsedEpub) -> Seq<NavPoint> {
    match parsed.table_of_contents {
        Some(toc) => np_flat(toc.nav_points@),
        None => seq![],
    }
}

/// The chapter titles the table of contents gives: for each normalized
/// reference, the label of its first navigation point in document order.
pub fn collect_toc_titles(parsed: &ParsedEpub) -> (r: TocTitles)
    ensures
        pair_views(r.entries@) == title_pairs(toc_flat(*parsed)),
{
    let mut srcs: Vec<String> = Vec::new();
    let mut labels: Vec<String> = Vec::new();
    match &parsed.table_of_contents {
        Some(toc) => flatten_nav_points(toc.nav_points.as_slice(), &mut srcs, &mut labels),
        None => {},
    }
    let ghost flat = toc_flat(*parsed);
    proof {
        assert(string_views(srcs@) =~= flat.map_values(|n: NavPoint| n.content_src@));
        assert(string_views(labels@) =~= flat.map_values(|n: NavPoint| n.label@));
    }
    let mut entries: Vec<(String, String)> = Vec::new();
    let mut keys: Vec<String> = Vec::new();
    let mut i: usize = 0;
    while i < srcs.len()
        invariant
            i <= srcs@.len(),
            srcs@.len() == labels@.len(),
            flat.len() == srcs@.len(),
            string_views(srcs@) == flat.map_values(|n: NavPoint| n.content_src@),
            string_views(labels@) == flat.map_values(|n: NavPoint| n.label@),
            pair_views(entries@) == title_pairs(flat.take(i as int)),
            string_views(keys@) == pair_keys(pair_views(entries@)),
        decreases srcs@.len() - i,
    {
        proof {
            let t = flat.take(i + 1);
            assert(t.drop_last() =~= flat.take(i as int));
            assert(t.last() == flat[i as int]);
            assert(string_views(srcs@)[i as int] == flat[i as int].content_src@);
            assert(string_views(labels@)[i as int] == flat[i as int].label@);
        }
        let sv = chars_of(srcs[i].as_str());
        let key = normalize_chars(sv.as_slice());
        if key.len() > 0 && !contains_string(&keys, key.as_slice()) {
            let ghost eb = pair_views(entries@);
            let ghost kb = keys@;
            entries.push((string_of(key.as_slice()), labels[i].clone()));
            keys.push(string_of(key.as_slice()));
            proof {
                assert(pair_views(entries@) =~= eb.push((key@, flat[i as int].label@)));
                assert(string_views(keys@) =~= string_views(kb).push(key@));
                assert(pair_keys(pair_views(entries@)) =~= pair_keys(eb).push(key@));
            }
        }
        i += 1;
    }
    proof {
        assert(flat.take(srcs@.len() as int) =~= flat);
    }
    TocTitles { entries }
}


// ---------------------------------------------------------------------------
// Chapters
// ---------------------------------------------------------------------------

/// The mathematical value of a chapter with its paths.
#[verifier::ext_equal]
pub ghost struct ChapterInfoView {
    pub id: Seq<char>,
    pub original_path: Seq<char>,
    pub standard_path: Seq<char>,
    pub title: Option<Seq<char>>,
    pub order: nat,
    pub media_type: Seq<char>,
}

/// The view of a chapter.
pub open spec fn chapter_info_view(c: ExtendedChapterInfo) -> ChapterInfoView {
    ChapterInfoView {
        id: c.id@,
        original_path: c.original_path@,
        standard_path: c.standard_path@,
        title: opt_seq(c.title),
        order: c.order as nat,
        media_type: c.media_type@,
    }
}

/// The views of chapters.
pub open spec fn chapter_info_views(cs: Seq<ExtendedChapterInfo>) -> Seq<ChapterInfoView> {
    cs.map_values(|c: ExtendedChapterInfo| chapter_info_view(c))
}

/// The last manifest item below `end` with id `id` (the one a lookup by id finds).
pub open spec fn item_with_id(items: Seq<ManifestItem>, id: Seq<char>, end: int) -> Option<int>
    decreases end,
{
    if end <= 0 || end > items.len() {
        None
    } else if items[end - 1].id@ == id {
        Some(end - 1)
    } else {
        item_with_id(items, id, end - 1)
    }
}

/// The chapters of the first `n` spine entries: each entry names a
/// manifest item (else the scan fails); chapter-type items that are not the
/// navigation document and not yet taken become chapters under `Text`,
/// titled from the table of contents, numbered by their spine position.
pub open spec fn chapter_scan(
    items: Seq<ManifestItem>,
    refs: Seq<SpineItemref>,
    titles: Seq<(Seq<char>, Seq<char>)>,
    n: nat,
) -> Result<Seq<ChapterInfoView>, Seq<char>>
    decreases n,
{
    if n == 0 || n > refs.len() {
        Ok(seq![])
    } else {
        match chapter_scan(items, refs, titles, (n - 1) as nat) {
            Err(e) => Err(e),
            Ok(prev) => {
                let r = refs[n - 1];
                match item_with_id(items, r.idref@, items.len() as int) {
                    None => Err("Spine 引用的项目 "@ + r.idref@ + " 在 manifest 中不存在"@),
                    Some(k) => {
                        let it = items[k];
                        if !spec_is_chapter_media_type(it.media_type@) || spec_has_property(it, "nav"@)
                            || prev.map_values(|c: ChapterInfoView| c.id).contains(it.id@) {
                            Ok(prev)
                        } else {
                            Ok(prev.push(ChapterInfoView {
                                id: it.id@,
                                original_path: it.href@,
                                standard_path: spec_standard_path("Text"@, it.href@, seq!["Text"@]),
                                title: pair_lookup(titles, spec_normalize(it.href@), 0),
                                order: (n - 1) as nat,
                                media_type: it.media_type@,
                            }))
                        }
                    },
                }
            },
        }
    }
}

/// The chapters of a package in reading order, or why there are none.
pub open spec fn spec_identify_chapters(parsed: ParsedEpub) -> Result<Seq<ChapterInfoView>, Seq<char>> {
    let refs = parsed.spine.itemrefs@;
    match chapter_scan(parsed.manifest.items@, refs, title_pairs(toc_flat(parsed)), refs.len()) {
        Err(e) => Err(e),
        Ok(cs) => if cs.len() == 0 {
            Err("未找到任何章节文件"@)
        } else {
            Ok(cs)
        },
    }
}

/// Where the id lookup can land.
proof fn lemma_item_with_id_bounds(items: Seq<ManifestItem>, id: Seq<char>, end: int)
    ensures
        item_with_id(items, id, end) matches Some(k) ==> 0 <= k < end <= items.len() && items[k].id@ == id,
    decreases end,
{
    if !(end <= 0 || end > items.len()) && items[end - 1].id@ != id {
        lemma_item_with_id_bounds(items, id, end - 1);
    }
}

/// The manifest item a lookup by id finds.
pub fn find_manifest_item(items: &Vec<ManifestItem>, id: &str) -> (r: Option<usize>)
    ensures
        match r {
            Some(k) => item_with_id(items@, id@, items@.len() as int) == Some(k as int) && k < items@.len(),
            None => item_with_id(items@, id@, items@.len() as int) is None,
        },
{
    let want = chars_of(id);
    let mut end = items.len();
    while end > 0
        invariant
            end <= items@.len(),
            want@ == id@,
            item_with_id(items@, id@, items@.len() as int) == item_with_id(items@, id@, end as int),
        decreases end,
    {
        let iv = chars_of(items[end - 1].id.as_str());
        if chars_eq(iv.as_slice(), want.as_slice()) {
            return Some(end - 1);
        }
        end -= 1;
    }
    None
}

/// The chapters of a package in reading order: the spine entries whose
/// manifest items are XHTML/HTML/XML documents other than the navigation
/// document, each once. A spine entry naming no manifest item, or no
/// chapter at all, is an invalid structure.
pub fn identify_chapters(parsed: &ParsedEpub) -> (r: Result<Vec<ExtendedChapterInfo>, RefactorError>)
    ensures
        match spec_identify_chapters(*parsed) {
            Ok(cs) => r matches Ok(v) && chapter_info_views(v@) == cs,
            Err(m) => r matches Err(e) && e matches RefactorError::InvalidStructure(s) && s@ == m,
        },
{
    let titles = collect_toc_titles(parsed);
    let ghost tp = title_pairs(toc_flat(*parsed));
    let ghost items = parsed.manifest.items@;
    let ghost refs = parsed.spine.itemrefs@;
    let mut chapters: Vec<ExtendedChapterInfo> = Vec::new();
    let mut seen: Vec<String> = Vec::new();
    let n = parsed.spine.itemrefs.len();
    let mut order: usize = 0;
    assert(chapter_info_views(chapters@) =~= Seq::<ChapterInfoView>::empty());
    assert(string_views(seen@) =~= Seq::<Seq<char>>::empty());
    while order < n
        invariant
            n == refs.len(),
            items == parsed.manifest.items@,
            refs == parsed.spine.itemrefs@,
            tp == title_pairs(toc_flat(*parsed)),
            pair_views(titles.entries@) == tp,
            order <= n,
            chapter_scan(items, refs, tp, order as nat) == Ok::<Seq<ChapterInfoView>, Seq<char>>(chapter_info_views(chapters@)),
            string_views(seen@) == chapter_info_views(chapters@).map_values(|c: ChapterInfoView| c.id),
        decreases n - order,
    {
        let itemref = &parsed.spine.itemrefs[order];
        let k = match find_manifest_item(&parsed.manifest.items, itemref.idref.as_str()) {
            Some(k) => k,
            None => {
                let mut m = chars_of("Spine 引用的项目 ");
                extend_str(&mut m, itemref.idref.as_str());
                extend_str(&mut m, " 在 manifest 中不存在");
                proof {
                    assert(chapter_scan(items, refs, tp, (order + 1) as nat) == Err::<Seq<ChapterInfoView>, Seq<char>>(m@));
                    lemma_chapter_scan_err_sticks(items, refs, tp, (order + 1) as nat, n as nat);
                }
                return Err(RefactorError::InvalidStructure(string_of(m.as_slice())));
            },
        };
        let item = &parsed.manifest.items[k];
        let ghost prev = chapter_info_views(chapters@);
        if is_chapter_media_type(item.media_type.as_str()) && !is_navigation_file(item)
            && !contains_string(&seen, chars_of(item.id.as_str()).as_slice()) {
            let std_path = {
                let ps: [&str; 1] = ["Text"];
                let r = standard_path("Text", item.href.as_str(), &ps);
                assert(str_views(ps@) =~= seq!["Text"@]);
                r
            };
            let nh = normalize_chars(chars_of(item.href.as_str()).as_slice());
            let title = match titles.get(string_of(nh.as_slice()).as_str()) {
                Some(t) => Some(t.clone()),
                None => None,
            };
            let c = ExtendedChapterInfo {
                id: item.id.clone(),
                original_path: item.href.clone(),
                standard_path: std_path,
                title,
                order,
                media_type: item.media_type.clone(),
            };
            let ghost cb = chapters@;
            let ghost sb = seen@;
            chapters.push(c);
            seen.push(item.id.clone());
            proof {
                assert(chapter_info_views(chapters@) =~= chapter_info_views(cb).push(chapter_info_view(c)));
                assert(string_views(seen@) =~= string_views(sb).push(item.id@));
                assert(chapter_info_views(chapters@).map_values(|c: ChapterInfoView| c.id) =~= prev.map_values(|c: ChapterInfoView| c.id).push(item.id@));
            }
        }
        order += 1;
    }
    if chapters.len() == 0 {
        return Err(RefactorError::InvalidStructure(string_of(chars_of("未找到任何章节文件").as_slice())));
    }
    Ok(chapters)
}

/// Once the scan fails it stays failed.
proof fn lemma_chapter_scan_err_sticks(
    items: Seq<ManifestItem>,
    refs: Seq<SpineItemref>,
    titles: Seq<(Seq<char>, Seq<char>)>,
    n: nat,
    m: nat,
)
    requires
        n <= m <= refs.len(),
        chapter_scan(items, refs, titles, n) is Err,
    ensures
        chapter_scan(items, refs, titles, m) == chapter_scan(items, refs, titles, n),
    decreases m - n,
{
    if m > n {
        lemma_chapter_scan_err_sticks(items, refs, titles, n, (m - 1) as nat);
    }
}


// ---------------------------------------------------------------------------
// Resources
// ---------------------------------------------------------------------------

/// The resource of a manifest item.
pub open spec fn resource_of(it: ManifestItem) -> ResourceView {
    ResourceView {
        id: it.id@,
        original_path: it.href@,
        standard_path: spec_classify_resource_path(it.media_type@, it.href@),
        media_type: it.media_type@,
    }
}

/// The resources of kind `kind` among the manifest items that are neither
/// chapters (by id) nor special files, in manifest order.
pub open spec fn resources_of_kind(items: Seq<ManifestItem>, chapter_ids: Seq<Seq<char>>, kind: ResourceType) -> Seq<ResourceView>
    decreases items.len(),
{
    if items.len() == 0 {
        seq![]
    } else {
        let prev = resources_of_kind(items.drop_last(), chapter_ids, kind);
        let it = items.last();
        if !chapter_ids.contains(it.id@) && !spec_is_special_file(it) && spec_classify_resource_type(
            it.media_type@,
        ) == kind {
            prev.push(resource_of(it))
        } else {
            prev
        }
    }
}

/// The resources of a package by kind, each kind ordered by original path.
/// `c` holds the manifest items that are not chapters (`ids`), by kind,
/// each kind ordered by original path.
pub open spec fn categorized(items: Seq<ManifestItem>, ids: Seq<Seq<char>>, c: ResourceCollection) -> bool {
    &&& resource_views(c.styles@) == stable_sort(resources_of_kind(items, ids, ResourceType::Style))
    &&& resource_views(c.images@) == stable_sort(resources_of_kind(items, ids, ResourceType::Image))
    &&& resource_views(c.fonts@) == stable_sort(resources_of_kind(items, ids, ResourceType::Font))
    &&& resource_views(c.misc@) == stable_sort(resources_of_kind(items, ids, ResourceType::Misc))
}

pub fn categorize_resources(parsed: &ParsedEpub, chapters: &[ExtendedChapterInfo]) -> (r: Result<ResourceCollection, RefactorError>)
    ensures
        r matches Ok(c) && categorized(parsed.manifest.items@, chapter_info_views(chapters@).map_values(|c: ChapterInfoView| c.id), c),
{
    let ghost ids = chapter_info_views(chapters@).map_values(|c: ChapterInfoView| c.id);
    let ghost items = parsed.manifest.items@;
    let mut chapter_ids: Vec<String> = Vec::new();
    let mut c: usize = 0;
    while c < chapters.len()
        invariant
            c <= chapters@.len(),
            ids == chapter_info_views(chapters@).map_values(|c: ChapterInfoView| c.id),
            string_views(chapter_ids@) == ids.take(c as int),
        decreases chapters@.len() - c,
    {
        let ghost before = chapter_ids@;
        chapter_ids.push(chapters[c].id.clone());
        assert(ids.len() == chapters@.len());
        assert(ids[c as int] == chapter_info_views(chapters@)[c as int].id);
        assert(ids[c as int] == chapters@[c as int].id@);
        assert(string_views(chapter_ids@) =~= string_views(before).push(chapters@[c as int].id@));
        assert(ids.take(c + 1) =~= ids.take(c as int).push(ids[c as int]));
        assert(string_views(chapter_ids@) =~= ids.take(c + 1));
        c += 1;
    }
    assert(ids.take(chapters@.len() as int) =~= ids);
    let mut styles: Vec<ResourceFile> = Vec::new();
    let mut images: Vec<ResourceFile> = Vec::new();
    let mut fonts: Vec<ResourceFile> = Vec::new();
    let mut misc: Vec<ResourceFile> = Vec::new();
    let n = parsed.manifest.items.len();
    let mut i: usize = 0;
    while i < n
        invariant
            n == items.len(),
            items == parsed.manifest.items@,
            string_views(chapter_ids@) == ids,
            i <= n,
            resource_views(styles@) == resources_of_kind(items.take(i as int), ids, ResourceType::Style),
            resource_views(images@) == resources_of_kind(items.take(i as int), ids, ResourceType::Image),
            resource_views(fonts@) == resources_of_kind(items.take(i as int), ids, ResourceType::Font),
            resource_views(misc@) == resources_of_kind(items.take(i as int), ids, ResourceType::Misc),
        decreases n - i,
    {
        let item = &parsed.manifest.items[i];
        proof {
            let t = items.take(i + 1);
            assert(t.drop_last() =~= items.take(i as int));
            assert(t.last() == items[i as int]);
        }
        if !contains_string(&chapter_ids, chars_of(item.id.as_str()).as_slice()) && !is_special_file(item) {
            let kind = classify_resource_type(item.media_type.as_str());
            let file = ResourceFile {
                id: item.id.clone(),
                original_path: item.href.clone(),
                standard_path: classify_resource_path(item.media_type.as_str(), item.href.as_str()),
                media_type: item.media_type.clone(),
            };
            assert(resource_view(file) == resource_of(*item));
            match kind {
                ResourceType::Style => {
                    let ghost b = styles@;
                    styles.push(file);
                    assert(resource_views(styles@) =~= resource_views(b).push(resource_view(file)));
                },
                ResourceType::Image => {
                    let ghost b = images@;
                    images.push(file);
                    assert(resource_views(images@) =~= resource_views(b).push(resource_view(file)));
                },
                ResourceType::Font => {
                    let ghost b = fonts@;
                    fonts.push(file);
                    assert(resource_views(fonts@) =~= resource_views(b).push(resource_view(file)));
                },
                ResourceType::Misc => {
                    let ghost b = misc@;
                    misc.push(file);
                    assert(resource_views(misc@) =~= resource_views(b).push(resource_view(file)));
                },
            }
        }
        i += 1;
    }
    assert(items.take(n as int) =~= items);
    Ok(ResourceCollection {
        styles: sort_resource_files(styles),
        images: sort_resource_files(images),
        fonts: sort_resource_files(fonts),
        misc: sort_resource_files(misc),
    })
}

// ---------------------------------------------------------------------------
// Special files
// ---------------------------------------------------------------------------

/// The special roles an item can have: `0` the cover (`cover` property),
/// `1` the navigation document (`nav` property), `2` the NCX (by media type).
pub open spec fn has_special_role(it: ManifestItem, role: nat) -> bool {
    if role == 0 {
        spec_has_property(it, "cover"@)
    } else if role == 1 {
        spec_has_property(it, "nav"@)
    } else {
        it.media_type@ == "application/x-dtbncx+xml"@
    }
}

/// The href of the last item below `end` with the special role `role`.
pub open spec fn last_href_with_role(items: Seq<ManifestItem>, role: nat, end: int) -> Option<Seq<char>>
    decreases end,
{
    if end <= 0 || end > items.len() {
        None
    } else if has_special_role(items[end - 1], role) {
        Some(items[end - 1].href@)
    } else {
        last_href_with_role(items, role, end - 1)
    }
}

/// The href of the first item from `i` on whose file name is `nav.xhtml`.
pub open spec fn first_nav_named(items: Seq<ManifestItem>, i: int) -> Option<Seq<char>>
    decreases items.len() - i,
{
    if i < 0 || i >= items.len() {
        None
    } else if spec_filename(items[i].href@) == "nav.xhtml"@ {
        Some(items[i].href@)
    } else {
        first_nav_named(items, i + 1)
    }
}

/// The last item with a special role, searched from the end.
fn last_with_role(items: &Vec<ManifestItem>, role: u8) -> (r: Option<String>)
    requires
        role <= 2,
    ensures
        opt_seq(r) == last_href_with_role(items@, role as nat, items@.len() as int),
{
    let mut end = items.len();
    while end > 0
        invariant
            end <= items@.len(),
            role <= 2,
            last_href_with_role(items@, role as nat, items@.len() as int) == last_href_with_role(items@, role as nat, end as int),
        decreases end,
    {
        let it = &items[end - 1];
        let hit = if role == 0 {
            has_property(it, "cover")
        } else if role == 1 {
            has_property(it, "nav")
        } else {
            chars_eq(chars_of(it.media_type.as_str()).as_slice(), chars_of("application/x-dtbncx+xml").as_slice())
        };
        if hit {
            return Some(it.href.clone());
        }
        end -= 1;
    }
    None
}

/// The first item whose file name is `nav.xhtml`.
fn first_nav_named_exec(items: &Vec<ManifestItem>) -> (r: Option<String>)
    ensures
        opt_seq(r) == first_nav_named(items@, 0),
{
    let mut j: usize = 0;
    while j < items.len()
        invariant
            j <= items@.len(),
            first_nav_named(items@, 0) == first_nav_named(items@, j as int),
        decreases items@.len() - j,
    {
        let f = filename_chars(chars_of(items[j].href.as_str()).as_slice());
        if chars_eq(f.as_slice(), chars_of("nav.xhtml").as_slice()) {
            return Some(items[j].href.clone());
        }
        j += 1;
    }
    None
}

/// The cover, navigation document and NCX of a package: the last items with
/// the `cover` property, the `nav` property and the NCX media type; without
/// a `nav` item, the first item whose file name is `nav.xhtml`.
pub fn identify_special_files(parsed: &ParsedEpub) -> (r: Result<SpecialFiles, RefactorError>)
    ensures
        r matches Ok(sf) && {
            let items = parsed.manifest.items@;
            let n = items.len() as int;
            let nav = last_href_with_role(items, 1, n);
            &&& opt_seq(sf.cover) == last_href_with_role(items, 0, n)
            &&& opt_seq(sf.nav) == if nav is Some { nav } else { first_nav_named(items, 0) }
            &&& opt_seq(sf.ncx) == last_href_with_role(items, 2, n)
        },
{
    let cover = last_with_role(&parsed.manifest.items, 0);
    let nav = match last_with_role(&parsed.manifest.items, 1) {
        Some(h) => Some(h),
        None => first_nav_named_exec(&parsed.manifest.items),
    };
    let ncx = last_with_role(&parsed.manifest.items, 2);
    Ok(SpecialFiles { cover, nav, ncx })
}


// ---------------------------------------------------------------------------
// Unique standard paths
// ---------------------------------------------------------------------------

/// `new_path` is what `allocate_unique_path` gives for `old_path` when the
/// case-folded paths `used` are taken: the normalized path with the first
/// suffix whose case-folded form is free (or the last one tried, if the
/// suffixes ran out).
pub open spec fn allocated(old_path: Seq<char>, new_path: Seq<char>, used: Seq<Seq<char>>) -> bool {
    exists|j: nat|
        new_path == unique_candidate(spec_normalize(old_path), j) && (forall|i: nat|
            i < j ==> used.contains(#[trigger] spec_casefold(unique_candidate(spec_normalize(old_path), i))))
            && (!used.contains(spec_casefold(new_path)) || j + 1 == usize::MAX)
}

/// The case-folded forms of paths.
pub open spec fn folded_paths(ps: Seq<Seq<char>>) -> Seq<Seq<char>> {
    ps.map_values(|p: Seq<char>| spec_casefold(p))
}

/// Paths made unique one after the other, ignoring case.
pub open spec fn allocated_all(old: Seq<Seq<char>>, new: Seq<Seq<char>>) -> bool {
    &&& new.len() == old.len()
    &&& forall|k: int| 0 <= k < old.len() ==> allocated(#[trigger] old[k], new[k], folded_paths(new.take(k)))
}

/// Paths made unique one after the other are pairwise different ignoring
/// case, as long as no path ran out of candidate suffixes (each differs,
/// ignoring case, from those before it).
pub proof fn law_allocated_paths_distinct(old: Seq<Seq<char>>, new: Seq<Seq<char>>)
    requires
        allocated_all(old, new),
        forall|k: int| 0 <= k < new.len() ==> !#[trigger] folded_paths(new.take(k)).contains(spec_casefold(new[k])),
    ensures
        folded_paths(new).no_duplicates(),
{
    let f = folded_paths(new);
    assert forall|a: int, b: int| 0 <= a < f.len() && 0 <= b < f.len() && a != b implies f[a] != f[b] by {
        let (lo, hi) = if a < b {
            (a, b)
        } else {
            (b, a)
        };
        assert(folded_paths(new.take(hi))[lo] == f[lo]);
        if f[lo] == f[hi] {
            assert(folded_paths(new.take(hi)).contains(spec_casefold(new[hi])));
        }
    }
}

/// Each path made unique against the ones before it, ignoring case.
pub fn allocate_unique_paths(paths: &Vec<String>) -> (r: Vec<String>)
    ensures
        allocated_all(string_views(paths@), string_views(r@)),
{
    let ghost old = string_views(paths@);
    let mut used: Vec<String> = Vec::new();
    let mut out: Vec<String> = Vec::new();
    let mut i: usize = 0;
    while i < paths.len()
        invariant
            i <= paths@.len(),
            old == string_views(paths@),
            out@.len() == i,
            string_views(used@) == folded_paths(string_views(out@)),
            forall|k: int| 0 <= k < i ==> allocated(#[trigger] old[k], string_views(out@)[k], folded_paths(string_views(out@).take(k))),
        decreases paths@.len() - i,
    {
        let ghost ob = string_views(out@);
        let ghost ub = string_views(used@);
        let p = allocate_unique_path(paths[i].as_str(), &mut used);
        out.push(p);
        proof {
            let on = string_views(out@);
            assert(on =~= ob.push(p@));
            assert(on.take(i as int) =~= ob);
            assert(allocated(old[i as int], on[i as int], folded_paths(on.take(i as int))));
            assert forall|k: int| 0 <= k < i + 1 implies allocated(#[trigger] old[k], on[k], folded_paths(on.take(k))) by {
                if k < i {
                    assert(on.take(k) =~= ob.take(k));
                }
            }
            assert(string_views(used@) =~= folded_paths(on));
        }
        i += 1;
    }
    out
}


/// The standard paths of chapters and resources, chapters first, then
/// styles, images, fonts and miscellaneous resources.
pub open spec fn all_standard_paths(cs: Seq<ExtendedChapterInfo>, rc: ResourceCollection) -> Seq<Seq<char>> {
    cs.map_values(|c: ExtendedChapterInfo| c.standard_path@) + rc.styles@.map_values(|r: ResourceFile| r.standard_path@)
        + rc.images@.map_values(|r: ResourceFile| r.standard_path@) + rc.fonts@.map_values(|r: ResourceFile| r.standard_path@)
        + rc.misc@.map_values(|r: ResourceFile| r.standard_path@)
}

/// The same chapters but for their standard paths.
pub open spec fn same_but_paths_c(a: Seq<ExtendedChapterInfo>, b: Seq<ExtendedChapterInfo>) -> bool {
    &&& a.len() == b.len()
    &&& forall|k: int| 0 <= k < a.len() ==> {
        &&& (#[trigger] a[k]).id == b[k].id
        &&& a[k].original_path == b[k].original_path
        &&& a[k].title == b[k].title
        &&& a[k].order == b[k].order
        &&& a[k].media_type == b[k].media_type
    }
}

/// The same resources but for their standard paths.
pub open spec fn same_but_paths_r(a: Seq<ResourceFile>, b: Seq<ResourceFile>) -> bool {
    &&& a.len() == b.len()
    &&& forall|k: int| 0 <= k < a.len() ==> {
        &&& (#[trigger] a[k]).id == b[k].id
        &&& a[k].original_path == b[k].original_path
        &&& a[k].media_type == b[k].media_type
    }
}

/// Appends the standard paths of resources.
fn push_resource_paths(out: &mut Vec<String>, rs: &Vec<ResourceFile>)
    ensures
        string_views(final(out)@) == string_views(old(out)@) + rs@.map_values(|r: ResourceFile| r.standard_path@),
{
    let ghost base = string_views(out@);
    let mut i: usize = 0;
    while i < rs.len()
        invariant
            i <= rs@.len(),
            string_views(out@) == base + rs@.take(i as int).map_values(|r: ResourceFile| r.standard_path@),
        decreases rs@.len() - i,
    {
        let ghost ob = out@;
        out.push(rs[i].standard_path.clone());
        assert(string_views(out@) =~= string_views(ob).push(rs@[i as int].standard_path@));
        assert(rs@.take(i + 1).map_values(|r: ResourceFile| r.standard_path@) =~= rs@.take(i as int).map_values(
            |r: ResourceFile| r.standard_path@,
        ).push(rs@[i as int].standard_path@));
        i += 1;
    }
    assert(rs@.take(rs@.len() as int) =~= rs@);
}

/// Resources with the standard paths `paths[offset..]`.
fn with_resource_paths(rs: &Vec<ResourceFile>, paths: &Vec<String>, offset: usize) -> (r: Vec<ResourceFile>)
    requires
        offset + rs@.len() <= paths@.len(),
    ensures
        same_but_paths_r(r@, rs@),
        r@.map_values(|x: ResourceFile| x.standard_path@) == string_views(paths@).subrange(offset as int, offset + rs@.len()),
{
    let mut out: Vec<ResourceFile> = Vec::new();
    let mut i: usize = 0;
    while i < rs.len()
        invariant
            i <= rs@.len(),
            offset + rs@.len() <= paths@.len(),
            same_but_paths_r(out@, rs@.take(i as int)),
            out@.map_values(|x: ResourceFile| x.standard_path@) == string_views(paths@).subrange(offset as int, offset + i),
        decreases rs@.len() - i,
    {
        let plen = paths.len();
        assert(offset + i < plen);
        let idx: usize = offset + i;
        let f = ResourceFile {
            id: rs[i].id.clone(),
            original_path: rs[i].original_path.clone(),
            standard_path: paths[idx].clone(),
            media_type: rs[i].media_type.clone(),
        };
        out.push(f);
        i += 1;
        assert(out@.map_values(|x: ResourceFile| x.standard_path@) =~= string_views(paths@).subrange(offset as int, offset + i));
        assert forall|k: int| 0 <= k < out@.len() implies {
            &&& (#[trigger] out@[k]).id == rs@.take(i as int)[k].id
            &&& out@[k].original_path == rs@.take(i as int)[k].original_path
            &&& out@[k].media_type == rs@.take(i as int)[k].media_type
        } by {
            if k < out@.len() - 1 {
                assert(rs@.take(i as int)[k] == rs@.take(i - 1)[k]);
            }
        }
    }
    assert(rs@.take(rs@.len() as int) =~= rs@);
    out
}

/// Gives every chapter and resource a standard path that no earlier one
/// has, ignoring case (chapters first, then styles, images, fonts and
/// miscellaneous resources), leaving everything else as it was.
pub fn allocate_unique_standard_paths(chapters: &mut Vec<ExtendedChapterInfo>, resources: &mut ResourceCollection)
    ensures
        allocated_all(all_standard_paths(old(chapters)@, *old(resources)), all_standard_paths(final(chapters)@, *final(resources))),
        same_but_paths_c(final(chapters)@, old(chapters)@),
        same_but_paths_r(final(resources).styles@, old(resources).styles@),
        same_but_paths_r(final(resources).images@, old(resources).images@),
        same_but_paths_r(final(resources).fonts@, old(resources).fonts@),
        same_but_paths_r(final(resources).misc@, old(resources).misc@),
{
    let ghost old_all = all_standard_paths(chapters@, *resources);
    let mut paths: Vec<String> = Vec::new();
    let mut i: usize = 0;
    while i < chapters.len()
        invariant
            i <= chapters@.len(),
            string_views(paths@) == chapters@.take(i as int).map_values(|c: ExtendedChapterInfo| c.standard_path@),
        decreases chapters@.len() - i,
    {
        let ghost pb = paths@;
        paths.push(chapters[i].standard_path.clone());
        assert(string_views(paths@) =~= string_views(pb).push(chapters@[i as int].standard_path@));
        assert(chapters@.take(i + 1).map_values(|c: ExtendedChapterInfo| c.standard_path@) =~= chapters@.take(
            i as int,
        ).map_values(|c: ExtendedChapterInfo| c.standard_path@).push(chapters@[i as int].standard_path@));
        i += 1;
    }
    assert(chapters@.take(chapters@.len() as int) =~= chapters@);
    push_resource_paths(&mut paths, &resources.styles);
    push_resource_paths(&mut paths, &resources.images);
    push_resource_paths(&mut paths, &resources.fonts);
    push_resource_paths(&mut paths, &resources.misc);
    assert(string_views(paths@) =~= old_all);
    let new_paths = allocate_unique_paths(&paths);
    let ghost np = string_views(new_paths@);
    let nc = chapters.len();
    assert(old_all.len() == chapters@.len() + resources.styles@.len() + resources.images@.len() + resources.fonts@.len() + resources.misc@.len());
    assert(np.len() == new_paths@.len());
    let total = new_paths.len();
    assert(total == nc + resources.styles@.len() + resources.images@.len() + resources.fonts@.len() + resources.misc@.len());
    let mut cs: Vec<ExtendedChapterInfo> = Vec::new();
    let mut k: usize = 0;
    while k < nc
        invariant
            nc == chapters@.len(),
            k <= nc,
            np == string_views(new_paths@),
            np.len() == old_all.len(),
            old_all.len() >= nc,
            same_but_paths_c(cs@, chapters@.take(k as int)),
            cs@.map_values(|c: ExtendedChapterInfo| c.standard_path@) == np.take(k as int),
        decreases nc - k,
    {
        let c = ExtendedChapterInfo {
            id: chapters[k].id.clone(),
            original_path: chapters[k].original_path.clone(),
            standard_path: new_paths[k].clone(),
            title: match &chapters[k].title {
                Some(t) => Some(t.clone()),
                None => None,
            },
            order: chapters[k].order,
            media_type: chapters[k].media_type.clone(),
        };
        cs.push(c);
        k += 1;
        assert(cs@.map_values(|c: ExtendedChapterInfo| c.standard_path@) =~= np.take(k as int));
        assert forall|q: int| 0 <= q < cs@.len() implies {
            &&& (#[trigger] cs@[q]).id == chapters@.take(k as int)[q].id
            &&& cs@[q].original_path == chapters@.take(k as int)[q].original_path
            &&& cs@[q].title == chapters@.take(k as int)[q].title
            &&& cs@[q].order == chapters@.take(k as int)[q].order
            &&& cs@[q].media_type == chapters@.take(k as int)[q].media_type
        } by {
            if q < cs@.len() - 1 {
                assert(chapters@.take(k as int)[q] == chapters@.take(k - 1)[q]);
            }
        }
    }
    assert(chapters@.take(nc as int) =~= chapters@);
    let o1 = nc;
    let styles = with_resource_paths(&resources.styles, &new_paths, o1);
    let o2 = o1 + resources.styles.len();
    let images = with_resource_paths(&resources.images, &new_paths, o2);
    let o3 = o2 + resources.images.len();
    let fonts = with_resource_paths(&resources.fonts, &new_paths, o3);
    let o4 = o3 + resources.fonts.len();
    let misc = with_resource_paths(&resources.misc, &new_paths, o4);
    let ghost new_rc = ResourceCollection { styles, images, fonts, misc };
    proof {
        assert(all_standard_paths(cs@, new_rc) =~= np);
    }
    *chapters = cs;
    *resources = ResourceCollection { styles, images, fonts, misc };
}


// ---------------------------------------------------------------------------
// The map between original and standard paths
// ---------------------------------------------------------------------------

/// The position of the first pair with key `k`, from `i` on.
pub open spec fn pair_index(m: Seq<(Seq<char>, Seq<char>)>, k: Seq<char>, i: int) -> Option<int>
    decreases m.len() - i,
{
    if i < 0 || i >= m.len() {
        None
    } else if m[i].0 == k {
        Some(i)
    } else {
        pair_index(m, k, i + 1)
    }
}

/// `m` with `k` mapped to `v`: the value replaced where `k` is a key, else
/// the pair added at the end.
pub open spec fn map_insert(m: Seq<(Seq<char>, Seq<char>)>, k: Seq<char>, v: Seq<char>) -> Seq<(Seq<char>, Seq<char>)> {
    match pair_index(m, k, 0) {
        Some(i) => m.update(i, (k, v)),
        None => m.push((k, v)),
    }
}

/// `m` with the pairs `ps` inserted one after the other.
pub open spec fn map_insert_all(m: Seq<(Seq<char>, Seq<char>)>, ps: Seq<(Seq<char>, Seq<char>)>) -> Seq<(Seq<char>, Seq<char>)>
    decreases ps.len(),
{
    if ps.len() == 0 {
        m
    } else {
        let p = ps.last();
        map_insert(map_insert_all(m, ps.drop_last()), p.0, p.1)
    }
}

/// The pairs swapped.
pub open spec fn swapped(ps: Seq<(Seq<char>, Seq<char>)>) -> Seq<(Seq<char>, Seq<char>)> {
    ps.map_values(|p: (Seq<char>, Seq<char>)| (p.1, p.0))
}

/// No pair from `i` on has key `k`: `pair_index` finds none.
proof fn lemma_pair_index_absent(m: Seq<(Seq<char>, Seq<char>)>, k: Seq<char>, i: int)
    requires
        0 <= i,
        forall|j: int| i <= j < m.len() ==> #[trigger] m[j].0 != k,
    ensures
        pair_index(m, k, i) is None,
    decreases m.len() - i,
{
    if i < m.len() {
        lemma_pair_index_absent(m, k, i + 1);
    }
}

/// Pairs with distinct keys, inserted one after the other into an empty
/// map, give the map holding exactly those pairs in that order.
proof fn lemma_insert_all_distinct(ps: Seq<(Seq<char>, Seq<char>)>)
    requires
        pair_keys(ps).no_duplicates(),
    ensures
        map_insert_all(seq![], ps) == ps,
    decreases ps.len(),
{
    if ps.len() > 0 {
        let t = ps.drop_last();
        assert(pair_keys(t) =~= pair_keys(ps).drop_last());
        assert(pair_keys(t).no_duplicates()) by {
            assert forall|a: int, b: int| 0 <= a < pair_keys(t).len() && 0 <= b < pair_keys(t).len() && a != b
                implies pair_keys(t)[a] != pair_keys(t)[b] by {
                assert(pair_keys(t)[a] == pair_keys(ps)[a]);
                assert(pair_keys(t)[b] == pair_keys(ps)[b]);
            }
        }
        lemma_insert_all_distinct(t);
        assert forall|j: int| 0 <= j < t.len() implies #[trigger] t[j].0 != ps.last().0 by {
            assert(pair_keys(ps)[j] == t[j].0);
            assert(pair_keys(ps)[ps.len() - 1] == ps.last().0);
        }
        lemma_pair_index_absent(t, ps.last().0, 0);
        assert(t.push(ps.last()) =~= ps);
    }
}

/// In pairs with distinct keys, looking up a key gives the value of its
/// pair, and a value found belongs to a pair with that key.
proof fn lemma_lookup_distinct(ps: Seq<(Seq<char>, Seq<char>)>, k: Seq<char>, v: Seq<char>, i: int)
    requires
        pair_keys(ps).no_duplicates(),
        0 <= i,
    ensures
        pair_lookup(ps, k, i) == Some(v) <==> exists|j: int| i <= j < ps.len() && #[trigger] ps[j] == (k, v),
    decreases ps.len() - i,
{
    if i < ps.len() {
        lemma_lookup_distinct(ps, k, v, i + 1);
        if ps[i].0 == k && ps[i].1 != v {
            if exists|j: int| i <= j < ps.len() && #[trigger] ps[j] == (k, v) {
                let j = choose|j: int| i <= j < ps.len() && #[trigger] ps[j] == (k, v);
                assert(pair_keys(ps)[i] == pair_keys(ps)[j]);
            }
        }
    }
}

/// Where the original paths are distinct and the standard paths are
/// distinct, the map from original to standard paths and the map back hold
/// the pairs and their swaps, and each undoes the other: `k` maps to `v`
/// exactly when `v` maps back to `k`.
pub proof fn law_file_maps_inverse(ps: Seq<(Seq<char>, Seq<char>)>, k: Seq<char>, v: Seq<char>)
    requires
        pair_keys(ps).no_duplicates(),
        pair_keys(swapped(ps)).no_duplicates(),
    ensures
        map_insert_all(seq![], ps) == ps,
        map_insert_all(seq![], swapped(ps)) == swapped(ps),
        pair_lookup(ps, k, 0) == Some(v) <==> pair_lookup(swapped(ps), v, 0) == Some(k),
{
    lemma_insert_all_distinct(ps);
    lemma_insert_all_distinct(swapped(ps));
    lemma_lookup_distinct(ps, k, v, 0);
    lemma_lookup_distinct(swapped(ps), v, k, 0);
    if exists|j: int| 0 <= j < ps.len() && #[trigger] ps[j] == (k, v) {
        let j = choose|j: int| 0 <= j < ps.len() && #[trigger] ps[j] == (k, v);
        assert(swapped(ps)[j] == (v, k));
    }
    if exists|j: int| 0 <= j < swapped(ps).len() && #[trigger] swapped(ps)[j] == (v, k) {
        let j = choose|j: int| 0 <= j < swapped(ps).len() && #[trigger] swapped(ps)[j] == (v, k);
        assert(ps[j] == (k, v));
    }
}

/// What `pair_index` finds: a position holding the key, or none where no
/// pair from `i` on has it.
proof fn lemma_pair_index(m: Seq<(Seq<char>, Seq<char>)>, k: Seq<char>, i: int)
    requires
        0 <= i,
    ensures
        pair_index(m, k, i) matches Some(j) ==> i <= j < m.len() && m[j].0 == k,
        pair_index(m, k, i) is None ==> forall|j: int| i <= j < m.len() ==> #[trigger] m[j].0 != k,
    decreases m.len() - i,
{
    if i < m.len() && m[i].0 != k {
        lemma_pair_index(m, k, i + 1);
    }
}

/// Mapping a key keeps the keys distinct, and adds that key to them.
proof fn lemma_map_insert_keys(m: Seq<(Seq<char>, Seq<char>)>, k: Seq<char>, v: Seq<char>)
    requires
        pair_keys(m).no_duplicates(),
    ensures
        pair_keys(map_insert(m, k, v)).no_duplicates(),
        pair_keys(map_insert(m, k, v)).contains(k),
{
    lemma_pair_index(m, k, 0);
    let r = map_insert(m, k, v);
    match pair_index(m, k, 0) {
        Some(i) => {
            assert(pair_keys(r) =~= pair_keys(m));
            assert(pair_keys(r)[i] == k);
        },
        None => {
            assert(pair_keys(r) =~= pair_keys(m).push(k));
            assert(pair_keys(r)[m.len() as int] == k);
            assert forall|a: int, b: int| 0 <= a < pair_keys(r).len() && 0 <= b < pair_keys(r).len() && a != b
                implies pair_keys(r)[a] != pair_keys(r)[b] by {
                if a < m.len() && b < m.len() {
                    assert(pair_keys(r)[a] == pair_keys(m)[a]);
                    assert(pair_keys(r)[b] == pair_keys(m)[b]);
                } else if a < m.len() {
                    assert(pair_keys(r)[a] == m[a].0);
                } else if b < m.len() {
                    assert(pair_keys(r)[b] == m[b].0);
                }
            }
        },
    }
}

/// Inserting pairs one after the other keeps the keys distinct.
proof fn lemma_map_insert_all_keys(m: Seq<(Seq<char>, Seq<char>)>, ps: Seq<(Seq<char>, Seq<char>)>)
    requires
        pair_keys(m).no_duplicates(),
    ensures
        pair_keys(map_insert_all(m, ps)).no_duplicates(),
    decreases ps.len(),
{
    if ps.len() > 0 {
        lemma_map_insert_all_keys(m, ps.drop_last());
        lemma_map_insert_keys(map_insert_all(m, ps.drop_last()), ps.last().0, ps.last().1);
    }
}

/// Each path occurs at most once as a key of either map of a file map.
pub proof fn lemma_file_map_keys_unique(
    chapters: Seq<ExtendedChapterInfo>,
    resources: ResourceCollection,
    special_files: SpecialFiles,
    fm: FileMap,
)
    requires
        is_file_map(chapters, resources, special_files, fm),
    ensures
        pair_keys(pair_views(fm.original_to_standard@)).no_duplicates(),
        pair_keys(pair_views(fm.standard_to_original@)).no_duplicates(),
{
    let ps = file_pairs(chapters, resources);
    let o0 = map_insert_all(seq![], ps);
    let s0 = map_insert_all(seq![], swapped(ps));
    let used = folded_paths(pair_keys(swapped(ps)));
    let (o1, s1) = choose|o1: Seq<(Seq<char>, Seq<char>)>, s1: Seq<(Seq<char>, Seq<char>)>|
        #[trigger] cover_step(o0, s0, opt_seq(special_files.cover), used, o1, s1) && (
        pair_views(fm.original_to_standard@),
        pair_views(fm.standard_to_original@),
    ) == special_steps(o1, s1, opt_seq(special_files.nav), opt_seq(special_files.ncx));
    assert(pair_keys(Seq::<(Seq<char>, Seq<char>)>::empty()) =~= Seq::<Seq<char>>::empty());
    lemma_map_insert_all_keys(seq![], ps);
    lemma_map_insert_all_keys(seq![], swapped(ps));
    match opt_seq(special_files.cover) {
        Some(c) => {
            if !pair_keys(o0).contains(c) {
                let sp = choose|sp: Seq<char>|
                    allocated(spec_standard_path("Text"@, c, seq!["Text"@]), sp, used) && o1 == map_insert(o0, c, sp)
                        && s1 == map_insert(s0, sp, c);
                lemma_map_insert_keys(o0, c, sp);
                lemma_map_insert_keys(s0, sp, c);
            }
        },
        None => {},
    }
    let (o2, s2) = match opt_seq(special_files.nav) {
        Some(n) => {
            lemma_map_insert_keys(o1, n, "OEBPS/"@ + spec_filename(n));
            lemma_map_insert_keys(s1, "OEBPS/"@ + spec_filename(n), n);
            (map_insert(o1, n, "OEBPS/"@ + spec_filename(n)), map_insert(s1, "OEBPS/"@ + spec_filename(n), n))
        },
        None => (o1, s1),
    };
    match opt_seq(special_files.ncx) {
        Some(x) => {
            lemma_map_insert_keys(o2, x, "OEBPS/"@ + spec_filename(x));
            lemma_map_insert_keys(s2, "OEBPS/"@ + spec_filename(x), x);
        },
        None => {},
    }
}

/// The original and standard paths of the chapters, then of the styles,
/// images, fonts and miscellaneous resources.
pub open spec fn file_pairs(cs: Seq<ExtendedChapterInfo>, rc: ResourceCollection) -> Seq<(Seq<char>, Seq<char>)> {
    cs.map_values(|c: ExtendedChapterInfo| (c.original_path@, c.standard_path@))
        + rc.styles@.map_values(|r: ResourceFile| (r.original_path@, r.standard_path@))
        + rc.images@.map_values(|r: ResourceFile| (r.original_path@, r.standard_path@))
        + rc.fonts@.map_values(|r: ResourceFile| (r.original_path@, r.standard_path@))
        + rc.misc@.map_values(|r: ResourceFile| (r.original_path@, r.standard_path@))
}

/// Maps `k` to `v` in a map held as pairs.
fn pairs_insert(m: &mut Vec<(String, String)>, k: &String, v: &String)
    ensures
        pair_views(final(m)@) == map_insert(pair_views(old(m)@), k@, v@),
{
    let kv = chars_of(k.as_str());
    let ghost mv = pair_views(m@);
    let mut i: usize = 0;
    while i < m.len()
        invariant
            i <= m@.len(),
            mv == pair_views(m@),
            m@ == old(m)@,
            kv@ == k@,
            pair_index(mv, k@, 0) == pair_index(mv, k@, i as int),
        decreases m@.len() - i,
    {
        if chars_eq(chars_of(m[i].0.as_str()).as_slice(), kv.as_slice()) {
            let ghost before = m@;
            assert(mv[i as int].0 == k@);
            assert(pair_index(mv, k@, i as int) == Some(i as int));
            m.set(i, (k.clone(), v.clone()));
            assert(pair_views(m@) =~= mv.update(i as int, (k@, v@)));
            return;
        }
        i += 1;
    }
    m.push((k.clone(), v.clone()));
    assert(pair_views(m@) =~= mv.push((k@, v@)));
}

/// How the cover page enters the maps `o0`/`s0` to give `o1`/`s1`: not at
/// all if no cover or if its original path is already mapped, else at a
/// `Text` path made unique against the case-folded paths `used`.
pub open spec fn cover_step(
    o0: Seq<(Seq<char>, Seq<char>)>,
    s0: Seq<(Seq<char>, Seq<char>)>,
    cover: Option<Seq<char>>,
    used: Seq<Seq<char>>,
    o1: Seq<(Seq<char>, Seq<char>)>,
    s1: Seq<(Seq<char>, Seq<char>)>,
) -> bool {
    match cover {
        Some(c) => if pair_keys(o0).contains(c) {
            o1 == o0 && s1 == s0
        } else {
            exists|sp: Seq<char>|
                allocated(spec_standard_path("Text"@, c, seq!["Text"@]), sp, used) && o1 == map_insert(o0, c, sp)
                    && s1 == map_insert(s0, sp, c)
        },
        None => o1 == o0 && s1 == s0,
    }
}

/// The maps with the navigation document and then the NCX mapped to their
/// file names directly under `OEBPS/`.
pub open spec fn special_steps(
    o1: Seq<(Seq<char>, Seq<char>)>,
    s1: Seq<(Seq<char>, Seq<char>)>,
    nav: Option<Seq<char>>,
    ncx: Option<Seq<char>>,
) -> (Seq<(Seq<char>, Seq<char>)>, Seq<(Seq<char>, Seq<char>)>) {
    let (o2, s2) = match nav {
        Some(n) => (map_insert(o1, n, "OEBPS/"@ + spec_filename(n)), map_insert(s1, "OEBPS/"@ + spec_filename(n), n)),
        None => (o1, s1),
    };
    match ncx {
        Some(x) => (map_insert(o2, x, "OEBPS/"@ + spec_filename(x)), map_insert(s2, "OEBPS/"@ + spec_filename(x), x)),
        None => (o2, s2),
    }
}

/// `fm` maps the original path of each chapter and resource to its standard
/// path and back, with the cover page added and the navigation document and
/// the NCX directly under `OEBPS/`.
pub open spec fn is_file_map(chapters: Seq<ExtendedChapterInfo>, resources: ResourceCollection, special_files: SpecialFiles, fm: FileMap) -> bool {
    let ps = file_pairs(chapters, resources);
    let o0 = map_insert_all(seq![], ps);
    let s0 = map_insert_all(seq![], swapped(ps));
    let used = folded_paths(pair_keys(swapped(ps)));
    exists|o1: Seq<(Seq<char>, Seq<char>)>, s1: Seq<(Seq<char>, Seq<char>)>|
        #[trigger] cover_step(o0, s0, opt_seq(special_files.cover), used, o1, s1) && (
        pair_views(fm.original_to_standard@),
        pair_views(fm.standard_to_original@),
    ) == special_steps(o1, s1, opt_seq(special_files.nav), opt_seq(special_files.ncx))
}

/// Two maps held as pairs with distinct keys, each holding the other's
/// pairs swapped.
pub open spec fn inverse_maps(o: Seq<(Seq<char>, Seq<char>)>, s: Seq<(Seq<char>, Seq<char>)>) -> bool {
    &&& pair_keys(o).no_duplicates()
    &&& pair_keys(s).no_duplicates()
    &&& forall|k: Seq<char>, v: Seq<char>|
        #![trigger o.contains((k, v))]
        #![trigger s.contains((v, k))]
        o.contains((k, v)) <==> s.contains((v, k))
}

/// Mapping a fresh key to a fresh value in one map, and back in the other,
/// keeps them inverse.
proof fn lemma_inverse_insert(o: Seq<(Seq<char>, Seq<char>)>, s: Seq<(Seq<char>, Seq<char>)>, k: Seq<char>, v: Seq<char>)
    requires
        inverse_maps(o, s),
        !pair_keys(o).contains(k),
        !pair_keys(s).contains(v),
    ensures
        inverse_maps(map_insert(o, k, v), map_insert(s, v, k)),
        map_insert(o, k, v) == o.push((k, v)),
        map_insert(s, v, k) == s.push((v, k)),
{
    lemma_pair_index(o, k, 0);
    lemma_pair_index(s, v, 0);
    if pair_index(o, k, 0) is Some {
        let j = pair_index(o, k, 0)->0;
        assert(pair_keys(o)[j] == k);
    }
    if pair_index(s, v, 0) is Some {
        let j = pair_index(s, v, 0)->0;
        assert(pair_keys(s)[j] == v);
    }
    lemma_map_insert_keys(o, k, v);
    lemma_map_insert_keys(s, v, k);
    let o2 = o.push((k, v));
    let s2 = s.push((v, k));
    assert forall|a: Seq<char>, b: Seq<char>|
        #![trigger o2.contains((a, b))]
        #![trigger s2.contains((b, a))]
        o2.contains((a, b)) <==> s2.contains((b, a)) by {
        if o2.contains((a, b)) {
            let i = choose|i: int| 0 <= i < o2.len() && o2[i] == (a, b);
            if i < o.len() {
                assert(o[i] == (a, b));
                assert(o.contains((a, b)));
                let j = choose|j: int| 0 <= j < s.len() && s[j] == (b, a);
                assert(s2[j] == (b, a));
            } else {
                assert(s2[s.len() as int] == (b, a));
            }
        }
        if s2.contains((b, a)) {
            let i = choose|i: int| 0 <= i < s2.len() && s2[i] == (b, a);
            if i < s.len() {
                assert(s[i] == (b, a));
                assert(s.contains((b, a)));
                let j = choose|j: int| 0 <= j < o.len() && o[j] == (a, b);
                assert(o2[j] == (a, b));
            } else {
                assert(o2[o.len() as int] == (a, b));
            }
        }
    }
}

/// A path that is a key of the pairs has its case-folded form among the
/// case-folded keys.
proof fn lemma_key_folded(ps: Seq<(Seq<char>, Seq<char>)>, x: Seq<char>)
    requires
        pair_keys(ps).contains(x),
    ensures
        folded_paths(pair_keys(ps)).contains(spec_casefold(x)),
{
    let i = choose|i: int| 0 <= i < pair_keys(ps).len() && pair_keys(ps)[i] == x;
    assert(pair_keys(ps)[i] == x);
    assert(folded_paths(pair_keys(ps))[i] == spec_casefold(x));
}

/// The standard path of a special file placed directly under `OEBPS/`.
pub open spec fn special_target(p: Seq<char>) -> Seq<char> {
    "OEBPS/"@ + spec_filename(p)
}

/// The file map undoes itself: where the original paths of chapters and
/// resources are distinct, and so are their standard paths; the navigation
/// document and the NCX are neither among those original paths nor the
/// cover, differ from each other, and their places under `OEBPS/` are not
/// standard paths already and differ from each other; and the cover, where
/// it is not mapped already, gets a free standard path other than those
/// places. Then `k` maps to `v` exactly when `v` maps back to `k`; each
/// chapter and resource maps to its standard path, and the navigation
/// document and the NCX to their places under `OEBPS/`.
pub proof fn law_file_map_inverse(
    chapters: Seq<ExtendedChapterInfo>,
    resources: ResourceCollection,
    special_files: SpecialFiles,
    fm: FileMap,
    k: Seq<char>,
    v: Seq<char>,
)
    requires
        is_file_map(chapters, resources, special_files, fm),
        pair_keys(file_pairs(chapters, resources)).no_duplicates(),
        pair_keys(swapped(file_pairs(chapters, resources))).no_duplicates(),
        opt_seq(special_files.nav) matches Some(n) ==> !pair_keys(file_pairs(chapters, resources)).contains(n)
            && opt_seq(special_files.cover) != Some(n)
            && !pair_keys(swapped(file_pairs(chapters, resources))).contains(special_target(n)),
        opt_seq(special_files.ncx) matches Some(x) ==> !pair_keys(file_pairs(chapters, resources)).contains(x)
            && opt_seq(special_files.cover) != Some(x) && opt_seq(special_files.nav) != Some(x)
            && !pair_keys(swapped(file_pairs(chapters, resources))).contains(special_target(x))
            && (opt_seq(special_files.nav) matches Some(n) ==> special_target(n) != special_target(x)),
        opt_seq(special_files.cover) matches Some(c) ==> forall|sp: Seq<char>|
            #[trigger] allocated(spec_standard_path("Text"@, c, seq!["Text"@]), sp, folded_paths(
                pair_keys(swapped(file_pairs(chapters, resources))),
            )) ==> !folded_paths(pair_keys(swapped(file_pairs(chapters, resources)))).contains(
                spec_casefold(sp),
            ) && (opt_seq(special_files.nav) matches Some(n) ==> sp != special_target(n)) && (opt_seq(
                special_files.ncx,
            ) matches Some(x) ==> sp != special_target(x)),
    ensures
        pair_lookup(pair_views(fm.original_to_standard@), k, 0) == Some(v) <==> pair_lookup(
            pair_views(fm.standard_to_original@),
            v,
            0,
        ) == Some(k),
        forall|i: int|
            0 <= i < file_pairs(chapters, resources).len() ==> pair_lookup(
                pair_views(fm.original_to_standard@),
                (#[trigger] file_pairs(chapters, resources)[i]).0,
                0,
            ) == Some(file_pairs(chapters, resources)[i].1),
        opt_seq(special_files.nav) matches Some(n) ==> pair_lookup(pair_views(fm.original_to_standard@), n, 0)
            == Some(special_target(n)),
        opt_seq(special_files.ncx) matches Some(x) ==> pair_lookup(pair_views(fm.original_to_standard@), x, 0)
            == Some(special_target(x)),
{
    let ps = file_pairs(chapters, resources);
    let o0 = map_insert_all(seq![], ps);
    let s0 = map_insert_all(seq![], swapped(ps));
    let used = folded_paths(pair_keys(swapped(ps)));
    let (o1, s1) = choose|o1: Seq<(Seq<char>, Seq<char>)>, s1: Seq<(Seq<char>, Seq<char>)>|
        #[trigger] cover_step(o0, s0, opt_seq(special_files.cover), used, o1, s1) && (
        pair_views(fm.original_to_standard@),
        pair_views(fm.standard_to_original@),
    ) == special_steps(o1, s1, opt_seq(special_files.nav), opt_seq(special_files.ncx));
    lemma_insert_all_distinct(ps);
    lemma_insert_all_distinct(swapped(ps));
    assert(inverse_maps(ps, swapped(ps))) by {
        assert forall|a: Seq<char>, b: Seq<char>|
            #![trigger ps.contains((a, b))]
            #![trigger swapped(ps).contains((b, a))]
            ps.contains((a, b)) <==> swapped(ps).contains((b, a)) by {
            if ps.contains((a, b)) {
                let i = choose|i: int| 0 <= i < ps.len() && ps[i] == (a, b);
                assert(swapped(ps)[i] == (b, a));
            }
            if swapped(ps).contains((b, a)) {
                let i = choose|i: int| 0 <= i < swapped(ps).len() && swapped(ps)[i] == (b, a);
                assert(ps[i] == (a, b));
            }
        }
    }
    // The cover step.
    match opt_seq(special_files.cover) {
        Some(c) => {
            if !pair_keys(o0).contains(c) {
                let sp = choose|sp: Seq<char>|
                    allocated(spec_standard_path("Text"@, c, seq!["Text"@]), sp, used) && o1 == map_insert(o0, c, sp)
                        && s1 == map_insert(s0, sp, c);
                assert(!used.contains(spec_casefold(sp)));
                if pair_keys(s0).contains(sp) {
                    lemma_key_folded(swapped(ps), sp);
                }
                lemma_inverse_insert(o0, s0, c, sp);
                assert(pair_keys(o1) =~= pair_keys(o0).push(c));
                assert(pair_keys(s1) =~= pair_keys(s0).push(sp));
            }
        },
        None => {},
    }
    assert(inverse_maps(o1, s1));
    assert(o1.len() >= ps.len() && forall|i: int| 0 <= i < ps.len() ==> o1[i] == ps[i]);
    // The navigation document.
    let (o2, s2) = match opt_seq(special_files.nav) {
        Some(n) => {
            let t = special_target(n);
            if pair_keys(o1).contains(n) {
                let i = choose|i: int| 0 <= i < pair_keys(o1).len() && pair_keys(o1)[i] == n;
                if i < pair_keys(o0).len() {
                    assert(pair_keys(o0)[i] == n);
                }
            }
            if pair_keys(s1).contains(t) {
                let i = choose|i: int| 0 <= i < pair_keys(s1).len() && pair_keys(s1)[i] == t;
                if i < pair_keys(s0).len() {
                    assert(pair_keys(s0)[i] == t);
                }
            }
            lemma_inverse_insert(o1, s1, n, t);
            (map_insert(o1, n, t), map_insert(s1, t, n))
        },
        None => (o1, s1),
    };
    assert(inverse_maps(o2, s2));
    assert(o2.len() >= ps.len() && forall|i: int| 0 <= i < ps.len() ==> o2[i] == ps[i]);
    assert(opt_seq(special_files.nav) matches Some(n) ==> o2.len() > 0 && o2[o2.len() - 1] == (n, special_target(n)));
    match opt_seq(special_files.ncx) {
        Some(x) => {
            let t = special_target(x);
            if pair_keys(o2).contains(x) {
                let i = choose|i: int| 0 <= i < pair_keys(o2).len() && pair_keys(o2)[i] == x;
                if i < pair_keys(o1).len() {
                    assert(pair_keys(o1)[i] == x);
                    if i < pair_keys(o0).len() {
                        assert(pair_keys(o0)[i] == x);
                    }
                }
            }
            if pair_keys(s2).contains(t) {
                let i = choose|i: int| 0 <= i < pair_keys(s2).len() && pair_keys(s2)[i] == t;
                if i < pair_keys(s1).len() {
                    assert(pair_keys(s1)[i] == t);
                    if i < pair_keys(s0).len() {
                        assert(pair_keys(s0)[i] == t);
                    }
                }
            }
            lemma_inverse_insert(o2, s2, x, t);
        },
        None => {},
    }
    let fo = pair_views(fm.original_to_standard@);
    let fs = pair_views(fm.standard_to_original@);
    assert(inverse_maps(fo, fs));
    lemma_lookup_distinct(fo, k, v, 0);
    lemma_lookup_distinct(fs, v, k, 0);
    assert(fo.contains((k, v)) <==> fs.contains((v, k)));
    assert(fo.len() >= ps.len() && forall|i: int| 0 <= i < ps.len() ==> fo[i] == ps[i]);
    assert forall|i: int| 0 <= i < ps.len() implies pair_lookup(fo, (#[trigger] ps[i]).0, 0) == Some(ps[i].1) by {
        lemma_lookup_distinct(fo, ps[i].0, ps[i].1, 0);
        assert(fo[i] == (ps[i].0, ps[i].1));
    }
    if let Some(n) = opt_seq(special_files.nav) {
        let j = o2.len() - 1;
        lemma_lookup_distinct(fo, n, special_target(n), 0);
        assert(fo[j] == (n, special_target(n)));
    }
    if let Some(x) = opt_seq(special_files.ncx) {
        lemma_lookup_distinct(fo, x, special_target(x), 0);
        assert(fo[fo.len() - 1] == (x, special_target(x)));
    }
}

/// Maps each original path to its standard path and back, adds the cover
/// page (when no file has its original path yet, at a free `Text` path),
/// and puts the navigation document and the NCX directly under `OEBPS/`.
pub fn build_file_map(
    chapters: &[ExtendedChapterInfo],
    resources: &ResourceCollection,
    special_files: &SpecialFiles,
) -> (r: FileMap)
    ensures
        is_file_map(chapters@, *resources, *special_files, r),
        pair_keys(pair_views(r.original_to_standard@)).no_duplicates(),
        pair_keys(pair_views(r.standard_to_original@)).no_duplicates(),
{
    let ghost ps = file_pairs(chapters@, *resources);
    let mut pairs: Vec<(String, String)> = Vec::new();
    let mut i: usize = 0;
    while i < chapters.len()
        invariant
            i <= chapters@.len(),
            pair_views(pairs@) == chapters@.take(i as int).map_values(|c: ExtendedChapterInfo| (c.original_path@, c.standard_path@)),
        decreases chapters@.len() - i,
    {
        let ghost pb = pairs@;
        pairs.push((chapters[i].original_path.clone(), chapters[i].standard_path.clone()));
        assert(pair_views(pairs@) =~= pair_views(pb).push((chapters@[i as int].original_path@, chapters@[i as int].standard_path@)));
        assert(chapters@.take(i + 1).map_values(|c: ExtendedChapterInfo| (c.original_path@, c.standard_path@)) =~= chapters@.take(
            i as int,
        ).map_values(|c: ExtendedChapterInfo| (c.original_path@, c.standard_path@)).push((chapters@[i as int].original_path@, chapters@[i as int].standard_path@)));
        i += 1;
    }
    assert(chapters@.take(chapters@.len() as int) =~= chapters@);
    push_resource_pairs(&mut pairs, &resources.styles);
    push_resource_pairs(&mut pairs, &resources.images);
    push_resource_pairs(&mut pairs, &resources.fonts);
    push_resource_pairs(&mut pairs, &resources.misc);
    assert(pair_views(pairs@) =~= ps);
    let mut o2s: Vec<(String, String)> = Vec::new();
    let mut s2o: Vec<(String, String)> = Vec::new();
    let mut used: Vec<String> = Vec::new();
    let mut j: usize = 0;
    while j < pairs.len()
        invariant
            j <= pairs@.len(),
            pair_views(pairs@) == ps,
            pair_views(o2s@) == map_insert_all(seq![], ps.take(j as int)),
            pair_views(s2o@) == map_insert_all(seq![], swapped(ps.take(j as int))),
            string_views(used@) == folded_paths(pair_keys(swapped(ps.take(j as int)))),
        decreases pairs@.len() - j,
    {
        proof {
            let t = ps.take(j + 1);
            assert(t.drop_last() =~= ps.take(j as int));
            assert(swapped(t).drop_last() =~= swapped(ps.take(j as int)));
            assert(t.last() == ps[j as int]);
        }
        pairs_insert(&mut o2s, &pairs[j].0, &pairs[j].1);
        pairs_insert(&mut s2o, &pairs[j].1, &pairs[j].0);
        let ghost ub = used@;
        let key = casefold_chars(chars_of(pairs[j].1.as_str()).as_slice());
        used.push(string_of(key.as_slice()));
        proof {
            let t = ps.take(j + 1);
            assert(string_views(used@) =~= string_views(ub).push(spec_casefold(ps[j as int].1)));
            assert(folded_paths(pair_keys(swapped(t))) =~= folded_paths(
                pair_keys(swapped(ps.take(j as int))),
            ).push(spec_casefold(ps[j as int].1)));
        }
        j += 1;
    }
    assert(ps.take(pairs@.len() as int) =~= ps);
    let ghost o0 = pair_views(o2s@);
    let ghost s0 = pair_views(s2o@);
    let ghost used0 = string_views(used@);
    assert(used0 == folded_paths(pair_keys(swapped(ps))));
    match &special_files.cover {
        Some(cover) => {
            let mut keys: Vec<String> = Vec::new();
            let mut q: usize = 0;
            while q < o2s.len()
                invariant
                    q <= o2s@.len(),
                    string_views(keys@) == pair_keys(pair_views(o2s@)).take(q as int),
                decreases o2s@.len() - q,
            {
                let ghost kb = keys@;
                keys.push(o2s[q].0.clone());
                assert(string_views(keys@) =~= string_views(kb).push(o2s@[q as int].0@));
                assert(pair_keys(pair_views(o2s@)).take(q + 1) =~= pair_keys(pair_views(o2s@)).take(q as int).push(o2s@[q as int].0@));
                q += 1;
            }
            assert(pair_keys(pair_views(o2s@)).take(o2s@.len() as int) =~= pair_keys(pair_views(o2s@)));
            if !contains_string(&keys, chars_of(cover.as_str()).as_slice()) {
                let ps1: [&str; 1] = ["Text"];
                let sp0 = standard_path("Text", cover.as_str(), &ps1);
                assert(str_views(ps1@) =~= seq!["Text"@]);
                let sp = allocate_unique_path(sp0.as_str(), &mut used);
                assert(allocated(spec_standard_path("Text"@, cover@, seq!["Text"@]), sp@, used0));
                pairs_insert(&mut o2s, cover, &sp);
                pairs_insert(&mut s2o, &sp, cover);
                assert(cover_step(o0, s0, opt_seq(special_files.cover), used0, pair_views(o2s@), pair_views(s2o@)));
            } else {
                assert(pair_keys(o0).contains(cover@));
            }
        },
        None => {},
    }
    let ghost o1 = pair_views(o2s@);
    let ghost s1 = pair_views(s2o@);
    assert(cover_step(o0, s0, opt_seq(special_files.cover), used0, o1, s1));
    match &special_files.nav {
        Some(nav) => {
            let mut sp = chars_of("OEBPS/");
            extend_chars(&mut sp, filename_chars(chars_of(nav.as_str()).as_slice()).as_slice());
            let sps = string_of(sp.as_slice());
            pairs_insert(&mut o2s, nav, &sps);
            pairs_insert(&mut s2o, &sps, nav);
        },
        None => {},
    }
    match &special_files.ncx {
        Some(ncx) => {
            let mut sp = chars_of("OEBPS/");
            extend_chars(&mut sp, filename_chars(chars_of(ncx.as_str()).as_slice()).as_slice());
            let sps = string_of(sp.as_slice());
            pairs_insert(&mut o2s, ncx, &sps);
            pairs_insert(&mut s2o, &sps, ncx);
        },
        None => {},
    }
    assert((pair_views(o2s@), pair_views(s2o@)) == special_steps(o1, s1, opt_seq(special_files.nav), opt_seq(special_files.ncx)));
    let r = FileMap { original_to_standard: o2s, standard_to_original: s2o };
    proof {
        lemma_file_map_keys_unique(chapters@, *resources, *special_files, r);
    }
    r
}

/// Appends the original and standard paths of resources.
fn push_resource_pairs(out: &mut Vec<(String, String)>, rs: &Vec<ResourceFile>)
    ensures
        pair_views(final(out)@) == pair_views(old(out)@) + rs@.map_values(|r: ResourceFile| (r.original_path@, r.standard_path@)),
{
    let ghost base = pair_views(out@);
    let mut i: usize = 0;
    while i < rs.len()
        invariant
            i <= rs@.len(),
            pair_views(out@) == base + rs@.take(i as int).map_values(|r: ResourceFile| (r.original_path@, r.standard_path@)),
        decreases rs@.len() - i,
    {
        let ghost ob = out@;
        out.push((rs[i].original_path.clone(), rs[i].standard_path.clone()));
        assert(pair_views(out@) =~= pair_views(ob).push((rs@[i as int].original_path@, rs@[i as int].standard_path@)));
        assert(rs@.take(i + 1).map_values(|r: ResourceFile| (r.original_path@, r.standard_path@)) =~= rs@.take(i as int).map_values(
            |r: ResourceFile| (r.original_path@, r.standard_path@),
        ).push((rs@[i as int].original_path@, rs@[i as int].standard_path@)));
        i += 1;
    }
    assert(rs@.take(rs@.len() as int) =~= rs@);
}

} // verus!
