//! Reading and editing `content.opf` of the standardized package.

use vstd::prelude::*;
use crate::models::{EpubMetadata, StandardManifest, StandardManifestItem, StandardSpine, StandardSpineItemref};
use crate::text::{
    chars_of, extend_chars, extend_str, find, find_from, find_from_exec, escape_xml_spec, is_ws,
    join_with, push_escaped, push_joined, slice_chars, string_of, decimal, decimal_chars,
};
use crate::epub_path::{lemma_find_char_bounds, spec_strip_oebps_prefix, to_opf_href};
use crate::models::RefactorError;
use crate::opf_parse::{parse_opf_document, spec_read_opf, xml_event_stream};
use crate::text::{find_char_exec, find_char_from, find_str_from};

verus! {

/// Metadata, manifest and spine read from `content.opf`.
#[derive(Clone)]
pub struct OpfDocument {
    pub metadata: EpubMetadata,
    pub manifest: StandardManifest,
    pub spine: StandardSpine,
}

/// The OPF href (relative to `OEBPS/`) of a path.
pub fn relative_href(path: &str) -> (r: String)
    ensures
        r@ == spec_strip_oebps_prefix(path@),
{
    to_opf_href(path)
}

/// Characters allowed in a manifest id as they are.
pub open spec fn is_id_char(c: char) -> bool {
    ('a' <= c && c <= 'z') || ('A' <= c && c <= 'Z') || ('0' <= c && c <= '9') || c == '_' || c
        == '-'
}

/// Each character outside `[A-Za-z0-9_-]` replaced by `_`.
pub open spec fn id_chars(s: Seq<char>) -> Seq<char> {
    s.map_values(|c: char| if is_id_char(c) { c } else { '_' })
}

/// `s` without leading and trailing `_`.
pub open spec fn trim_underscores(s: Seq<char>) -> Seq<char>
    decreases s.len(),
{
    if s.len() > 0 && s[0] == '_' {
        trim_underscores(s.drop_first())
    } else if s.len() > 0 && s.last() == '_' {
        trim_underscores(s.drop_last())
    } else {
        s
    }
}

/// A manifest id made from `value`, or `fallback` when nothing is left.
pub open spec fn sanitized_id(value: Seq<char>, fallback: Seq<char>) -> Seq<char> {
    let id = trim_underscores(id_chars(value));
    if id.len() == 0 {
        fallback
    } else {
        id
    }
}

/// `s` with its characters mapped to id characters and trimmed of `_`.
pub fn sanitize_id_chars(value: &[char]) -> (r: Vec<char>)
    ensures
        r@ == trim_underscores(id_chars(value@)),
{
    let mut mapped: Vec<char> = Vec::new();
    let mut i: usize = 0;
    while i < value.len()
        invariant
            i <= value@.len(),
            mapped@ == id_chars(value@.take(i as int)),
        decreases value@.len() - i,
    {
        let c = value[i];
        let ok = ('a' <= c && c <= 'z') || ('A' <= c && c <= 'Z') || ('0' <= c && c <= '9') || c
            == '_' || c == '-';
        mapped.push(if ok { c } else { '_' });
        i += 1;
        assert(id_chars(value@.take(i as int)) =~= id_chars(value@.take((i - 1) as int)).push(
            if is_id_char(c) { c } else { '_' },
        ));
    }
    assert(value@.take(value@.len() as int) =~= value@);
    let mut a: usize = 0;
    let mut b: usize = mapped.len();
    assert(mapped@.subrange(0, mapped@.len() as int) =~= mapped@);
    while a < b && (mapped[a] == '_' || mapped[b - 1] == '_')
        invariant
            a <= b <= mapped@.len(),
            trim_underscores(mapped@) == trim_underscores(mapped@.subrange(a as int, b as int)),
        decreases b - a,
    {
        let ghost s = mapped@.subrange(a as int, b as int);
        if mapped[a] == '_' {
            assert(s.drop_first() =~= mapped@.subrange(a + 1, b as int));
            a += 1;
        } else {
            assert(s.drop_last() =~= mapped@.subrange(a as int, b - 1));
            b -= 1;
        }
    }
    slice_chars(mapped.as_slice(), a, b)
}

/// The `k`-th id tried: the base, then `base_k`.
pub open spec fn id_candidate(base: Seq<char>, k: nat) -> Seq<char> {
    if k == 0 {
        base
    } else {
        base + seq!['_'] + decimal(k)
    }
}

/// The ids of a manifest.
pub open spec fn manifest_ids(m: StandardManifest) -> Seq<Seq<char>> {
    m.items@.map_values(|i: StandardManifestItem| i.id@)
}

fn manifest_has_id(manifest: &StandardManifest, id: &[char]) -> (r: bool)
    ensures
        r == manifest_ids(*manifest).contains(id@),
{
    let ghost ids = manifest_ids(*manifest);
    let mut i: usize = 0;
    while i < manifest.items.len()
        invariant
            i <= manifest.items@.len(),
            ids == manifest_ids(*manifest),
            forall|j: int| 0 <= j < i ==> ids[j] != id@,
        decreases manifest.items@.len() - i,
    {
        let c = chars_of(manifest.items[i].id.as_str());
        if crate::text::chars_eq(c.as_slice(), id) {
            assert(ids[i as int] == id@);
            return true;
        }
        i += 1;
    }
    false
}

/// A manifest id derived from `preferred_id` that the manifest does not use:
/// the sanitized id (or `item`), then with `_1`, `_2`, ... appended.
pub fn make_unique_manifest_id(manifest: &StandardManifest, preferred_id: &str) -> (r: String)
    ensures
        exists|j: nat|
            r@ == id_candidate(sanitized_id(preferred_id@, "item"@), j) && (forall|i: nat|
                i < j ==> manifest_ids(*manifest).contains(
                    #[trigger] id_candidate(sanitized_id(preferred_id@, "item"@), i),
                )) && (!manifest_ids(*manifest).contains(r@) || j + 1 == usize::MAX),
{
    let pv = chars_of(preferred_id);
    let mut base = sanitize_id_chars(pv.as_slice());
    if base.len() == 0 {
        base = chars_of("item");
    }
    let ghost b = base@;
    assert(b == sanitized_id(preferred_id@, "item"@));
    let mut candidate = base.clone();
    let mut suffix: usize = 1;
    loop
        invariant
            1 <= suffix,
            base@ == b,
            b == sanitized_id(preferred_id@, "item"@),
            candidate@ == id_candidate(b, (suffix - 1) as nat),
            forall|i: nat|
                i < suffix - 1 ==> manifest_ids(*manifest).contains(#[trigger] id_candidate(b, i)),
        decreases usize::MAX - suffix,
    {
        if !manifest_has_id(manifest, candidate.as_slice()) || suffix == usize::MAX {
            let r = string_of(candidate.as_slice());
            proof {
                let j = (suffix - 1) as nat;
                assert(r@ == id_candidate(b, j));
                assert(!manifest_ids(*manifest).contains(r@) || j + 1 == usize::MAX);
            }
            return r;
        }
        assert(manifest_ids(*manifest).contains(id_candidate(b, (suffix - 1) as nat)));
        let mut next = base.clone();
        next.push('_');
        let d = decimal_chars(suffix as u128);
        extend_chars(&mut next, d.as_slice());
        assert(next@ =~= id_candidate(b, suffix as nat));
        candidate = next;
        suffix += 1;
    }
}

/// `content` with the first `<tag ...>...</tag>` section replaced.
pub open spec fn spec_replace_xml_section(content: Seq<char>, tag: Seq<char>, rep: Seq<char>) -> Option<Seq<char>> {
    let open_tag = seq!['<'] + tag;
    let close_tag = seq!['<', '/'] + tag + seq!['>'];
    match find(content, open_tag) {
        None => None,
        Some(s) => match find_from(content, close_tag, s) {
            None => None,
            Some(e) => Some(content.take(s) + rep + content.skip(e + close_tag.len())),
        },
    }
}

/// Where a found occurrence lies.
pub proof fn lemma_find_from_bounds(s: Seq<char>, p: Seq<char>, i: int)
    ensures
        find_from(s, p, i) matches Some(j) ==> i <= j && j + p.len() <= s.len()
            && crate::text::occurs_at(s, p, j),
    decreases s.len() + 1 - i,
{
    if !(i < 0 || i + p.len() > s.len()) && !crate::text::occurs_at(s, p, i) {
        lemma_find_from_bounds(s, p, i + 1);
    }
}

/// Replaces the first `<tag ...>...</tag>` section of `content`, keeping
/// everything around it; `None` when the section is not there.
pub fn replace_xml_section(content: &str, tag_name: &str, replacement: &str) -> (r: Option<String>)
    ensures
        match r {
            Some(s) => spec_replace_xml_section(content@, tag_name@, replacement@) == Some(s@),
            None => spec_replace_xml_section(content@, tag_name@, replacement@) is None,
        },
{
    let c = chars_of(content);
    let mut open_tag = vec!['<'];
    extend_str(&mut open_tag, tag_name);
    let mut close_tag = vec!['<', '/'];
    extend_str(&mut close_tag, tag_name);
    close_tag.push('>');
    assert(open_tag@ =~= seq!['<'] + tag_name@);
    assert(close_tag@ =~= seq!['<', '/'] + tag_name@ + seq!['>']);
    let start = match find_from_exec(c.as_slice(), open_tag.as_slice(), 0) {
        Some(s) => s,
        None => return None,
    };
    proof {
        lemma_find_from_bounds(c@, open_tag@, 0);
    }
    let end = match find_from_exec(c.as_slice(), close_tag.as_slice(), start) {
        Some(e) => e,
        None => return None,
    };
    proof {
        lemma_find_from_bounds(c@, close_tag@, start as int);
    }
    assert(end + close_tag@.len() <= c@.len());
    let clen = c.len();
    let after = end + close_tag.len();
    let mut out = slice_chars(c.as_slice(), 0, start);
    extend_str(&mut out, replacement);
    let tail = slice_chars(c.as_slice(), after, clen);
    extend_chars(&mut out, tail.as_slice());
    assert(tail@ =~= c@.skip(end + close_tag@.len()));
    Some(string_of(out.as_slice()))
}

/// The ` linear="yes"`/` linear="no"` attribute, if any.
pub open spec fn linear_attr(linear: Option<bool>) -> Seq<char> {
    match linear {
        Some(true) => " linear=\"yes\""@,
        Some(false) => " linear=\"no\""@,
        None => seq![],
    }
}

/// One `itemref` line of the spine.
pub open spec fn spine_item_line(r: StandardSpineItemref) -> Seq<char> {
    "    <itemref idref=\""@ + escape_xml_spec(r.idref@) + "\""@ + linear_attr(r.linear) + " />"@
}

/// The `itemref` lines of a spine, one per line.
pub open spec fn spine_lines(rs: Seq<StandardSpineItemref>) -> Seq<char> {
    join_with(rs.map_values(|r: StandardSpineItemref| spine_item_line(r)), seq!['\n'])
}

/// Appends the `itemref` lines of a spine, one per line.
pub fn push_spine_lines(out: &mut Vec<char>, spine: &StandardSpine)
    ensures
        final(out)@ == old(out)@ + spine_lines(spine.itemrefs@),
{
    let ghost base = out@;
    let ghost lines = spine.itemrefs@.map_values(|r: StandardSpineItemref| spine_item_line(r));
    let mut i: usize = 0;
    while i < spine.itemrefs.len()
        invariant
            i <= spine.itemrefs@.len(),
            lines == spine.itemrefs@.map_values(|r: StandardSpineItemref| spine_item_line(r)),
            out@ == base + join_with(lines.take(i as int), seq!['\n']),
        decreases spine.itemrefs@.len() - i,
    {
        proof {
            let t = lines.take(i + 1);
            assert(t.drop_last() =~= lines.take(i as int));
        }
        if i > 0 {
            out.push('\n');
        }
        let ghost before = out@;
        let r = &spine.itemrefs[i];
        extend_str(out, "    <itemref idref=\"");
        let idref = chars_of(r.idref.as_str());
        push_escaped(out, idref.as_slice());
        extend_str(out, "\"");
        match r.linear {
            Some(true) => extend_str(out, " linear=\"yes\""),
            Some(false) => extend_str(out, " linear=\"no\""),
            None => {},
        }
        extend_str(out, " />");
        proof {
            assert(out@ =~= before + spine_item_line(*r));
            let t = lines.take(i + 1);
            assert(out@ =~= base + join_with(t, seq!['\n']));
        }
        i += 1;
    }
    assert(lines.take(spine.itemrefs@.len() as int) =~= lines);
}

/// The spine section written into `content.opf` when the order changes.
pub open spec fn spec_render_spine(spine: StandardSpine) -> Seq<char> {
    "  <spine toc=\"ncx\">\n"@ + spine_lines(spine.itemrefs@) + "\n  </spine>"@
}

/// Renders the spine section of `content.opf`.
pub fn render_spine(spine: &StandardSpine) -> (r: String)
    ensures
        r@ == spec_render_spine(*spine),
{
    let mut out = chars_of("  <spine toc=\"ncx\">\n");
    push_spine_lines(&mut out, spine);
    extend_str(&mut out, "\n  </spine>");
    string_of(out.as_slice())
}

/// The ` properties="..."` attribute of an item, escaped, if it has any.
pub open spec fn escaped_properties_attr(p: Option<Vec<String>>) -> Seq<char> {
    match p {
        Some(v) => if v@.len() > 0 {
            " properties=\""@ + escape_xml_spec(
                join_with(v@.map_values(|x: String| x@), seq![' ']),
            ) + "\""@
        } else {
            seq![]
        },
        None => seq![],
    }
}

/// One `item` line of the manifest.
pub open spec fn spec_render_manifest_item(item: StandardManifestItem) -> Seq<char> {
    "    <item id=\""@ + escape_xml_spec(item.id@) + "\" href=\""@ + escape_xml_spec(item.href@)
        + "\" media-type=\""@ + escape_xml_spec(item.media_type@) + "\""@
        + escaped_properties_attr(item.properties) + " />"@
}

/// Renders one `item` line of the manifest.
pub fn render_manifest_item(item: &StandardManifestItem) -> (r: String)
    ensures
        r@ == spec_render_manifest_item(*item),
{
    let mut out = chars_of("    <item id=\"");
    let id = chars_of(item.id.as_str());
    push_escaped(&mut out, id.as_slice());
    extend_str(&mut out, "\" href=\"");
    let href = chars_of(item.href.as_str());
    push_escaped(&mut out, href.as_slice());
    extend_str(&mut out, "\" media-type=\"");
    let mt = chars_of(item.media_type.as_str());
    push_escaped(&mut out, mt.as_slice());
    extend_str(&mut out, "\"");
    let ghost before = out@;
    match &item.properties {
        Some(values) => {
            if values.len() > 0 {
                extend_str(&mut out, " properties=\"");
                let mut joined: Vec<char> = Vec::new();
                push_joined(&mut joined, values, " ");
                proof {
                    reveal_strlit(" ");
                    assert(" "@ =~= seq![' ']);
                }
                push_escaped(&mut out, joined.as_slice());
                extend_str(&mut out, "\"");
            }
        },
        None => {},
    }
    assert(out@ =~= before + escaped_properties_attr(item.properties));
    extend_str(&mut out, " />");
    string_of(out.as_slice())
}

/// `content` with `line` on a line of its own right after the opening
/// `<manifest ...>` tag; or the message telling why there is no such tag.
pub open spec fn spec_manifest_insertion(content: Seq<char>, line: Seq<char>) -> Result<Seq<char>, Seq<char>> {
    match find(content, "<manifest"@) {
        None => Err("content.opf 缺少 manifest 节点"@),
        Some(s) => match find_char_from(content, '>', s) {
            None => Err("manifest 起始标签不完整"@),
            Some(g) => Ok(content.take(g + 1) + seq!['\n'] + line + content.skip(g + 1)),
        },
    }
}

/// Whether some manifest item of `doc` has the href `href`.
pub open spec fn manifest_has_href(doc: OpfDocument, href: Seq<char>) -> bool {
    exists|i: int| 0 <= i < doc.manifest.items@.len() && #[trigger] doc.manifest.items@[i].href@ == href
}

/// Adds `item` to the manifest of `content`, read as `doc`: `None` when an
/// item with its href is listed already, else the new text with the item's
/// line right after the opening `<manifest ...>` tag.
pub fn manifest_item_insertion(content: &str, doc: &OpfDocument, item: &StandardManifestItem) -> (r: Result<Option<String>, RefactorError>)
    ensures
        manifest_has_href(*doc, item.href@) ==> r matches Ok(None),
        !manifest_has_href(*doc, item.href@) ==> match spec_manifest_insertion(content@, spec_render_manifest_item(*item)) {
            Ok(t) => r matches Ok(Some(x)) && x@ == t,
            Err(m) => r matches Err(RefactorError::InvalidStructure(msg)) && msg@ == m,
        },
{
    let href = chars_of(item.href.as_str());
    let mut i: usize = 0;
    while i < doc.manifest.items.len()
        invariant
            i <= doc.manifest.items@.len(),
            href@ == item.href@,
            forall|j: int| 0 <= j < i ==> doc.manifest.items@[j].href@ != item.href@,
        decreases doc.manifest.items@.len() - i,
    {
        let h = chars_of(doc.manifest.items[i].href.as_str());
        if crate::text::chars_eq(h.as_slice(), href.as_slice()) {
            assert(doc.manifest.items@[i as int].href@ == item.href@);
            return Ok(None);
        }
        i += 1;
    }
    assert(!manifest_has_href(*doc, item.href@));
    let c = chars_of(content);
    let start = match find_str_from(c.as_slice(), "<manifest", 0) {
        Some(s) => s,
        None => {
            return Err(RefactorError::InvalidStructure(string_of(chars_of("content.opf 缺少 manifest 节点").as_slice())));
        },
    };
    let gt = match find_char_exec(c.as_slice(), '>', start) {
        Some(g) => g,
        None => {
            return Err(RefactorError::InvalidStructure(string_of(chars_of("manifest 起始标签不完整").as_slice())));
        },
    };
    proof {
        lemma_find_char_bounds(c@, '>', start as int);
        assert(find_char_from(c@, '>', start as int) == Some(gt as int));
    }
    assert(gt < c.len());
    let insert_pos = gt + 1;
    let clen = c.len();
    let mut out = slice_chars(c.as_slice(), 0, insert_pos);
    out.push('\n');
    let line = render_manifest_item(item);
    extend_str(&mut out, line.as_str());
    let tail = slice_chars(c.as_slice(), insert_pos, clen);
    extend_chars(&mut out, tail.as_slice());
    assert(tail@ =~= c@.skip(insert_pos as int));
    assert(out@ =~= content@.take(insert_pos as int) + seq!['\n'] + spec_render_manifest_item(*item) + content@.skip(insert_pos as int));
    Ok(Some(string_of(out.as_slice())))
}

/// Adds `item` to the manifest of the `content.opf` text `content`: reads
/// it (identifier fallback `unknown`) and passes the error on, or leaves
/// it as it is (`None`) when an item with the same href is listed, or puts
/// the item's line right after the opening `<manifest ...>` tag.
pub fn append_manifest_item(content: &str, item: &StandardManifestItem) -> (r: Result<Option<String>, RefactorError>)
    ensures
        match spec_read_opf(xml_event_stream(content@).0, xml_event_stream(content@).1, "unknown"@) {
            Err(m) => r matches Err(RefactorError::XmlError(msg)) && msg@ == m,
            Ok(st) => if exists|i: int| 0 <= i < st.items.len() && #[trigger] st.items[i].href == item.href@ {
                r matches Ok(None)
            } else {
                match spec_manifest_insertion(content@, spec_render_manifest_item(*item)) {
                    Ok(t) => r matches Ok(Some(x)) && x@ == t,
                    Err(m) => r matches Err(RefactorError::InvalidStructure(msg)) && msg@ == m,
                }
            },
        },
{
    let doc = match parse_opf_document(content, "unknown") {
        Ok(d) => d,
        Err(e) => return Err(e),
    };
    let ghost st = spec_read_opf(xml_event_stream(content@).0, xml_event_stream(content@).1, "unknown"@)->Ok_0;
    proof {
        assert(crate::refactor::item_views(doc.manifest.items@) == st.items);
        if exists|i: int| 0 <= i < st.items.len() && #[trigger] st.items[i].href == item.href@ {
            let i = choose|i: int| 0 <= i < st.items.len() && #[trigger] st.items[i].href == item.href@;
            assert(crate::refactor::item_views(doc.manifest.items@)[i] == crate::refactor::item_view(doc.manifest.items@[i]));
            assert(doc.manifest.items@[i].href@ == item.href@);
        }
        if manifest_has_href(doc, item.href@) {
            let i = choose|i: int| 0 <= i < doc.manifest.items@.len() && #[trigger] doc.manifest.items@[i].href@ == item.href@;
            assert(crate::refactor::item_views(doc.manifest.items@)[i] == crate::refactor::item_view(doc.manifest.items@[i]));
            assert(st.items[i].href == item.href@);
        }
    }
    manifest_item_insertion(content, &doc, item)
}

} // verus!
