//! Reading `content.opf`: the XML events come from `quick_xml`; which
//! events make the metadata, the manifest and the spine is decided here.

use vstd::prelude::*;
use crate::models::{EpubMetadata, RefactorError, StandardManifest, StandardManifestItem, StandardSpine, StandardSpineItemref};
use crate::opf_document::OpfDocument;
use crate::refactor::{item_view, item_views, itemref_views, metadata_view, ItemView};
use crate::epub_path::string_views;
use crate::text::{chars_eq, chars_of, extend_chars, is_ws, is_ws_exec, string_of, trim, trim_chars};

verus! {

// ---------------------------------------------------------------------------
// XML events as values
// ---------------------------------------------------------------------------

/// A start or empty tag: its name and its attributes in order, up to and
/// including the first that could not be read.
pub struct XmlTag {
    pub name: String,
    pub attributes: Vec<Result<(String, String), String>>,
}

/// One event of an XML document: the raw text of names, attribute values
/// and text, as `String::from_utf8_lossy` gives it.
pub enum XmlEvent {
    Start(XmlTag),
    Empty(XmlTag),
    Text(String),
    End(String),
    Other,
}

/// The view of an attribute.
pub open spec fn attr_view(a: Result<(String, String), String>) -> Result<(Seq<char>, Seq<char>), Seq<char>> {
    match a {
        Ok(p) => Ok((p.0@, p.1@)),
        Err(e) => Err(e@),
    }
}

/// The views of attributes.
pub open spec fn attr_views(attrs: Seq<Result<(String, String), String>>) -> Seq<Result<(Seq<char>, Seq<char>), Seq<char>>> {
    attrs.map_values(|a: Result<(String, String), String>| attr_view(a))
}

/// The mathematical value of an XML event.
pub ghost enum XmlEventView {
    Start(Seq<char>, Seq<Result<(Seq<char>, Seq<char>), Seq<char>>>),
    Empty(Seq<char>, Seq<Result<(Seq<char>, Seq<char>), Seq<char>>>),
    Text(Seq<char>),
    End(Seq<char>),
    Other,
}

/// The view of an event.
pub open spec fn event_view(e: XmlEvent) -> XmlEventView {
    match e {
        XmlEvent::Start(t) => XmlEventView::Start(t.name@, attr_views(t.attributes@)),
        XmlEvent::Empty(t) => XmlEventView::Empty(t.name@, attr_views(t.attributes@)),
        XmlEvent::Text(s) => XmlEventView::Text(s@),
        XmlEvent::End(s) => XmlEventView::End(s@),
        XmlEvent::Other => XmlEventView::Other,
    }
}

/// The views of events.
pub open spec fn event_views(es: Seq<XmlEvent>) -> Seq<XmlEventView> {
    es.map_values(|e: XmlEvent| event_view(e))
}

/// The view of an optional string.
pub open spec fn opt_str(o: Option<String>) -> Option<Seq<char>> {
    match o {
        Some(s) => Some(s@),
        None => None,
    }
}

/// What `quick_xml` reads from `content` with text trimmed: the events up
/// to the end of the document or to the first error, and that error's
/// message.
pub uninterp spec fn xml_event_stream(content: Seq<char>) -> (Seq<XmlEventView>, Option<Seq<char>>);

#[verifier::external_type_specification]
#[verifier::external_body]
pub struct ExXmlEvent<'a>(quick_xml::events::Event<'a>);

#[verifier::external_type_specification]
#[verifier::external_body]
pub struct ExXmlStart<'a>(quick_xml::events::BytesStart<'a>);

/// `BytesStart::name` and `attributes().with_checks(false)` of a tag, as
/// text; nothing is stated of the tag, which Verus does not see into.
#[verifier::external_body]
fn xml_tag(tag: &quick_xml::events::BytesStart<'_>) -> (r: XmlTag) {
    let mut attributes = Vec::new();
    for attr in tag.attributes().with_checks(false) {
        match attr {
            Ok(a) => attributes.push(Ok((
                String::from_utf8_lossy(a.key.as_ref()).to_string(),
                String::from_utf8_lossy(a.value.as_ref()).to_string(),
            ))),
            Err(e) => {
                attributes.push(Err(e.to_string()));
                break;
            },
        }
    }
    XmlTag { name: String::from_utf8_lossy(tag.name().as_ref()).to_string(), attributes }
}

/// A `quick_xml` event as a value; nothing is stated of the event, which
/// Verus does not see into.
#[verifier::external_body]
fn xml_event(event: &quick_xml::events::Event<'_>) -> (r: XmlEvent) {
    match event {
        quick_xml::events::Event::Start(e) => XmlEvent::Start(xml_tag(e)),
        quick_xml::events::Event::Empty(e) => XmlEvent::Empty(xml_tag(e)),
        quick_xml::events::Event::Text(t) => XmlEvent::Text(String::from_utf8_lossy(t.as_ref()).to_string()),
        quick_xml::events::Event::End(e) => XmlEvent::End(String::from_utf8_lossy(e.name().as_ref()).to_string()),
        _ => XmlEvent::Other,
    }
}

/// `Reader::from_str` with `trim_text(true)`, and `read_event` until the end
/// of the document or the first error: the events and that error's
/// message. The events are named by `xml_event_stream`, a function of the
/// content alone.
#[verifier::external_body]
fn xml_events(content: &str) -> (r: (Vec<XmlEvent>, Option<String>))
    ensures
        (event_views(r.0@), opt_str(r.1)) == xml_event_stream(content@),
{
    let mut reader = quick_xml::Reader::from_str(content);
    reader.config_mut().trim_text(true);
    let mut events = Vec::new();
    loop {
        match reader.read_event() {
            Ok(quick_xml::events::Event::Eof) => return (events, None),
            Ok(event) => events.push(xml_event(&event)),
            Err(e) => return (events, Some(e.to_string())),
        }
    }
}

// ---------------------------------------------------------------------------
// Attributes
// ---------------------------------------------------------------------------

/// The white-space separated words of `s` (`str::split_whitespace`).
pub open spec fn words(s: Seq<char>) -> Seq<Seq<char>>
    decreases s.len(),
{
    if s.len() == 0 {
        seq![]
    } else {
        let w = words(s.drop_last());
        let c = s.last();
        if is_ws(c) {
            w
        } else if s.len() >= 2 && !is_ws(s[s.len() - 2]) && w.len() > 0 {
            w.update(w.len() - 1, w.last().push(c))
        } else {
            w.push(seq![c])
        }
    }
}

/// The white-space separated words of `s`.
pub(crate) fn split_words(s: &[char]) -> (r: Vec<String>)
    ensures
        string_views(r@) == words(s@),
{
    let mut out: Vec<String> = Vec::new();
    let mut cur: Vec<char> = Vec::new();
    let mut i: usize = 0;
    while i < s.len()
        invariant
            i <= s@.len(),
            cur@.len() > 0 ==> i > 0 && !is_ws(s@[i - 1]) && words(s@.take(i as int)).len() > 0,
            i > 0 && !is_ws(s@[i - 1]) ==> cur@.len() > 0,
            cur@.len() > 0 ==> string_views(out@).push(cur@) == words(s@.take(i as int)),
            cur@.len() == 0 ==> string_views(out@) == words(s@.take(i as int)),
        decreases s@.len() - i,
    {
        let c = s[i];
        proof {
            let t = s@.take(i + 1);
            assert(t.drop_last() =~= s@.take(i as int));
            assert(t.last() == c);
            if i > 0 {
                assert(t[t.len() - 2] == s@[i - 1]);
            }
        }
        if is_ws_exec(c) {
            if cur.len() > 0 {
                let ghost before = out@;
                out.push(string_of(cur.as_slice()));
                proof {
                    assert(string_views(out@) =~= string_views(before).push(cur@));
                }
                cur = Vec::new();
            }
        } else {
            let ghost old_cur = cur@;
            let ghost w = words(s@.take(i as int));
            cur.push(c);
            proof {
                if old_cur.len() > 0 {
                    assert(string_views(out@).push(old_cur) == w);
                    assert(string_views(out@).push(cur@) =~= w.update(w.len() - 1, w.last().push(c)));
                } else {
                    assert(cur@ =~= seq![c]);
                    assert(string_views(out@).push(cur@) =~= w.push(seq![c]));
                }
            }
        }
        i += 1;
    }
    if cur.len() > 0 {
        let ghost before = out@;
        out.push(string_of(cur.as_slice()));
        proof {
            assert(string_views(out@) =~= string_views(before).push(cur@));
        }
    }
    proof {
        assert(s@.take(s@.len() as int) =~= s@);
    }
    out
}

/// The value of the first attribute named `name`; the error of an
/// attribute that could not be read before it.
pub open spec fn attr_lookup(attrs: Seq<Result<(Seq<char>, Seq<char>), Seq<char>>>, name: Seq<char>) -> Result<Option<Seq<char>>, Seq<char>>
    decreases attrs.len(),
{
    if attrs.len() == 0 {
        Ok(None)
    } else {
        match attrs[0] {
            Err(e) => Err(e),
            Ok(p) => if p.0 == name {
                Ok(Some(p.1))
            } else {
                attr_lookup(attrs.drop_first(), name)
            },
        }
    }
}

/// The value of the first attribute named `name`.
fn attr_value(attrs: &Vec<Result<(String, String), String>>, name: &str) -> (r: Result<Option<String>, String>)
    ensures
        match r {
            Ok(v) => attr_lookup(attr_views(attrs@), name@) == Ok::<Option<Seq<char>>, Seq<char>>(opt_str(v)),
            Err(e) => attr_lookup(attr_views(attrs@), name@) == Err::<Option<Seq<char>>, Seq<char>>(e@),
        },
{
    let ghost av = attr_views(attrs@);
    let want = chars_of(name);
    let mut i: usize = 0;
    proof {
        assert(av.skip(0) =~= av);
    }
    while i < attrs.len()
        invariant
            i <= attrs@.len(),
            av == attr_views(attrs@),
            av.len() == attrs@.len(),
            want@ == name@,
            attr_lookup(av, name@) == attr_lookup(av.skip(i as int), name@),
        decreases attrs@.len() - i,
    {
        proof {
            assert(av.skip(i as int).drop_first() =~= av.skip(i + 1));
            assert(av.skip(i as int)[0] == av[i as int]);
        }
        match &attrs[i] {
            Err(e) => return Err(e.clone()),
            Ok(p) => {
                let k = chars_of(p.0.as_str());
                if chars_eq(k.as_slice(), want.as_slice()) {
                    return Ok(Some(p.1.clone()));
                }
            },
        }
        i += 1;
    }
    proof {
        assert(av.skip(i as int) =~= Seq::<Result<(Seq<char>, Seq<char>), Seq<char>>>::empty());
    }
    Ok(None)
}

// ---------------------------------------------------------------------------
// From events to the document
// ---------------------------------------------------------------------------

/// What has been read of the document so far: metadata as
/// `(title, author, language, identifier)`, manifest items, spine
/// references, and the metadata element being read.
#[verifier::ext_equal]
pub ghost struct OpfReadState {
    pub meta: (Seq<char>, Option<Seq<char>>, Option<Seq<char>>, Seq<char>),
    pub items: Seq<ItemView>,
    pub refs: Seq<(Seq<char>, Option<bool>)>,
    pub current: Option<Seq<char>>,
}

/// A metadata element whose text is read.
pub open spec fn is_metadata_tag(n: Seq<char>) -> bool {
    ||| n == "dc:identifier"@
    ||| n == "identifier"@
    ||| n == "dc:title"@
    ||| n == "title"@
    ||| n == "dc:creator"@
    ||| n == "creator"@
    ||| n == "dc:language"@
    ||| n == "language"@
}

/// An attribute's value, empty where it is missing.
pub open spec fn or_empty(o: Option<Seq<char>>) -> Seq<char> {
    match o {
        Some(v) => v,
        None => seq![],
    }
}

/// The manifest item of an `item` tag's attributes: none without an id or
/// an href; its properties are the words of a non-blank `properties`.
pub open spec fn manifest_item_of(attrs: Seq<Result<(Seq<char>, Seq<char>), Seq<char>>>) -> Result<Option<ItemView>, Seq<char>> {
    match attr_lookup(attrs, "id"@) {
        Err(e) => Err(e),
        Ok(id) => match attr_lookup(attrs, "href"@) {
            Err(e) => Err(e),
            Ok(href) => match attr_lookup(attrs, "media-type"@) {
                Err(e) => Err(e),
                Ok(mt) => match attr_lookup(attrs, "properties"@) {
                    Err(e) => Err(e),
                    Ok(props) => if or_empty(id).len() == 0 || or_empty(href).len() == 0 {
                        Ok(None)
                    } else {
                        Ok(
                            Some(
                                ItemView {
                                    id: or_empty(id),
                                    href: or_empty(href),
                                    media_type: or_empty(mt),
                                    properties: match props {
                                        Some(p) => if trim(p).len() == 0 {
                                            None
                                        } else {
                                            Some(words(p))
                                        },
                                        None => None,
                                    },
                                },
                            ),
                        )
                    },
                },
            },
        },
    }
}

/// The spine reference of an `itemref` tag's attributes: none without an
/// idref; `linear` is whether that attribute is anything but `no`.
pub open spec fn itemref_of(attrs: Seq<Result<(Seq<char>, Seq<char>), Seq<char>>>) -> Result<Option<(Seq<char>, Option<bool>)>, Seq<char>> {
    match attr_lookup(attrs, "idref"@) {
        Err(e) => Err(e),
        Ok(idref) => match attr_lookup(attrs, "linear"@) {
            Err(e) => Err(e),
            Ok(linear) => if or_empty(idref).len() == 0 {
                Ok(None)
            } else {
                Ok(
                    Some(
                        (
                            or_empty(idref),
                            match linear {
                                Some(v) => Some(v != "no"@),
                                None => None,
                            },
                        ),
                    ),
                )
            },
        },
    }
}

/// The effect of a start (`start`) or empty tag.
pub open spec fn tag_effect(st: OpfReadState, name: Seq<char>, attrs: Seq<Result<(Seq<char>, Seq<char>), Seq<char>>>, start: bool) -> Result<OpfReadState, Seq<char>> {
    if start && is_metadata_tag(name) {
        Ok(OpfReadState { current: Some(name), ..st })
    } else if name == "item"@ {
        match manifest_item_of(attrs) {
            Err(e) => Err(e),
            Ok(Some(it)) => Ok(OpfReadState { items: st.items.push(it), ..st }),
            Ok(None) => Ok(st),
        }
    } else if name == "itemref"@ {
        match itemref_of(attrs) {
            Err(e) => Err(e),
            Ok(Some(r)) => Ok(OpfReadState { refs: st.refs.push(r), ..st }),
            Ok(None) => Ok(st),
        }
    } else {
        Ok(st)
    }
}

/// The effect of text inside the metadata element being read: its trimmed
/// text, where not empty, becomes that field.
pub open spec fn text_effect(st: OpfReadState, text: Seq<char>) -> OpfReadState {
    let v = trim(text);
    match st.current {
        Some(t) => if v.len() == 0 {
            st
        } else if t == "dc:identifier"@ || t == "identifier"@ {
            OpfReadState { meta: (st.meta.0, st.meta.1, st.meta.2, v), ..st }
        } else if t == "dc:title"@ || t == "title"@ {
            OpfReadState { meta: (v, st.meta.1, st.meta.2, st.meta.3), ..st }
        } else if t == "dc:creator"@ || t == "creator"@ {
            OpfReadState { meta: (st.meta.0, Some(v), st.meta.2, st.meta.3), ..st }
        } else if t == "dc:language"@ || t == "language"@ {
            OpfReadState { meta: (st.meta.0, st.meta.1, Some(v), st.meta.3), ..st }
        } else {
            st
        },
        None => st,
    }
}

/// The effect of one event.
pub open spec fn event_effect(st: OpfReadState, e: XmlEventView) -> Result<OpfReadState, Seq<char>> {
    match e {
        XmlEventView::Start(n, a) => tag_effect(st, n, a, true),
        XmlEventView::Empty(n, a) => tag_effect(st, n, a, false),
        XmlEventView::Text(t) => Ok(text_effect(st, t)),
        XmlEventView::End(n) => if st.current == Some(n) {
            Ok(OpfReadState { current: None, ..st })
        } else {
            Ok(st)
        },
        XmlEventView::Other => Ok(st),
    }
}

/// The state after the events, starting from `init`; the error of the
/// first event that fails.
pub open spec fn read_events(init: OpfReadState, es: Seq<XmlEventView>) -> Result<OpfReadState, Seq<char>>
    decreases es.len(),
{
    if es.len() == 0 {
        Ok(init)
    } else {
        match read_events(init, es.drop_last()) {
            Err(e) => Err(e),
            Ok(st) => event_effect(st, es.last()),
        }
    }
}

/// Once an event fails, reading more events keeps its error.
proof fn lemma_read_error_stays(init: OpfReadState, es: Seq<XmlEventView>, n: int)
    requires
        0 <= n <= es.len(),
        read_events(init, es.take(n)) is Err,
    ensures
        read_events(init, es) == read_events(init, es.take(n)),
    decreases es.len() - n,
{
    if n < es.len() {
        assert(es.drop_last().take(n) =~= es.take(n));
        lemma_read_error_stays(init, es.drop_last(), n);
    } else {
        assert(es.take(n) =~= es);
    }
}

/// Nothing read yet: title and identifier are the fallback.
pub open spec fn initial_state(fallback: Seq<char>) -> OpfReadState {
    OpfReadState { meta: (fallback, None, None, fallback), items: seq![], refs: seq![], current: None }
}

/// The document read from the events and the read error: the error of the
/// first failing event, else the read error (as `解析 content.opf 失败: `
/// and its message), else the state after all events.
pub open spec fn spec_read_opf(es: Seq<XmlEventView>, read_error: Option<Seq<char>>, fallback: Seq<char>) -> Result<OpfReadState, Seq<char>> {
    match read_events(initial_state(fallback), es) {
        Err(e) => Err(e),
        Ok(st) => match read_error {
            Some(m) => Err("解析 content.opf 失败: "@ + m),
            None => Ok(st),
        },
    }
}

/// Whether a document holds what a read state says.
pub open spec fn document_is(doc: OpfDocument, st: OpfReadState) -> bool {
    &&& metadata_view(doc.metadata) == st.meta
    &&& item_views(doc.manifest.items@) == st.items
    &&& itemref_views(doc.spine.itemrefs@) == st.refs
}

/// Whether `m` holds the characters of the literal `lit`.
fn is_lit(m: &[char], lit: &str) -> (r: bool)
    ensures
        r == (m@ == lit@),
{
    let l = chars_of(lit);
    chars_eq(m, l.as_slice())
}

/// An attribute's value, empty where it is missing.
fn or_empty_string(o: Option<String>) -> (r: String)
    ensures
        r@ == or_empty(opt_str(o)),
{
    match o {
        Some(v) => v,
        None => String::new(),
    }
}

/// The manifest item of an `item` tag.
pub fn parse_manifest_item(tag: &XmlTag) -> (r: Result<Option<StandardManifestItem>, String>)
    ensures
        match r {
            Ok(Some(it)) => manifest_item_of(attr_views(tag.attributes@)) == Ok::<Option<ItemView>, Seq<char>>(
                Some(item_view(it)),
            ),
            Ok(None) => manifest_item_of(attr_views(tag.attributes@)) == Ok::<Option<ItemView>, Seq<char>>(None),
            Err(e) => manifest_item_of(attr_views(tag.attributes@)) == Err::<Option<ItemView>, Seq<char>>(e@),
        },
{
    let id = match attr_value(&tag.attributes, "id") {
        Ok(v) => or_empty_string(v),
        Err(e) => return Err(e),
    };
    let href = match attr_value(&tag.attributes, "href") {
        Ok(v) => or_empty_string(v),
        Err(e) => return Err(e),
    };
    let media_type = match attr_value(&tag.attributes, "media-type") {
        Ok(v) => or_empty_string(v),
        Err(e) => return Err(e),
    };
    let props = match attr_value(&tag.attributes, "properties") {
        Ok(v) => v,
        Err(e) => return Err(e),
    };
    let properties = match props {
        Some(p) => {
            let pc = chars_of(p.as_str());
            let t = trim_chars(pc.as_slice());
            if t.len() == 0 {
                None
            } else {
                Some(split_words(pc.as_slice()))
            }
        },
        None => None,
    };
    let idc = chars_of(id.as_str());
    let hc = chars_of(href.as_str());
    if idc.len() == 0 || hc.len() == 0 {
        return Ok(None);
    }
    let it = StandardManifestItem { id, href, media_type, properties };
    proof {
        assert(item_view(it) =~= manifest_item_of(attr_views(tag.attributes@))->Ok_0->Some_0);
    }
    Ok(Some(it))
}

/// The spine reference of an `itemref` tag.
pub fn parse_spine_itemref(tag: &XmlTag) -> (r: Result<Option<StandardSpineItemref>, String>)
    ensures
        match r {
            Ok(Some(it)) => itemref_of(attr_views(tag.attributes@)) == Ok::<Option<(Seq<char>, Option<bool>)>, Seq<char>>(
                Some((it.idref@, it.linear)),
            ),
            Ok(None) => itemref_of(attr_views(tag.attributes@)) == Ok::<Option<(Seq<char>, Option<bool>)>, Seq<char>>(None),
            Err(e) => itemref_of(attr_views(tag.attributes@)) == Err::<Option<(Seq<char>, Option<bool>)>, Seq<char>>(e@),
        },
{
    let idref = match attr_value(&tag.attributes, "idref") {
        Ok(v) => or_empty_string(v),
        Err(e) => return Err(e),
    };
    let linear = match attr_value(&tag.attributes, "linear") {
        Ok(Some(v)) => {
            let vc = chars_of(v.as_str());
            Some(!is_lit(vc.as_slice(), "no"))
        },
        Ok(None) => None,
        Err(e) => return Err(e),
    };
    let ic = chars_of(idref.as_str());
    if ic.len() == 0 {
        return Ok(None);
    }
    Ok(Some(StandardSpineItemref { idref, linear }))
}

/// What has been read so far, as values.
struct OpfReader {
    metadata: EpubMetadata,
    items: Vec<StandardManifestItem>,
    refs: Vec<StandardSpineItemref>,
    current: Option<String>,
}

/// The view of a reader.
spec fn reader_view(r: OpfReader) -> OpfReadState {
    OpfReadState {
        meta: metadata_view(r.metadata),
        items: item_views(r.items@),
        refs: itemref_views(r.refs@),
        current: opt_str(r.current),
    }
}

/// Whether a name is that of a metadata element whose text is read.
fn is_metadata_tag_exec(n: &[char]) -> (r: bool)
    ensures
        r == is_metadata_tag(n@),
{
    is_lit(n, "dc:identifier") || is_lit(n, "identifier") || is_lit(n, "dc:title") || is_lit(n, "title")
        || is_lit(n, "dc:creator") || is_lit(n, "creator") || is_lit(n, "dc:language") || is_lit(n, "language")
}

impl OpfReader {
    /// Takes a start (`start`) or empty tag.
    fn tag(&mut self, tag: &XmlTag, start: bool) -> (r: Result<(), String>)
        ensures
            match tag_effect(reader_view(*old(self)), tag.name@, attr_views(tag.attributes@), start) {
                Ok(st) => r is Ok && reader_view(*final(self)) == st,
                Err(e) => r matches Err(m) && m@ == e,
            },
    {
        let name = chars_of(tag.name.as_str());
        if start && is_metadata_tag_exec(name.as_slice()) {
            self.current = Some(tag.name.clone());
            proof {
                assert(reader_view(*self) =~= OpfReadState { current: Some(tag.name@), ..reader_view(*old(self)) });
            }
            Ok(())
        } else if is_lit(name.as_slice(), "item") {
            match parse_manifest_item(tag) {
                Err(e) => Err(e),
                Ok(Some(it)) => {
                    let ghost before = self.items@;
                    self.items.push(it);
                    proof {
                        assert(item_views(self.items@) =~= item_views(before).push(item_view(it)));
                    }
                    Ok(())
                },
                Ok(None) => Ok(()),
            }
        } else if is_lit(name.as_slice(), "itemref") {
            match parse_spine_itemref(tag) {
                Err(e) => Err(e),
                Ok(Some(it)) => {
                    let ghost before = self.refs@;
                    self.refs.push(it);
                    proof {
                        assert(itemref_views(self.refs@) =~= itemref_views(before).push((it.idref@, it.linear)));
                    }
                    Ok(())
                },
                Ok(None) => Ok(()),
            }
        } else {
            Ok(())
        }
    }

    /// Takes text.
    fn text(&mut self, text: &String)
        ensures
            reader_view(*final(self)) == text_effect(reader_view(*old(self)), text@),
    {
        let tc = chars_of(text.as_str());
        let v = trim_chars(tc.as_slice());
        let cur = match &self.current {
            Some(t) => chars_of(t.as_str()),
            None => return,
        };
        if v.len() == 0 {
            return;
        }
        let value = string_of(v.as_slice());
        let c = cur.as_slice();
        if is_lit(c, "dc:identifier") || is_lit(c, "identifier") {
            self.metadata.identifier = value;
        } else if is_lit(c, "dc:title") || is_lit(c, "title") {
            self.metadata.title = value;
        } else if is_lit(c, "dc:creator") || is_lit(c, "creator") {
            self.metadata.author = Some(value);
        } else if is_lit(c, "dc:language") || is_lit(c, "language") {
            self.metadata.language = Some(value);
        }
    }

    /// Takes an end tag.
    fn end(&mut self, name: &String)
        ensures
            reader_view(*final(self)) == (if reader_view(*old(self)).current == Some(name@) {
                OpfReadState { current: None, ..reader_view(*old(self)) }
            } else {
                reader_view(*old(self))
            }),
    {
        let same = match &self.current {
            Some(t) => {
                let tc = chars_of(t.as_str());
                let nc = chars_of(name.as_str());
                chars_eq(tc.as_slice(), nc.as_slice())
            },
            None => false,
        };
        if same {
            self.current = None;
        }
    }
}

/// The document read from XML events and the read error that ended them:
/// the error of the first tag whose attributes could not be read, else the
/// read error, else the metadata (title and identifier default to
/// `fallback_identifier`), manifest items and spine references the events
/// give.
pub fn parse_opf_events(events: &Vec<XmlEvent>, read_error: Option<String>, fallback_identifier: &str) -> (r: Result<OpfDocument, RefactorError>)
    ensures
        match r {
            Ok(doc) => spec_read_opf(event_views(events@), opt_str(read_error), fallback_identifier@) matches Ok(st)
                && document_is(doc, st),
            Err(e) => spec_read_opf(event_views(events@), opt_str(read_error), fallback_identifier@) matches Err(m)
                && e matches RefactorError::XmlError(msg) && msg@ == m,
        },
{
    let ghost ev = event_views(events@);
    let mut rd = OpfReader {
        metadata: EpubMetadata {
            title: fallback_identifier.to_string(),
            author: None,
            language: None,
            identifier: fallback_identifier.to_string(),
        },
        items: Vec::new(),
        refs: Vec::new(),
        current: None,
    };
    proof {
        assert(reader_view(rd) =~= initial_state(fallback_identifier@));
    }
    let mut i: usize = 0;
    while i < events.len()
        invariant
            i <= events@.len(),
            ev == event_views(events@),
            read_events(initial_state(fallback_identifier@), ev.take(i as int)) == Ok::<OpfReadState, Seq<char>>(
                reader_view(rd),
            ),
        decreases events@.len() - i,
    {
        proof {
            let t = ev.take(i + 1);
            assert(t.drop_last() =~= ev.take(i as int));
            assert(t.last() == event_view(events@[i as int]));
        }
        match &events[i] {
            XmlEvent::Start(tag) => {
                match rd.tag(tag, true) {
                    Ok(()) => {},
                    Err(e) => {
                        proof {
                            lemma_read_error_stays(initial_state(fallback_identifier@), ev, i + 1);
                        }
                        return Err(RefactorError::XmlError(e));
                    },
                }
            },
            XmlEvent::Empty(tag) => {
                match rd.tag(tag, false) {
                    Ok(()) => {},
                    Err(e) => {
                        proof {
                            lemma_read_error_stays(initial_state(fallback_identifier@), ev, i + 1);
                        }
                        return Err(RefactorError::XmlError(e));
                    },
                }
            },
            XmlEvent::Text(t) => rd.text(t),
            XmlEvent::End(n) => rd.end(n),
            XmlEvent::Other => {},
        }
        i += 1;
    }
    proof {
        assert(ev.take(events@.len() as int) =~= ev);
    }
    match read_error {
        Some(m) => {
            let mut msg = chars_of("解析 content.opf 失败: ");
            let mc = chars_of(m.as_str());
            extend_chars(&mut msg, mc.as_slice());
            Err(RefactorError::XmlError(string_of(msg.as_slice())))
        },
        None => Ok(
            OpfDocument {
                metadata: rd.metadata,
                manifest: StandardManifest { items: rd.items },
                spine: StandardSpine { itemrefs: rd.refs },
            },
        ),
    }
}

/// Reads `content.opf`: the document that `parse_opf_events` makes of the
/// XML events `quick_xml` reads from `content` (text trimmed).
pub fn parse_opf_document(content: &str, fallback_identifier: &str) -> (r: Result<OpfDocument, RefactorError>)
    ensures
        match r {
            Ok(doc) => spec_read_opf(xml_event_stream(content@).0, xml_event_stream(content@).1, fallback_identifier@) matches Ok(st)
                && document_is(doc, st),
            Err(e) => spec_read_opf(xml_event_stream(content@).0, xml_event_stream(content@).1, fallback_identifier@) matches Err(m)
                && e matches RefactorError::XmlError(msg) && msg@ == m,
        },
{
    let (events, read_error) = xml_events(content);
    parse_opf_events(&events, read_error, fallback_identifier)
}

} // verus!
