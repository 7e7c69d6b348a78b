//! The XML events the library's readers consume, as plain values: element
//! names and attribute keys as raw bytes, attribute values as decoded text
//! (or `None` when a value does not decode), and the stream's end or error.

use vstd::prelude::*;
use vstd::utf8::encode_utf8;
use quick_xml::events::Event;
use quick_xml::Reader;

verus! {

/// One attribute of an element.
#[derive(Debug, Clone)]
pub struct XmlAttr {
    /// The attribute's name.
    pub key: Vec<u8>,
    /// Its unescaped value, `None` when the value does not unescape.
    pub value: Option<String>,
}

/// An element's name and attributes, in document order.
#[derive(Debug, Clone, Default)]
pub struct XmlTag {
    /// The element name.
    pub name: Vec<u8>,
    /// Its attributes.
    pub attrs: Vec<XmlAttr>,
}

/// One event of an XML document.
#[derive(Debug, Clone)]
pub enum XmlEvent {
    /// An opening tag.
    Start(XmlTag),
    /// A self-closing tag.
    Empty(XmlTag),
    /// A closing tag, by name.
    End(Vec<u8>),
    /// Character data, unescaped.
    Text(String),
    /// Character data that does not unescape, with the reason.
    BadText(String),
    /// Anything else (declaration, comment, processing instruction, ...).
    Other,
    /// The end of the document.
    Eof,
    /// A hard XML error, with its message.
    Error(String),
}

/// The value of an attribute.
#[verifier::ext_equal]
pub struct AttrView {
    pub key: Seq<u8>,
    pub value: Option<Seq<char>>,
}

/// The value of an element tag.
#[verifier::ext_equal]
pub struct TagView {
    pub name: Seq<u8>,
    pub attrs: Seq<AttrView>,
}

/// The value of an event.
pub enum EventView {
    Start(TagView),
    Empty(TagView),
    End(Seq<u8>),
    Text(Seq<char>),
    BadText(Seq<char>),
    Other,
    Eof,
    Error(Seq<char>),
}

/// The kinds of the events quick-xml's `Reader` reads from a byte buffer, up
/// to and including `Eof` or the first hard error, with their contents left
/// blank: an opening, self-closing or closing tag with no name and no
/// attributes, a text run as empty `Text`, an error as an empty `Error`, and
/// any other event as `Other`.
pub uninterp spec fn xml_shapes(data: Seq<u8>) -> Seq<EventView>;

/// The text runs quick-xml's `Reader` reads from a byte buffer, in document
/// order until `Eof` or the first hard error: each run's unescaped text, or
/// `BadText` with the reason it does not unescape; then the hard error, if
/// the stream ends in one, with its message.
pub uninterp spec fn xml_texts(data: Seq<u8>) -> Seq<EventView>;

/// The tags quick-xml's `Reader` reads from a byte buffer, in document order
/// until `Eof` or the first hard error: each opening and self-closing tag's
/// name and attributes (each with its key and its value unescaped, `None`
/// when it does not unescape; attributes that do not parse are skipped),
/// and each closing tag's name with no attributes.
pub uninterp spec fn xml_tags(data: Seq<u8>) -> Seq<TagView>;

/// The kinds of the events of a byte buffer
/// (`quick_xml::Reader::read_event` until `Eof` or an error), named by
/// `xml_shapes`.
#[verifier::external_body]
fn read_shapes(data: &[u8]) -> (v: Vec<XmlEvent>)
    ensures
        events_view(v@) == xml_shapes(data@),
{
    let mut rd = Reader::from_reader(data);
    let mut out = vec![];
    while !matches!(out.last(), Some(XmlEvent::Eof | XmlEvent::Error(_))) {
        out.push(match rd.read_event() {
            Ok(Event::Start(_)) => XmlEvent::Start(XmlTag::default()),
            Ok(Event::Empty(_)) => XmlEvent::Empty(XmlTag::default()),
            Ok(Event::End(_)) => XmlEvent::End(vec![]),
            Ok(Event::Text(_)) => XmlEvent::Text(String::new()),
            Ok(Event::Eof) => XmlEvent::Eof,
            Err(_) => XmlEvent::Error(String::new()),
            _ => XmlEvent::Other,
        });
    }
    out
}

/// The text runs and the final error of a byte buffer
/// (`quick_xml::Reader::read_event` and `BytesText::unescape` until `Eof` or
/// an error), named by `xml_texts`.
#[verifier::external_body]
fn read_texts(data: &[u8]) -> (v: Vec<XmlEvent>)
    ensures
        events_view(v@) == xml_texts(data@),
{
    let (mut rd, mut out) = (Reader::from_reader(data), Vec::new());
    loop {
        match rd.read_event() {
            Ok(Event::Text(t)) => out.push(match t.unescape() {
                Ok(s) => XmlEvent::Text(s.into()),
                Err(e) => XmlEvent::BadText(e.to_string()),
            }),
            Ok(Event::Eof) => return out,
            Err(e) => return { out.push(XmlEvent::Error(e.to_string())); out },
            _ => {},
        }
    }
}

/// The tags of a byte buffer (`quick_xml::Reader::read_event` and
/// `BytesStart::attributes` until `Eof` or an error), named by `xml_tags`.
#[verifier::external_body]
fn read_tags(data: &[u8]) -> (v: Vec<XmlTag>)
    ensures
        tags_view(v@) == xml_tags(data@),
{
    let (mut rd, mut out) = (Reader::from_reader(data), Vec::new());
    loop {
        match rd.read_event() {
            Ok(Event::Start(e)) | Ok(Event::Empty(e)) => out.push(XmlTag { name: e.name().0.to_vec(), attrs: e.attributes().flatten().map(|a| XmlAttr { key: a.key.0.to_vec(), value: a.unescape_value().ok().map(|v| v.into()) }).collect() }),
            Ok(Event::End(e)) => out.push(XmlTag { name: e.name().0.to_vec(), attrs: Vec::new() }),
            Ok(Event::Eof) | Err(_) => return out,
            _ => {},
        }
    }
}

/// The blank tag of a stream past the end of its tags.
pub open spec fn blank_tag() -> TagView {
    TagView { name: Seq::empty(), attrs: Seq::empty() }
}

/// An event stream of blank kinds filled in: its `k`th tag (opening,
/// self-closing or closing; a closing tag takes only the name) from the
/// `k`th of `tags`, and its `m`th text run or error from the `m`th of
/// `texts` (a blank past the end of either stays blank).
pub open spec fn with_parts(shapes: Seq<EventView>, tags: Seq<TagView>, texts: Seq<EventView>, k: int, m: int) -> Seq<EventView>
    decreases shapes.len(),
{
    if shapes.len() == 0 {
        Seq::empty()
    } else {
        let tag = if 0 <= k < tags.len() { tags[k] } else { blank_tag() };
        let rest = shapes.drop_first();
        match shapes[0] {
            EventView::Start(_) => seq![EventView::Start(tag)] + with_parts(rest, tags, texts, k + 1, m),
            EventView::Empty(_) => seq![EventView::Empty(tag)] + with_parts(rest, tags, texts, k + 1, m),
            EventView::End(_) => seq![EventView::End(tag.name)] + with_parts(rest, tags, texts, k + 1, m),
            EventView::Text(t) => seq![if 0 <= m < texts.len() { texts[m] } else { EventView::Text(t) }]
                + with_parts(rest, tags, texts, k, m + 1),
            EventView::Error(t) => seq![if 0 <= m < texts.len() { texts[m] } else { EventView::Error(t) }]
                + with_parts(rest, tags, texts, k, m + 1),
            e => seq![e] + with_parts(rest, tags, texts, k, m),
        }
    }
}

/// What quick-xml's `Reader` makes of a byte buffer, event by event, as the
/// library's event values: tags with their attributes, text, and the end.
pub open spec fn xml_tokens(data: Seq<u8>) -> Seq<EventView> {
    with_parts(xml_shapes(data), xml_tags(data), xml_texts(data), 0, 0)
}

/// The text of an optional string.
pub open spec fn opt_text(o: Option<String>) -> Option<Seq<char>> {
    match o {
        Some(s) => Some(s@),
        None => None,
    }
}

impl View for XmlAttr {
    type V = AttrView;

    open spec fn view(&self) -> AttrView {
        AttrView { key: self.key@, value: opt_text(self.value) }
    }
}

impl View for XmlTag {
    type V = TagView;

    open spec fn view(&self) -> TagView {
        TagView { name: self.name@, attrs: self.attrs@.map_values(|a: XmlAttr| a@) }
    }
}

impl View for XmlEvent {
    type V = EventView;

    open spec fn view(&self) -> EventView {
        match self {
            XmlEvent::Start(t) => EventView::Start(t@),
            XmlEvent::Empty(t) => EventView::Empty(t@),
            XmlEvent::End(n) => EventView::End(n@),
            XmlEvent::Text(s) => EventView::Text(s@),
            XmlEvent::BadText(s) => EventView::BadText(s@),
            XmlEvent::Other => EventView::Other,
            XmlEvent::Eof => EventView::Eof,
            XmlEvent::Error(s) => EventView::Error(s@),
        }
    }
}

/// The values of a sequence of events.
pub open spec fn events_view(events: Seq<XmlEvent>) -> Seq<EventView> {
    events.map_values(|e: XmlEvent| e@)
}

/// The values of a sequence of tags.
pub open spec fn tags_view(tags: Seq<XmlTag>) -> Seq<TagView> {
    tags.map_values(|t: XmlTag| t@)
}

/// The bytes of an element or attribute name written as text.
pub open spec fn name_bytes(s: Seq<char>) -> Seq<u8> {
    encode_utf8(s)
}

/// The value of the first attribute called `key`, `None` when there is no
/// such attribute or its value does not unescape.
pub open spec fn attr_spec(attrs: Seq<AttrView>, key: Seq<u8>) -> Option<Seq<char>>
    decreases attrs.len(),
{
    if attrs.len() == 0 {
        None
    } else if attrs[0].key == key {
        attrs[0].value
    } else {
        attr_spec(attrs.drop_first(), key)
    }
}

/// Byte-string equality.
pub fn bytes_eq(a: &[u8], b: &[u8]) -> (r: bool)
    ensures
        r == (a@ == b@),
{
    if a.len() != b.len() {
        return false;
    }
    let mut k: usize = 0;
    while k < a.len()
        invariant
            0 <= k <= a@.len(),
            a@.len() == b@.len(),
            forall|j: int| 0 <= j < k ==> a@[j] == b@[j],
        decreases a.len() - k,
    {
        if a[k] != b[k] {
            return false;
        }
        k = k + 1;
    }
    proof {
        assert(a@ =~= b@);
    }
    true
}

/// Whether a name is the given literal name.
pub fn name_is(name: &[u8], lit: &str) -> (r: bool)
    ensures
        r == (name@ == name_bytes(lit@)),
{
    bytes_eq(name, lit.as_bytes())
}

/// The value of an element's attribute `key`, as `attr_spec` reads it.
pub fn attr(tag: &XmlTag, key: &str) -> (r: Option<String>)
    ensures
        opt_text(r) == attr_spec(tag@.attrs, name_bytes(key@)),
{
    let kb = key.as_bytes();
    let mut k: usize = 0;
    proof {
        assert(tag@.attrs.subrange(0, tag.attrs@.len() as int) =~= tag@.attrs);
    }
    while k < tag.attrs.len()
        invariant
            0 <= k <= tag.attrs@.len(),
            kb@ == name_bytes(key@),
            attr_spec(tag@.attrs, kb@) == attr_spec(tag@.attrs.subrange(k as int, tag.attrs@.len() as int), kb@),
        decreases tag.attrs.len() - k,
    {
        let ghost rest = tag@.attrs.subrange(k as int, tag.attrs@.len() as int);
        proof {
            assert(rest[0] == tag.attrs@[k as int]@);
            assert(rest.drop_first() =~= tag@.attrs.subrange(k + 1, tag.attrs@.len() as int));
        }
        if bytes_eq(tag.attrs[k].key.as_slice(), kb) {
            return tag.attrs[k].value.clone();
        }
        k = k + 1;
    }
    None
}

/// A copy of a byte string.
pub fn copy_bytes(b: &Vec<u8>) -> (r: Vec<u8>)
    ensures
        r@ == b@,
{
    let r = b.clone();
    proof {
        assert(r@ =~= b@);
    }
    r
}

/// A copy of an attribute.
pub fn clone_attr(a: &XmlAttr) -> (r: XmlAttr)
    ensures
        r@ == a@,
{
    XmlAttr { key: copy_bytes(&a.key), value: a.value.clone() }
}

/// A copy of a tag.
pub fn clone_tag(t: &XmlTag) -> (r: XmlTag)
    ensures
        r@ == t@,
{
    let mut attrs: Vec<XmlAttr> = Vec::new();
    let mut k: usize = 0;
    while k < t.attrs.len()
        invariant
            0 <= k <= t.attrs@.len(),
            attrs@.len() == k,
            forall|j: int| 0 <= j < k ==> #[trigger] attrs@[j]@ == t.attrs@[j]@,
        decreases t.attrs.len() - k,
    {
        attrs.push(clone_attr(&t.attrs[k]));
        k = k + 1;
    }
    let r = XmlTag { name: copy_bytes(&t.name), attrs };
    proof {
        assert(r@.attrs =~= t@.attrs);
    }
    r
}

proof fn lemma_with_parts_step(s: Seq<EventView>, tags: Seq<TagView>, texts: Seq<EventView>, i: int, k: int, m: int)
    requires
        0 <= i < s.len(),
    ensures
        with_parts(s.subrange(i, s.len() as int), tags, texts, k, m) == ({
            let tag = if 0 <= k < tags.len() { tags[k] } else { blank_tag() };
            let rest = s.subrange(i + 1, s.len() as int);
            match s[i] {
                EventView::Start(_) => seq![EventView::Start(tag)] + with_parts(rest, tags, texts, k + 1, m),
                EventView::Empty(_) => seq![EventView::Empty(tag)] + with_parts(rest, tags, texts, k + 1, m),
                EventView::End(_) => seq![EventView::End(tag.name)] + with_parts(rest, tags, texts, k + 1, m),
                EventView::Text(t) => seq![if 0 <= m < texts.len() { texts[m] } else { EventView::Text(t) }]
                    + with_parts(rest, tags, texts, k, m + 1),
                EventView::Error(t) => seq![if 0 <= m < texts.len() { texts[m] } else { EventView::Error(t) }]
                    + with_parts(rest, tags, texts, k, m + 1),
                e => seq![e] + with_parts(rest, tags, texts, k, m),
            }
        }),
{
    let t = s.subrange(i, s.len() as int);
    assert(t[0] == s[i]);
    assert(t.drop_first() =~= s.subrange(i + 1, s.len() as int));
}

fn clone_event(e: &XmlEvent) -> (r: XmlEvent)
    ensures
        r@ == e@,
{
    match e {
        XmlEvent::Start(t) => XmlEvent::Start(clone_tag(t)),
        XmlEvent::Empty(t) => XmlEvent::Empty(clone_tag(t)),
        XmlEvent::End(n) => XmlEvent::End(copy_bytes(n)),
        XmlEvent::Text(t) => XmlEvent::Text(t.clone()),
        XmlEvent::BadText(t) => XmlEvent::BadText(t.clone()),
        XmlEvent::Other => XmlEvent::Other,
        XmlEvent::Eof => XmlEvent::Eof,
        XmlEvent::Error(t) => XmlEvent::Error(t.clone()),
    }
}

/// The event stream of an XML byte buffer, tags with their names and
/// attributes, up to and including `Eof` or the first hard error.
pub(crate) fn tokenize(data: &[u8]) -> (v: Vec<XmlEvent>)
    ensures
        events_view(v@) == xml_tokens(data@),
{
    let shapes = read_shapes(data);
    let tags = read_tags(data);
    let texts = read_texts(data);
    let ghost sv = events_view(shapes@);
    let ghost tv = tags_view(tags@);
    let ghost xv = events_view(texts@);
    let mut out: Vec<XmlEvent> = Vec::new();
    let mut i: usize = 0;
    let mut k: usize = 0;
    let mut m: usize = 0;
    proof {
        assert(sv.subrange(0, sv.len() as int) =~= sv);
    }
    while i < shapes.len()
        invariant
            0 <= i <= shapes@.len(),
            k <= i,
            m <= i,
            sv == events_view(shapes@),
            tv == tags_view(tags@),
            xv == events_view(texts@),
            tv == xml_tags(data@),
            sv == xml_shapes(data@),
            xv == xml_texts(data@),
            events_view(out@) + with_parts(sv.subrange(i as int, sv.len() as int), tv, xv, k as int, m as int)
                == with_parts(sv, tv, xv, 0, 0),
        decreases shapes.len() - i,
    {
        proof {
            lemma_with_parts_step(sv, tv, xv, i as int, k as int, m as int);
        }
        let ghost before = events_view(out@);
        let tag = if k < tags.len() { clone_tag(&tags[k]) } else { XmlTag { name: Vec::new(), attrs: Vec::new() } };
        proof {
            if (k as int) < tv.len() {
                assert(tag@ == tv[k as int]);
            } else {
                assert(tag@ =~= blank_tag());
            }
        }
        match &shapes[i] {
            XmlEvent::Start(_) => {
                out.push(XmlEvent::Start(tag));
                k = k + 1;
            },
            XmlEvent::Empty(_) => {
                out.push(XmlEvent::Empty(tag));
                k = k + 1;
            },
            XmlEvent::End(_) => {
                out.push(XmlEvent::End(tag.name));
                k = k + 1;
            },
            XmlEvent::Text(_) | XmlEvent::Error(_) => {
                if m < texts.len() {
                    out.push(clone_event(&texts[m]));
                } else {
                    out.push(clone_event(&shapes[i]));
                }
                m = m + 1;
            },
            e => {
                out.push(clone_event(e));
            },
        }
        proof {
            assert(events_view(out@) =~= before.push(events_view(out@).last()));
        }
        i = i + 1;
    }
    proof {
        assert(sv.subrange(i as int, sv.len() as int) =~= Seq::<EventView>::empty());
        assert(events_view(out@) + Seq::<EventView>::empty() =~= events_view(out@));
    }
    out
}

} // verus!
