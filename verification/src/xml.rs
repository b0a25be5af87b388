//! Markup as a sequence of events: reading it, looking into its tags, and
//! writing it out again.

use crate::bytes::{append, bytes_equal, lemma_ascii_bytes};
use quick_xml::events::{BytesStart, Event};
use quick_xml::reader::Reader;
use vstd::prelude::*;
use vstd::utf8::encode_utf8;

verus! {

/// One attribute of a tag: its name and its raw value, without the quotes.
pub struct Attribute {
    pub key: Vec<u8>,
    pub value: Vec<u8>,
}

impl View for Attribute {
    type V = (Seq<u8>, Seq<u8>);

    open spec fn view(&self) -> (Seq<u8>, Seq<u8>) {
        (self.key@, self.value@)
    }
}

/// What can be told apart in the attributes of a tag: one entry for each
/// attribute in source order, `None` for one that is malformed.
pub open spec fn items_view(items: Seq<Option<Attribute>>) -> Seq<Option<(Seq<u8>, Seq<u8>)>> {
    items.map_values(
        |item: Option<Attribute>|
            match item {
                Some(attribute) => Some(attribute@),
                None => None,
            },
    )
}

/// A start tag or a self-closing tag.
pub struct Tag {
    /// The name of the element.
    pub name: Vec<u8>,
    /// The source text between the angle brackets, the name first, without the
    /// slash of a self-closing tag.
    pub content: Vec<u8>,
    /// The attributes in source order, `None` for one that is malformed.
    pub attributes: Vec<Option<Attribute>>,
}

/// The value of a [`Tag`].
pub struct TagView {
    pub name: Seq<u8>,
    pub content: Seq<u8>,
    pub attributes: Seq<Option<(Seq<u8>, Seq<u8>)>>,
}

impl View for Tag {
    type V = TagView;

    open spec fn view(&self) -> TagView {
        TagView {
            name: self.name@,
            content: self.content@,
            attributes: items_view(self.attributes@),
        }
    }
}

/// A piece of a marked-up document.
pub enum XmlEvent {
    Start(Tag),
    End(Vec<u8>),
    Empty(Tag),
    Text(Vec<u8>),
    CData(Vec<u8>),
    Comment(Vec<u8>),
    Decl(Vec<u8>),
    PI(Vec<u8>),
    DocType(Vec<u8>),
}

/// The value of an [`XmlEvent`].
pub enum XmlEventView {
    Start(TagView),
    End(Seq<u8>),
    Empty(TagView),
    Text(Seq<u8>),
    CData(Seq<u8>),
    Comment(Seq<u8>),
    Decl(Seq<u8>),
    PI(Seq<u8>),
    DocType(Seq<u8>),
}

impl View for XmlEvent {
    type V = XmlEventView;

    open spec fn view(&self) -> XmlEventView {
        match *self {
            XmlEvent::Start(tag) => XmlEventView::Start(tag@),
            XmlEvent::End(bytes) => XmlEventView::End(bytes@),
            XmlEvent::Empty(tag) => XmlEventView::Empty(tag@),
            XmlEvent::Text(bytes) => XmlEventView::Text(bytes@),
            XmlEvent::CData(bytes) => XmlEventView::CData(bytes@),
            XmlEvent::Comment(bytes) => XmlEventView::Comment(bytes@),
            XmlEvent::Decl(bytes) => XmlEventView::Decl(bytes@),
            XmlEvent::PI(bytes) => XmlEventView::PI(bytes@),
            XmlEvent::DocType(bytes) => XmlEventView::DocType(bytes@),
        }
    }
}

/// What reading a document comes to: the events up to its end, or up to the
/// first error.
pub struct Document {
    pub events: Seq<XmlEventView>,
    pub error: Option<quick_xml::Error>,
}

#[verifier::external_type_specification]
#[verifier::external_body]
#[verifier::reject_recursive_types(R)]
pub struct ExReader<R>(quick_xml::reader::Reader<R>);

#[verifier::external_type_specification]
#[verifier::external_body]
pub struct ExBytesStart<'a>(quick_xml::events::BytesStart<'a>);

#[verifier::external_type_specification]
#[verifier::external_body]
pub struct ExXmlError(quick_xml::Error);

/// What `quick_xml` reads out of a whole text, with white space around text
/// removed.
pub uninterp spec fn document(markup: Seq<u8>) -> Document;

/// What a reader has still to deliver.
pub uninterp spec fn pending(reader: Reader<&[u8]>) -> Document;

/// The name, the source text and the attributes that a tag of `quick_xml` holds.
pub uninterp spec fn tag_of(start: BytesStart<'static>) -> TagView;

/// Calls `Reader::from_reader` and switches on the trimming of text. The
/// reader starts at the beginning of the text.
#[verifier::external_body]
fn open_markup(markup: &[u8]) -> (reader: Reader<&[u8]>)
    ensures
        pending(reader) == document(markup@),
{
    let mut reader = Reader::from_reader(markup);
    reader.config_mut().trim_text(true);
    reader
}

/// A piece of a document as `quick_xml` hands it out, its tag still unread.
enum RawEvent {
    Start(BytesStart<'static>),
    End(Vec<u8>),
    Empty(BytesStart<'static>),
    Text(Vec<u8>),
    CData(Vec<u8>),
    Comment(Vec<u8>),
    Decl(Vec<u8>),
    PI(Vec<u8>),
    DocType(Vec<u8>),
    Eof,
}

/// The event that a piece stands for, `None` at the end of the document.
spec fn raw_view(event: RawEvent) -> Option<XmlEventView> {
    match event {
        RawEvent::Start(tag) => Some(XmlEventView::Start(tag_of(tag))),
        RawEvent::End(bytes) => Some(XmlEventView::End(bytes@)),
        RawEvent::Empty(tag) => Some(XmlEventView::Empty(tag_of(tag))),
        RawEvent::Text(bytes) => Some(XmlEventView::Text(bytes@)),
        RawEvent::CData(bytes) => Some(XmlEventView::CData(bytes@)),
        RawEvent::Comment(bytes) => Some(XmlEventView::Comment(bytes@)),
        RawEvent::Decl(bytes) => Some(XmlEventView::Decl(bytes@)),
        RawEvent::PI(bytes) => Some(XmlEventView::PI(bytes@)),
        RawEvent::DocType(bytes) => Some(XmlEventView::DocType(bytes@)),
        RawEvent::Eof => None,
    }
}

/// Calls `Reader::read_event_into`. It delivers the events one after the
/// other, then the end of the text for good, and an error where the text is not
/// well-formed.
#[verifier::external_body]
fn read_event(reader: &mut Reader<&[u8]>) -> (next: Result<RawEvent, quick_xml::Error>)
    ensures
        match next {
            Ok(event) => match raw_view(event) {
                Some(event) => {
                    &&& pending(*old(reader)).events.len() > 0
                    &&& event == pending(*old(reader)).events[0]
                    &&& pending(*final(reader)).events == pending(*old(reader)).events.drop_first()
                    &&& pending(*final(reader)).error == pending(*old(reader)).error
                },
                None => {
                    &&& pending(*old(reader)).events.len() == 0
                    &&& pending(*old(reader)).error is None
                    &&& pending(*final(reader)) == pending(*old(reader))
                },
            },
            Err(error) => pending(*old(reader)).events.len() == 0 && pending(*old(reader)).error
                == Some(error),
        },
{
    let mut buffer = Vec::new();
    let event = reader.read_event_into(&mut buffer)?;
    let content = event.to_vec();
    Ok(match event {
        Event::Start(tag) => RawEvent::Start(tag.into_owned()),
        Event::End(_) => RawEvent::End(content),
        Event::Empty(tag) => RawEvent::Empty(tag.into_owned()),
        Event::Text(_) => RawEvent::Text(content),
        Event::CData(_) => RawEvent::CData(content),
        Event::Comment(_) => RawEvent::Comment(content),
        Event::Decl(_) => RawEvent::Decl(content),
        Event::PI(_) => RawEvent::PI(content),
        Event::DocType(_) => RawEvent::DocType(content),
        Event::Eof => RawEvent::Eof,
    })
}

/// Calls `BytesStart::attributes` with the check for duplicates switched off,
/// and hands out the tag's name, its source text and what the iterator yields.
#[verifier::external_body]
fn read_tag(start: &BytesStart<'static>) -> (tag: Tag)
    ensures
        tag@ == tag_of(*start),
{
    Tag {
        name: start.name().0.to_vec(),
        content: start.to_vec(),
        attributes: start
            .attributes()
            .with_checks(false)
            .map(|item| item.ok())
            .map(|item| {
                item.map(|a| Attribute { key: a.key.0.to_vec(), value: a.value.to_vec() })
            })
            .collect(),
    }
}

/// A document that is being read from its beginning to its end.
pub struct Markup<'a> {
    reader: Reader<&'a [u8]>,
}

impl<'a> Markup<'a> {
    /// What is left of the document.
    pub closed spec fn rest(&self) -> Document {
        pending(self.reader)
    }

    /// Starts to read a document. White space around text is left out.
    pub fn open(markup: &'a [u8]) -> (opened: Self)
        ensures
            opened.rest() == document(markup@),
    {
        Markup { reader: open_markup(markup) }
    }

    /// The next event, or `None` at the end of the document.
    pub fn next_event(&mut self) -> (next: Result<Option<XmlEvent>, quick_xml::Error>)
        ensures
            match next {
                Ok(Some(event)) => {
                    &&& old(self).rest().events.len() > 0
                    &&& event@ == old(self).rest().events[0]
                    &&& final(self).rest().events == old(self).rest().events.drop_first()
                    &&& final(self).rest().error == old(self).rest().error
                },
                Ok(None) => {
                    &&& old(self).rest().events.len() == 0
                    &&& old(self).rest().error is None
                    &&& final(self).rest() == old(self).rest()
                },
                Err(error) => old(self).rest().events.len() == 0 && old(self).rest().error == Some(
                    error,
                ),
            },
    {
        let raw = match read_event(&mut self.reader) {
            Ok(raw) => raw,
            Err(error) => return Err(error),
        };
        Ok(
            match raw {
                RawEvent::Start(tag) => Some(XmlEvent::Start(read_tag(&tag))),
                RawEvent::End(bytes) => Some(XmlEvent::End(bytes)),
                RawEvent::Empty(tag) => Some(XmlEvent::Empty(read_tag(&tag))),
                RawEvent::Text(bytes) => Some(XmlEvent::Text(bytes)),
                RawEvent::CData(bytes) => Some(XmlEvent::CData(bytes)),
                RawEvent::Comment(bytes) => Some(XmlEvent::Comment(bytes)),
                RawEvent::Decl(bytes) => Some(XmlEvent::Decl(bytes)),
                RawEvent::PI(bytes) => Some(XmlEvent::PI(bytes)),
                RawEvent::DocType(bytes) => Some(XmlEvent::DocType(bytes)),
                RawEvent::Eof => None,
            },
        )
    }
}

/// The text of an event in a document.
pub open spec fn markup_of(event: XmlEventView) -> Seq<u8> {
    match event {
        XmlEventView::Start(tag) => encode_utf8("<"@) + tag.content + encode_utf8(">"@),
        XmlEventView::End(bytes) => encode_utf8("</"@) + bytes + encode_utf8(">"@),
        XmlEventView::Empty(tag) => empty_markup(tag.content),
        XmlEventView::Text(bytes) => bytes,
        XmlEventView::CData(bytes) => encode_utf8("<![CDATA["@) + bytes + encode_utf8("]]>"@),
        XmlEventView::Comment(bytes) => encode_utf8("<!--"@) + bytes + encode_utf8("-->"@),
        XmlEventView::Decl(bytes) => encode_utf8("<?"@) + bytes + encode_utf8("?>"@),
        XmlEventView::PI(bytes) => encode_utf8("<?"@) + bytes + encode_utf8("?>"@),
        XmlEventView::DocType(bytes) => encode_utf8("<!DOCTYPE "@) + bytes + encode_utf8(">"@),
    }
}

/// The text of a self-closing tag.
pub open spec fn empty_markup(content: Seq<u8>) -> Seq<u8> {
    encode_utf8("<"@) + content + encode_utf8("/>"@)
}

/// The text of events that follow one another.
pub open spec fn events_markup(events: Seq<XmlEventView>) -> Seq<u8>
    decreases events.len(),
{
    if events.len() == 0 {
        Seq::empty()
    } else {
        events_markup(events.drop_last()) + markup_of(events.last())
    }
}

/// Writes `before`, `content` and `after`, in this order.
fn write_wrapped(out: &mut Vec<u8>, before: &str, content: &[u8], after: &str)
    ensures
        final(out)@ == old(out)@ + (encode_utf8(before@) + content@ + encode_utf8(after@)),
{
    append(out, before.as_bytes());
    append(out, content);
    append(out, after.as_bytes());
    assert(out@ =~= old(out)@ + (encode_utf8(before@) + content@ + encode_utf8(after@)));
}

/// Writes an event at the end of a document, as it stood in the one it was
/// read from.
pub fn write_event(out: &mut Vec<u8>, event: &XmlEvent)
    ensures
        final(out)@ == old(out)@ + markup_of(event@),
{
    match event {
        XmlEvent::Start(tag) => write_wrapped(out, "<", &tag.content, ">"),
        XmlEvent::End(bytes) => write_wrapped(out, "</", bytes, ">"),
        XmlEvent::Empty(tag) => write_empty(out, &tag.content),
        XmlEvent::Text(bytes) => append(out, bytes),
        XmlEvent::CData(bytes) => write_wrapped(out, "<![CDATA[", bytes, "]]>"),
        XmlEvent::Comment(bytes) => write_wrapped(out, "<!--", bytes, "-->"),
        XmlEvent::Decl(bytes) => write_wrapped(out, "<?", bytes, "?>"),
        XmlEvent::PI(bytes) => write_wrapped(out, "<?", bytes, "?>"),
        XmlEvent::DocType(bytes) => write_wrapped(out, "<!DOCTYPE ", bytes, ">"),
    }
}

/// Writes a self-closing tag at the end of a document.
pub fn write_empty(out: &mut Vec<u8>, content: &[u8])
    ensures
        final(out)@ == old(out)@ + empty_markup(content@),
{
    write_wrapped(out, "<", content, "/>");
}

/// The text of an attribute in a tag, with the space that sets it off.
pub open spec fn attribute_markup(key: Seq<u8>, value: Seq<u8>) -> Seq<u8> {
    encode_utf8(" "@) + key + encode_utf8("=\""@) + value + encode_utf8("\""@)
}

/// The text of attributes that follow one another in a tag.
pub open spec fn attributes_markup(attributes: Seq<(Seq<u8>, Seq<u8>)>) -> Seq<u8>
    decreases attributes.len(),
{
    if attributes.len() == 0 {
        Seq::empty()
    } else {
        attributes_markup(attributes.drop_last()) + attribute_markup(
            attributes.last().0,
            attributes.last().1,
        )
    }
}

/// Adds an attribute to the text of a tag. The value stands there as it is.
pub fn push_attribute(content: &mut Vec<u8>, key: &[u8], value: &[u8])
    ensures
        final(content)@ == old(content)@ + attribute_markup(key@, value@),
{
    append(content, " ".as_bytes());
    append(content, key);
    append(content, "=\"".as_bytes());
    append(content, value);
    append(content, "\"".as_bytes());
    assert(content@ =~= old(content)@ + attribute_markup(key@, value@));
}

/// What a search for an attribute finds.
pub enum Lookup<T> {
    /// The value of the first attribute of that name.
    Found(T),
    /// There is no attribute of that name.
    Absent,
    /// A malformed attribute stands before any of that name.
    Malformed,
}

/// What a search for the first attribute called `key` finds, when it stops at
/// a malformed one.
pub open spec fn lookup(
    attributes: Seq<Option<(Seq<u8>, Seq<u8>)>>,
    key: Seq<u8>,
) -> Lookup<Seq<u8>>
    decreases attributes.len(),
{
    if attributes.len() == 0 {
        Lookup::Absent
    } else {
        match attributes[0] {
            None => Lookup::Malformed,
            Some(attribute) => if attribute.0 == key {
                Lookup::Found(attribute.1)
            } else {
                lookup(attributes.drop_first(), key)
            },
        }
    }
}

impl Tag {
    /// Searches for the first attribute called `key`, up to the first one that
    /// is malformed.
    pub fn attribute(&self, key: &str) -> (found: Lookup<&Vec<u8>>)
        ensures
            match found {
                Lookup::Found(value) => lookup(self@.attributes, encode_utf8(key@))
                    == Lookup::Found(value@),
                Lookup::Absent => lookup(self@.attributes, encode_utf8(key@)) is Absent,
                Lookup::Malformed => lookup(self@.attributes, encode_utf8(key@)) is Malformed,
            },
    {
        let name = key.as_bytes();
        let ghost all = self@.attributes;
        let mut at: usize = 0;
        assert(all.skip(0) =~= all);
        while at < self.attributes.len()
            invariant
                at <= self.attributes.len(),
                all == self@.attributes,
                name@ == encode_utf8(key@),
                lookup(all, name@) == lookup(all.skip(at as int), name@),
            decreases self.attributes.len() - at,
        {
            assert(all.skip(at as int)[0] == all[at as int]);
            assert(all.skip(at as int).drop_first() =~= all.skip(at + 1));
            match &self.attributes[at] {
                None => return Lookup::Malformed,
                Some(attribute) => {
                    if bytes_equal(&attribute.key, name) {
                        return Lookup::Found(&attribute.value);
                    }
                },
            }
            at += 1;
        }
        Lookup::Absent
    }
}

/// Whether the first attribute of a name has that value, and none before it is
/// malformed.
pub open spec fn has_first(
    attributes: Seq<Option<(Seq<u8>, Seq<u8>)>>,
    key: Seq<u8>,
    value: Seq<u8>,
) -> bool {
    exists|at: int|
        {
            &&& 0 <= at < attributes.len()
            &&& #[trigger] attributes[at] == Some((key, value))
            &&& are_others(attributes.take(at), key)
        }
}

/// Whether attributes are all well-formed and have other names.
pub open spec fn are_others(
    attributes: Seq<Option<(Seq<u8>, Seq<u8>)>>,
    key: Seq<u8>,
) -> bool {
    forall|i: int|
        0 <= i < attributes.len() ==> (#[trigger] attributes[i] matches Some((other, _)) && other
            != key)
}

/// Whether a malformed attribute stands before any of that name.
pub open spec fn breaks_before(
    attributes: Seq<Option<(Seq<u8>, Seq<u8>)>>,
    key: Seq<u8>,
) -> bool {
    exists|at: int|
        {
            &&& 0 <= at < attributes.len()
            &&& #[trigger] attributes[at] is None
            &&& are_others(attributes.take(at), key)
        }
}

#[verifier::rlimit(5)]
proof fn lemma_lookup_passes_others(
    attributes: Seq<Option<(Seq<u8>, Seq<u8>)>>,
    key: Seq<u8>,
    count: int,
)
    requires
        0 <= count <= attributes.len(),
        are_others(attributes.take(count), key),
    ensures
        lookup(attributes, key) == lookup(attributes.skip(count), key),
    decreases count,
{
    if count == 0 {
        assert(attributes.skip(0) =~= attributes);
    } else {
        let rest = attributes.drop_first();
        assert(attributes.take(count)[0] == attributes[0]);
        assert forall|i: int| 0 <= i < rest.take(count - 1).len() implies (
        #[trigger] rest.take(count - 1)[i] matches Some((other, _)) && other != key) by {
            assert(rest.take(count - 1)[i] == attributes.take(count)[i + 1]);
        }
        lemma_lookup_passes_others(rest, key, count - 1);
        assert(rest.skip(count - 1) =~= attributes.skip(count));
    }
}

/// A search finds the value of the first attribute of the name, nothing where all
/// attributes are well-formed and have other names, and stops at a malformed one.
#[verifier::rlimit(5)]
pub proof fn law_search_finds_the_first(
    attributes: Seq<Option<(Seq<u8>, Seq<u8>)>>,
    key: Seq<u8>,
    value: Seq<u8>,
)
    ensures
        has_first(attributes, key, value) ==> lookup(attributes, key) == Lookup::Found(value),
        are_others(attributes, key) ==> lookup(attributes, key) is Absent,
        breaks_before(attributes, key) ==> lookup(attributes, key) is Malformed,
{
    if has_first(attributes, key, value) {
        let at = choose|at: int|
            {
                &&& 0 <= at < attributes.len()
                &&& #[trigger] attributes[at] == Some((key, value))
                &&& are_others(attributes.take(at), key)
            };
        lemma_lookup_passes_others(attributes, key, at);
        assert(attributes.skip(at)[0] == attributes[at]);
    }
    if are_others(attributes, key) {
        assert(attributes.take(attributes.len() as int) =~= attributes);
        lemma_lookup_passes_others(attributes, key, attributes.len() as int);
    }
    if breaks_before(attributes, key) {
        let at = choose|at: int|
            {
                &&& 0 <= at < attributes.len()
                &&& #[trigger] attributes[at] is None
                &&& are_others(attributes.take(at), key)
            };
        lemma_lookup_passes_others(attributes, key, at);
        assert(attributes.skip(at)[0] == attributes[at]);
    }
}

/// An event is written with its bytes unchanged, between the signs of its kind: the
/// angle brackets of tags, and nothing around text.
#[verifier::rlimit(10)]
pub proof fn law_events_are_written_unchanged(event: XmlEventView)
    ensures
        match event {
            XmlEventView::Start(tag) => markup_of(event) == seq![0x3cu8] + tag.content + seq![
                0x3eu8,
            ],
            XmlEventView::End(bytes) => markup_of(event) == seq![0x3cu8, 0x2f] + bytes + seq![
                0x3eu8,
            ],
            XmlEventView::Empty(tag) => markup_of(event) == seq![0x3cu8] + tag.content + seq![
                0x2fu8,
                0x3e,
            ],
            XmlEventView::Text(bytes) => markup_of(event) == bytes,
            XmlEventView::CData(bytes) => markup_of(event) == seq![
                0x3cu8,
                0x21,
                0x5b,
                0x43,
                0x44,
                0x41,
                0x54,
                0x41,
                0x5b,
            ] + bytes + seq![0x5du8, 0x5d, 0x3e],
            XmlEventView::Comment(bytes) => markup_of(event) == seq![0x3cu8, 0x21, 0x2d, 0x2d]
                + bytes + seq![0x2du8, 0x2d, 0x3e],
            XmlEventView::Decl(bytes) => markup_of(event) == seq![0x3cu8, 0x3f] + bytes + seq![
                0x3fu8,
                0x3e,
            ],
            XmlEventView::PI(bytes) => markup_of(event) == seq![0x3cu8, 0x3f] + bytes + seq![
                0x3fu8,
                0x3e,
            ],
            XmlEventView::DocType(bytes) => markup_of(event) == seq![
                0x3cu8,
                0x21,
                0x44,
                0x4f,
                0x43,
                0x54,
                0x59,
                0x50,
                0x45,
                0x20,
            ] + bytes + seq![0x3eu8],
        },
{
    lemma_bracket_bytes();
    reveal_strlit("<![CDATA[");
    reveal_strlit("]]>");
    reveal_strlit("<!--");
    reveal_strlit("-->");
    reveal_strlit("<?");
    reveal_strlit("?>");
    reveal_strlit("<!DOCTYPE ");
    lemma_ascii_bytes(
        "<![CDATA["@,
        seq![0x3cu8, 0x21, 0x5b, 0x43, 0x44, 0x41, 0x54, 0x41, 0x5b],
    );
    lemma_ascii_bytes("]]>"@, seq![0x5du8, 0x5d, 0x3e]);
    lemma_ascii_bytes("<!--"@, seq![0x3cu8, 0x21, 0x2d, 0x2d]);
    lemma_ascii_bytes("-->"@, seq![0x2du8, 0x2d, 0x3e]);
    lemma_ascii_bytes("<?"@, seq![0x3cu8, 0x3f]);
    lemma_ascii_bytes("?>"@, seq![0x3fu8, 0x3e]);
    lemma_ascii_bytes(
        "<!DOCTYPE "@,
        seq![0x3cu8, 0x21, 0x44, 0x4f, 0x43, 0x54, 0x59, 0x50, 0x45, 0x20],
    );
}

/// The bytes of the brackets of tags.
#[verifier::rlimit(5)]
pub proof fn lemma_bracket_bytes()
    ensures
        encode_utf8("<"@) == seq![0x3cu8],
        encode_utf8("</"@) == seq![0x3cu8, 0x2f],
        encode_utf8(">"@) == seq![0x3eu8],
        encode_utf8("/>"@) == seq![0x2fu8, 0x3e],
{
    reveal_strlit("<");
    reveal_strlit("</");
    reveal_strlit(">");
    reveal_strlit("/>");
    lemma_ascii_bytes("<"@, seq![0x3cu8]);
    lemma_ascii_bytes("</"@, seq![0x3cu8, 0x2f]);
    lemma_ascii_bytes(">"@, seq![0x3eu8]);
    lemma_ascii_bytes("/>"@, seq![0x2fu8, 0x3e]);
}

/// A self-closing tag is written between its brackets, and an attribute behind a
/// blank, with its name, an equals sign, and its value unchanged in double quotes.
/// Attributes are written one after the other.
#[verifier::rlimit(5)]
pub proof fn law_attributes_are_written_unchanged(
    content: Seq<u8>,
    attributes: Seq<(Seq<u8>, Seq<u8>)>,
    key: Seq<u8>,
    value: Seq<u8>,
)
    ensures
        empty_markup(content) == seq![0x3cu8] + content + seq![0x2fu8, 0x3e],
        attribute_markup(key, value) == seq![0x20u8] + key + seq![0x3du8, 0x22] + value + seq![
            0x22u8,
        ],
        attributes_markup(Seq::empty()) == Seq::<u8>::empty(),
        attributes_markup(attributes.push((key, value))) == attributes_markup(attributes) + seq![
            0x20u8,
        ] + key + seq![0x3du8, 0x22] + value + seq![0x22u8],
{
    lemma_bracket_bytes();
    reveal_strlit(" ");
    reveal_strlit("=\"");
    reveal_strlit("\"");
    lemma_ascii_bytes(" "@, seq![0x20u8]);
    lemma_ascii_bytes("=\""@, seq![0x3du8, 0x22]);
    lemma_ascii_bytes("\""@, seq![0x22u8]);
    let all = attributes.push((key, value));
    assert(all.drop_last() =~= attributes);
    assert(attributes_markup(all) =~= attributes_markup(attributes) + seq![0x20u8] + key + seq![
        0x3du8,
        0x22,
    ] + value + seq![0x22u8]);
}

/// A piece of a document is written with the very bytes that were read for it, and the
/// end of the document is no event.
#[verifier::rlimit(5)]
proof fn law_pieces_keep_their_bytes(piece: RawEvent)
    ensures
        match piece {
            RawEvent::Start(tag) => raw_view(piece) matches Some(XmlEventView::Start(kept)) && kept
                == tag_of(tag),
            RawEvent::Empty(tag) => raw_view(piece) matches Some(XmlEventView::Empty(kept)) && kept
                == tag_of(tag),
            RawEvent::End(bytes) => markup_of(raw_view(piece)->0) == seq![0x3cu8, 0x2f] + bytes@
                + seq![0x3eu8],
            RawEvent::Text(bytes) => markup_of(raw_view(piece)->0) == bytes@,
            RawEvent::CData(bytes) => markup_of(raw_view(piece)->0) == seq![
                0x3cu8,
                0x21,
                0x5b,
                0x43,
                0x44,
                0x41,
                0x54,
                0x41,
                0x5b,
            ] + bytes@ + seq![0x5du8, 0x5d, 0x3e],
            RawEvent::Comment(bytes) => markup_of(raw_view(piece)->0) == seq![
                0x3cu8,
                0x21,
                0x2d,
                0x2d,
            ] + bytes@ + seq![0x2du8, 0x2d, 0x3e],
            RawEvent::Decl(bytes) => markup_of(raw_view(piece)->0) == seq![0x3cu8, 0x3f] + bytes@
                + seq![0x3fu8, 0x3e],
            RawEvent::PI(bytes) => markup_of(raw_view(piece)->0) == seq![0x3cu8, 0x3f] + bytes@
                + seq![0x3fu8, 0x3e],
            RawEvent::DocType(bytes) => markup_of(raw_view(piece)->0) == seq![
                0x3cu8,
                0x21,
                0x44,
                0x4f,
                0x43,
                0x54,
                0x59,
                0x50,
                0x45,
                0x20,
            ] + bytes@ + seq![0x3eu8],
            RawEvent::Eof => raw_view(piece) is None,
        },
{
    if let Some(event) = raw_view(piece) {
        law_events_are_written_unchanged(event);
    }
}

} // verus!
