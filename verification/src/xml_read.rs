//! XML text and the document model: quick-xml's reader, read one event at a time, gives the
//! events from which the document tree (and a style's id and title) are built, and its writer
//! turns a tree's events back into text.

use vstd::prelude::*;

use quick_xml::events::{BytesCData, BytesDecl, BytesEnd, BytesStart, BytesText, Event};
use quick_xml::reader::Reader;
use quick_xml::writer::Writer;

use crate::error::DomainError;
use crate::xml::XmlElement;
use crate::xml_events::{build_tree, elem_events, element_events, event_view, events_view, tree_of, XEvent, XmlEvent};

verus! {

#[verifier::external_type_specification]
#[verifier::external_body]
#[verifier::reject_recursive_types(R)]
pub struct ExXmlReader<R>(Reader<R>);

#[verifier::external_type_specification]
#[verifier::external_body]
pub struct ExXmlEvent<'a>(Event<'a>);

/// Which kind of event a read gave: a start tag, an empty-element tag, an end tag, text, an
/// entity reference, CDATA, a comment, the end of the input, or another event (a
/// declaration, a processing instruction, a doctype).
#[derive(PartialEq, Eq, Structural, Clone, Copy)]
pub enum EventKind {
    Start,
    Empty,
    End,
    Text,
    Ref,
    CData,
    Comment,
    Eof,
    Other,
}

/// What one read of the XML reader gives: an event the document model keeps, one it does not,
/// or the end of the input.
pub enum ReadEvent {
    Event(XmlEvent),
    Skip,
    End,
}

/// The value of one read.
pub enum XStep {
    Event(XEvent),
    Skip,
    End,
}

/// View of one read.
pub open spec fn read_event_view(e: ReadEvent) -> XStep {
    match e {
        ReadEvent::Event(x) => XStep::Event(event_view(x)),
        ReadEvent::Skip => XStep::Skip,
        ReadEvent::End => XStep::End,
    }
}

/// The kind of event that the `index`-th read (from 0) of quick-xml's reader over `bytes`
/// gives, with text trimmed at both ends when `trim` is set, or the reader's error message.
pub uninterp spec fn xml_kind(bytes: Seq<u8>, trim: bool, index: nat) -> Result<EventKind, Seq<char>>;

/// The qualified name of the tag that the `index`-th read gives, when it is a start or empty tag.
pub uninterp spec fn xml_tag_name(bytes: Seq<u8>, trim: bool, index: nat) -> Seq<char>;

/// The attributes (names and raw values as written in the source, not unescaped, in order) of the tag that the `index`-th read
/// gives, when it is a start or empty tag, or the error met reading them.
pub uninterp spec fn xml_tag_attrs(bytes: Seq<u8>, trim: bool, index: nat) -> Result<Seq<(Seq<char>, Seq<char>)>, Seq<char>>;

/// The content of the event that the `index`-th read gives, when it is an end tag (its name),
/// text, CDATA or a comment (as written), or an entity reference (its name).
pub uninterp spec fn xml_content(bytes: Seq<u8>, trim: bool, index: nat) -> Seq<char>;

/// What the `index`-th read gives as a value of the library: a tag with its name and
/// attributes, text, CDATA or a comment with its content, an entity reference as `&name;`
/// text, the end of the input, or a read to skip; or the error met.
pub open spec fn xml_step(bytes: Seq<u8>, trim: bool, index: nat) -> Result<XStep, Seq<char>> {
    let name = xml_tag_name(bytes, trim, index);
    let content = xml_content(bytes, trim, index);
    match xml_kind(bytes, trim, index) {
        Err(m) => Err(m),
        Ok(EventKind::Start) => match xml_tag_attrs(bytes, trim, index) {
            Ok(a) => Ok(XStep::Event(XEvent::Start(name, a))),
            Err(m) => Err(m),
        },
        Ok(EventKind::Empty) => match xml_tag_attrs(bytes, trim, index) {
            Ok(a) => Ok(XStep::Event(XEvent::Empty(name, a))),
            Err(m) => Err(m),
        },
        Ok(EventKind::End) => Ok(XStep::Event(XEvent::End(content))),
        Ok(EventKind::Text) => Ok(XStep::Event(XEvent::Text(content))),
        Ok(EventKind::Ref) => Ok(XStep::Event(XEvent::Text("&"@ + content + ";"@))),
        Ok(EventKind::CData) => Ok(XStep::Event(XEvent::CData(content))),
        Ok(EventKind::Comment) => Ok(XStep::Event(XEvent::Comment(content))),
        Ok(EventKind::Eof) => Ok(XStep::End),
        Ok(EventKind::Other) => Ok(XStep::Skip),
    }
}

/// A reader over XML text, with what it reads (`source`, `trim`), how many reads it has made
/// (`reads`), and the event of the last read.
pub struct XmlCursor<'a> {
    reader: Reader<&'a [u8]>,
    current: Option<Event<'static>>,
    pub source: Ghost<Seq<u8>>,
    pub trim: Ghost<bool>,
    pub reads: Ghost<nat>,
}

/// Starts quick-xml's reader (`Reader::from_reader`) over `bytes`, trimming text when `trim`
/// is set (`Config::trim_text`); the contract records the input and that nothing was read.
#[verifier::external_body]
fn xml_cursor<'a>(bytes: &'a [u8], trim: bool) -> (c: XmlCursor<'a>)
    ensures
        c.source@ == bytes@,
        c.trim@ == trim,
        c.reads@ == 0,
{
    let mut reader = Reader::from_reader(bytes);
    reader.config_mut().trim_text(trim);
    XmlCursor { reader, current: None, source: Ghost(bytes@), trim: Ghost(trim), reads: Ghost(0nat) }
}

/// Reads the next event with quick-xml's `Reader::read_event_into` and tells its kind: the
/// contract claims that the `k`-th read over the same input gives `xml_kind` of that input
/// and `k`.
#[verifier::external_body]
fn next_xml_kind(c: &mut XmlCursor) -> (r: Result<EventKind, String>)
    ensures
        final(c).source == old(c).source,
        final(c).trim == old(c).trim,
        final(c).reads@ == old(c).reads@ + 1,
        match xml_kind(old(c).source@, old(c).trim@, old(c).reads@) {
            Ok(k) => r == Ok::<EventKind, String>(k),
            Err(m) => r matches Err(e) && e@ == m,
        },
{
    let mut buf = Vec::new();
    let ev = c.reader.read_event_into(&mut buf).map(|e| e.into_owned()).map_err(|e| e.to_string())?;
    let kind = match &ev {
        Event::Start(_) => EventKind::Start,
        Event::Empty(_) => EventKind::Empty,
        Event::End(_) => EventKind::End,
        Event::Text(_) => EventKind::Text,
        Event::GeneralRef(_) => EventKind::Ref,
        Event::CData(_) => EventKind::CData,
        Event::Comment(_) => EventKind::Comment,
        Event::Eof => EventKind::Eof,
        _ => EventKind::Other,
    };
    c.current = Some(ev);
    Ok(kind)
}

/// The qualified name of the tag last read (`BytesStart::name`).
#[verifier::external_body]
fn current_tag_name(c: &XmlCursor) -> (r: String)
    requires
        c.reads@ > 0,
    ensures
        r@ == xml_tag_name(c.source@, c.trim@, (c.reads@ - 1) as nat),
{
    match &c.current {
        Some(Event::Start(e)) | Some(Event::Empty(e)) => e.name().as_ref().to_string(),
        _ => String::new(),
    }
}

/// The attributes of the tag last read (`BytesStart::attributes`): names and raw values, as written.
#[verifier::external_body]
fn current_tag_attrs(c: &XmlCursor) -> (r: Result<Vec<(String, String)>, String>)
    requires
        c.reads@ > 0,
    ensures
        match xml_tag_attrs(c.source@, c.trim@, (c.reads@ - 1) as nat) {
            Ok(a) => r matches Ok(v) && crate::xml::attrs_view(v@) == a,
            Err(m) => r matches Err(e) && e@ == m,
        },
{
    match &c.current {
        Some(Event::Start(e)) | Some(Event::Empty(e)) => e.attributes().map(|a| a.map(|a| (a.key.as_ref().to_string(),
            a.value.into_owned()))).collect::<Result<Vec<_>, _>>().map_err(|e| e.to_string()),
        _ => Ok(Vec::new()),
    }
}

/// The content of the event last read: an end tag's name, text, CDATA or a comment as
/// written, an entity reference's name (each event's `Deref` to `str`).
#[verifier::external_body]
fn current_content(c: &XmlCursor) -> (r: String)
    requires
        c.reads@ > 0,
    ensures
        r@ == xml_content(c.source@, c.trim@, (c.reads@ - 1) as nat),
{
    match &c.current {
        Some(Event::End(e)) => e.to_string(),
        Some(Event::Text(e)) => e.to_string(),
        Some(Event::GeneralRef(e)) => e.to_string(),
        Some(Event::CData(e)) => e.to_string(),
        Some(Event::Comment(e)) => e.to_string(),
        _ => String::new(),
    }
}

/// Reads the next event as a value of the library.
fn next_xml_event(c: &mut XmlCursor) -> (r: Result<ReadEvent, String>)
    ensures
        final(c).source == old(c).source,
        final(c).trim == old(c).trim,
        final(c).reads@ == old(c).reads@ + 1,
        match xml_step(old(c).source@, old(c).trim@, old(c).reads@) {
            Ok(s) => r matches Ok(e) && read_event_view(e) == s,
            Err(m) => r matches Err(e) && e@ == m,
        },
{
    let kind = match next_xml_kind(c) {
        Ok(k) => k,
        Err(e) => return Err(e),
    };
    match kind {
        EventKind::Start => match current_tag_attrs(c) {
            Ok(a) => Ok(ReadEvent::Event(XmlEvent::Start(current_tag_name(c), a))),
            Err(e) => Err(e),
        },
        EventKind::Empty => match current_tag_attrs(c) {
            Ok(a) => Ok(ReadEvent::Event(XmlEvent::Empty(current_tag_name(c), a))),
            Err(e) => Err(e),
        },
        EventKind::End => Ok(ReadEvent::Event(XmlEvent::End(current_content(c)))),
        EventKind::Text => Ok(ReadEvent::Event(XmlEvent::Text(current_content(c)))),
        EventKind::Ref => {
            let name = current_content(c);
            let mut t = crate::text::concat_str("&", name.as_str());
            crate::text::push_str(&mut t, ";");
            proof {
                reveal_strlit("&");
                reveal_strlit(";");
            }
            Ok(ReadEvent::Event(XmlEvent::Text(t)))
        },
        EventKind::CData => Ok(ReadEvent::Event(XmlEvent::CData(current_content(c)))),
        EventKind::Comment => Ok(ReadEvent::Event(XmlEvent::Comment(current_content(c)))),
        EventKind::Eof => Ok(ReadEvent::End),
        EventKind::Other => Ok(ReadEvent::Skip),
    }
}

/// The events read from `bytes` from the `index`-th read on, after `acc`, with at most
/// `fuel` more reads: skipped reads leave nothing, the end gives what was read, an error
/// its message, and running out of reads the message that the reader did not finish.
pub open spec fn events_read(bytes: Seq<u8>, trim: bool, index: nat, fuel: nat, acc: Seq<XEvent>) -> Result<Seq<XEvent>, Seq<char>>
    decreases fuel,
{
    if fuel == 0 {
        Err("XML reader did not reach the end of the input"@)
    } else {
        match xml_step(bytes, trim, index) {
            Err(m) => Err(m),
            Ok(XStep::End) => Ok(acc),
            Ok(XStep::Skip) => events_read(bytes, trim, index + 1, (fuel - 1) as nat, acc),
            Ok(XStep::Event(e)) => events_read(bytes, trim, index + 1, (fuel - 1) as nat, acc.push(e)),
        }
    }
}

/// The events of XML text: every read up to the end of the input (at most one read per byte
/// and one for the end), or the first error.
pub open spec fn xml_events_of(bytes: Seq<u8>, trim: bool) -> Result<Seq<XEvent>, Seq<char>> {
    events_read(bytes, trim, 0, bytes.len() + 1, Seq::empty())
}

/// Reads the events of XML text, text trimmed when `trim` is set.
pub fn read_xml_events(bytes: &[u8], trim: bool) -> (r: Result<Vec<XmlEvent>, String>)
    ensures
        match xml_events_of(bytes@, trim) {
            Ok(evs) => r matches Ok(v) && events_view(v@) == evs,
            Err(m) => r matches Err(e) && e@ == m,
        },
{
    let mut c = xml_cursor(bytes, trim);
    let mut out: Vec<XmlEvent> = Vec::new();
    let mut fuel: usize = bytes.len();
    let ghost total = xml_events_of(bytes@, trim);
    proof {
        assert(events_view(out@) =~= Seq::<XEvent>::empty());
    }
    loop
        invariant
            c.source@ == bytes@,
            c.trim@ == trim,
            fuel <= bytes@.len(),
            total == xml_events_of(bytes@, trim),
            total == events_read(bytes@, trim, c.reads@, fuel as nat + 1, events_view(out@)),
        decreases fuel,
    {
        let step = next_xml_event(&mut c);
        match step {
            Err(e) => return Err(e),
            Ok(ReadEvent::End) => return Ok(out),
            Ok(ReadEvent::Skip) => {},
            Ok(ReadEvent::Event(e)) => {
                let ghost before = out@;
                let ghost ev = event_view(e);
                out.push(e);
                proof {
                    assert(events_view(out@) =~= events_view(before).push(ev));
                }
            },
        }
        if fuel == 0 {
            proof {
                assert(events_read(bytes@, trim, c.reads@, 0, events_view(out@)) is Err);
            }
            return Err("XML reader did not reach the end of the input".to_owned());
        }
        fuel = fuel - 1;
    }
}

/// The element tree of XML text (text as written): the tree the events give, or the reader's
/// error, or the error that no element was found.
pub open spec fn parse_xml_spec(bytes: Seq<u8>) -> Result<crate::xml::XElem, Seq<char>> {
    match xml_events_of(bytes, false) {
        Ok(evs) => tree_of(evs),
        Err(m) => Err(m),
    }
}

/// Parses XML text into an element tree.
pub fn parse_xml(bytes: &[u8]) -> (r: Result<XmlElement, DomainError>)
    ensures
        match parse_xml_spec(bytes@) {
            Ok(t) => r matches Ok(x) && x@ == t,
            Err(m) => r matches Err(e) && e.0@ == m,
        },
{
    match read_xml_events(bytes, false) {
        Err(m) => Err(DomainError(m)),
        Ok(evs) => build_tree(&evs),
    }
}

#[verifier::external_type_specification]
#[verifier::external_body]
#[verifier::reject_recursive_types(W)]
pub struct ExXmlWriter<W>(Writer<W>);

/// The bytes of ASCII text.
pub open spec fn ascii_bytes(s: Seq<char>) -> Seq<u8> {
    s.map_values(|c: char| c as u8)
}

/// The XML declaration a document part starts with.
pub open spec fn xml_declaration() -> Seq<u8> {
    ascii_bytes("<?xml version=\"1.0\" encoding=\"UTF-8\" standalone=\"yes\"?>"@)
}

/// The bytes quick-xml's writer (without indentation) writes for an event: a tag built with
/// `BytesStart::new` and its attributes (values escaped), an end tag, text made with
/// `BytesText::new` (escaped), CDATA or a comment.
pub uninterp spec fn xml_event_bytes(ev: XEvent) -> Seq<u8>;

/// The bytes the writer writes for a run of events, in order.
pub open spec fn xml_events_bytes(evs: Seq<XEvent>) -> Seq<u8>
    decreases evs.len(),
{
    if evs.len() == 0 {
        Seq::empty()
    } else {
        xml_events_bytes(evs.drop_last()) + xml_event_bytes(evs.last())
    }
}

/// A writer of XML text, with the bytes it has written.
pub struct XmlWriter {
    writer: Writer<Vec<u8>>,
    pub written: Ghost<Seq<u8>>,
}

/// Starts quick-xml's writer (`Writer::new`) over an empty buffer.
#[verifier::external_body]
fn xml_writer() -> (w: XmlWriter)
    ensures
        w.written@ == Seq::<u8>::empty(),
{
    XmlWriter { writer: Writer::new(Vec::new()), written: Ghost(Seq::empty()) }
}

/// Writes the XML declaration (`BytesDecl::new("1.0", Some("UTF-8"), Some("yes"))`, which the
/// writer wraps in `<?` and `?>`). The writer only appends to its vector, which cannot fail,
/// so the call succeeds and the declaration is what was added.
#[verifier::external_body]
fn write_xml_declaration(w: &mut XmlWriter) -> (r: Result<(), String>)
    ensures
        r is Ok,
        final(w).written@ == old(w).written@ + xml_declaration(),
{
    w.writer.write_event(Event::Decl(BytesDecl::new("1.0", Some("UTF-8"), Some("yes")))).map_err(|e| e.to_string())
}

/// Writes a start tag (or, when `start` is unset, an empty-element tag) built with
/// `BytesStart::new` and `with_attributes`, with quick-xml's `Writer::write_event`. Writing
/// into a vector cannot fail, so the call succeeds and the tag's bytes are what was added.
#[verifier::external_body]
fn write_xml_tag(w: &mut XmlWriter, start: bool, name: &str, attrs: &Vec<(String, String)>) -> (r: Result<(), String>)
    ensures
        r is Ok,
        final(w).written@ == old(w).written@ + xml_event_bytes(if start {
            XEvent::Start(name@, crate::xml::attrs_view(attrs@))
        } else {
            XEvent::Empty(name@, crate::xml::attrs_view(attrs@))
        }),
{
    let tag = BytesStart::new(name).with_attributes(attrs.iter().map(|(k, v)| (k.as_str(), v.as_str())));
    let event = if start { Event::Start(tag) } else { Event::Empty(tag) };
    w.writer.write_event(event).map_err(|e| e.to_string())
}

/// Writes an end tag, text (made with `BytesText::new`), CDATA or a comment with quick-xml's
/// `Writer::write_event`. Writing into a vector cannot fail, so the call succeeds and the
/// event's bytes are what was added.
#[verifier::external_body]
fn write_xml_other(w: &mut XmlWriter, ev: &XmlEvent) -> (r: Result<(), String>)
    requires
        !(ev is Start || ev is Empty),
    ensures
        r is Ok,
        final(w).written@ == old(w).written@ + xml_event_bytes(event_view(*ev)),
{
    let event = match ev {
        XmlEvent::End(n) => Event::End(BytesEnd::new(n.as_str())),
        XmlEvent::Text(t) => Event::Text(BytesText::new(t.as_str())),
        XmlEvent::CData(t) => Event::CData(BytesCData::new(t.as_str())),
        XmlEvent::Comment(t) => Event::Comment(BytesText::new(t.as_str())),
        _ => Event::Eof,
    };
    w.writer.write_event(event).map_err(|e| e.to_string())
}

/// Writes one event.
fn write_xml_event(w: &mut XmlWriter, ev: &XmlEvent) -> (r: Result<(), String>)
    ensures
        r is Ok,
        final(w).written@ == old(w).written@ + xml_event_bytes(event_view(*ev)),
{
    match ev {
        XmlEvent::Start(n, a) => write_xml_tag(w, true, n.as_str(), a),
        XmlEvent::Empty(n, a) => write_xml_tag(w, false, n.as_str(), a),
        _ => write_xml_other(w, ev),
    }
}

/// The bytes written (`Writer::into_inner`).
#[verifier::external_body]
fn written_bytes(w: XmlWriter) -> (r: Vec<u8>)
    ensures
        r@ == w.written@,
{
    w.writer.into_inner()
}

/// The XML text of a tree: the declaration when asked, then the bytes of the tree's events.
pub open spec fn serialized_xml(root: crate::xml::XElem, with_decl: bool) -> Seq<u8> {
    (if with_decl {
        xml_declaration()
    } else {
        Seq::empty()
    }) + xml_events_bytes(elem_events(root))
}

/// Writes a tree as XML text, with the declaration when asked: it always succeeds, and the
/// text is `serialized_xml` of the tree.
pub fn serialize_xml(root: &XmlElement, with_decl: bool) -> (r: Result<Vec<u8>, DomainError>)
    ensures
        r matches Ok(b) && b@ == serialized_xml(root@, with_decl),
{
    let mut w = xml_writer();
    if with_decl {
        match write_xml_declaration(&mut w) {
            Ok(()) => {},
            Err(e) => return Err(DomainError(e)),
        }
    }
    let ghost head = w.written@;
    proof {
        assert(head == (if with_decl {
            xml_declaration()
        } else {
            Seq::<u8>::empty()
        }));
    }
    let events = element_events(root);
    let ghost evs = events_view(events@);
    let mut i: usize = 0;
    while i < events.len()
        invariant
            i <= events@.len(),
            evs == events_view(events@),
            evs == elem_events(root@),
            w.written@ == head + xml_events_bytes(evs.subrange(0, i as int)),
        decreases events.len() - i,
    {
        match write_xml_event(&mut w, &events[i]) {
            Ok(()) => {},
            Err(e) => return Err(DomainError(e)),
        }
        proof {
            assert(evs.subrange(0, i + 1).drop_last() =~= evs.subrange(0, i as int));
            assert(event_view(events@[i as int]) == evs[i as int]);
            assert(w.written@ == head + xml_events_bytes(evs.subrange(0, i as int)) + xml_event_bytes(evs[i as int]));
            assert(w.written@ =~= head + xml_events_bytes(evs.subrange(0, i + 1)));
        }
        i = i + 1;
    }
    proof {
        assert(evs.subrange(0, events@.len() as int) =~= evs);
    }
    Ok(written_bytes(w))
}

/// The style a CSL file describes, read from its bytes with text trimmed (as the styles are
/// read): `style_from` over the events read, or over the reader's error.
pub fn style_from_bytes(path: &str, stem: &str, bytes: &[u8]) -> (r: crate::styles::Style)
    ensures
        r.path@ == path@,
        match xml_events_of(bytes@, true) {
            Err(_) => !r.valid && r.id is None && r.title@ == stem@,
            Ok(evs) => r.valid && {
                let sc = crate::styles::style_scan(evs, evs.len() as int);
                &&& match r.id {
                    Some(i) => sc.id == Some(i@),
                    None => sc.id is None,
                }
                &&& r.title@ == match sc.title {
                    Some(t) => t,
                    None => stem@,
                }
            },
        },
{
    let events = read_xml_events(bytes, true);
    crate::styles::style_from(path, stem, events)
}

} // verus!
