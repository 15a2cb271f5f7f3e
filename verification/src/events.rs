//! The document as a stream of plain XML events.
//!
//! quick_xml does the tokenizing. Its reader stands behind two trusted
//! wrappers and is modelled as a queue of plain events: `doc_events` names
//! the event sequence of a document text, `pending_events` the events a
//! reader has not yet handed out. Each call of `next_event` pops the head
//! of that queue, converted to the library's own `XmlEvent`.

use vstd::prelude::*;

use quick_xml::events::Event;

verus! {

/// A plain XML event, as the state machine consumes it.
#[derive(Debug)]
pub enum XmlEvent {
    /// An opening tag with its attribute values in document order.
    Open { name: String, attrs: Vec<String> },
    /// A closing tag.
    Close { name: String },
    /// Text content between tags.
    Text { body: String },
    /// Any other well-formed piece of the document (declaration, comment,
    /// CDATA, self-closing tag, ...): the extractor ignores it.
    Skip,
    /// The document is not well-formed at this position.
    Bad,
    /// End of the document.
    End,
}

/// The mathematical shape of an `XmlEvent`.
pub enum Tok {
    Open { name: Seq<char>, attrs: Seq<Seq<char>> },
    Close { name: Seq<char> },
    Text { body: Seq<char> },
    Skip,
    Bad,
    End,
}

impl View for XmlEvent {
    type V = Tok;

    open spec fn view(&self) -> Tok {
        match self {
            XmlEvent::Open { name, attrs } => Tok::Open { name: name@, attrs: attrs.deep_view() },
            XmlEvent::Close { name } => Tok::Close { name: name@ },
            XmlEvent::Text { body } => Tok::Text { body: body@ },
            XmlEvent::Skip => Tok::Skip,
            XmlEvent::Bad => Tok::Bad,
            XmlEvent::End => Tok::End,
        }
    }
}

#[verifier::external_type_specification]
#[verifier::external_body]
#[verifier::reject_recursive_types(T)]
pub struct ExCursor<T>(std::io::Cursor<T>);

#[verifier::external_type_specification]
#[verifier::external_body]
#[verifier::reject_recursive_types(R)]
pub struct ExReader<R>(quick_xml::Reader<R>);

/// The events of a document text, in order, without the end marker.
/// quick_xml tokenizes deterministically, so this depends on the text alone.
pub uninterp spec fn doc_events(text: Seq<char>) -> Seq<Tok>;

/// The events a reader has not yet handed out.
pub uninterp spec fn pending_events(r: quick_xml::Reader<std::io::Cursor<Vec<u8>>>) -> Seq<Tok>;

/// Relies on quick_xml's `Reader::from_reader` and `Config::trim_text(true)`:
/// a fresh reader over the text will hand out exactly the document's events,
/// with surrounding whitespace of text nodes trimmed.
#[verifier::external_body]
pub(crate) fn open_reader(text: &str) -> (r: quick_xml::Reader<std::io::Cursor<Vec<u8>>>)
    ensures
        pending_events(r) == doc_events(text@),
{
    let mut r = quick_xml::Reader::from_reader(std::io::Cursor::new(text.as_bytes().to_vec()));
    r.config_mut().trim_text(true);
    r
}

/// Relies on quick_xml's `Reader::read_event_into` (with `BytesStart::name`,
/// `BytesStart::attributes`, `Attribute::value`, `BytesEnd::name` and
/// `BytesText::xml10_content` to read the event out as plain strings): pops
/// the next pending event, or reports the end of the document once none is
/// left.
#[verifier::external_body]
pub(crate) fn next_event(r: &mut quick_xml::Reader<std::io::Cursor<Vec<u8>>>) -> (e: XmlEvent)
    ensures
        pending_events(*old(r)).len() == 0 ==> e@ == Tok::End && pending_events(*final(r))
            == pending_events(*old(r)),
        pending_events(*old(r)).len() > 0 ==> e@ == pending_events(*old(r))[0] && pending_events(
            *final(r),
        ) == pending_events(*old(r)).drop_first(),
{
    let mut buf = Vec::new();
    match r.read_event_into(&mut buf) {
        Ok(Event::Start(s)) => match s.attributes().map(|a| a.map(|x| x.value.into_owned())).collect() {
            Ok(attrs) => XmlEvent::Open { name: s.name().into_inner().to_owned(), attrs },
            Err(_) => XmlEvent::Bad,
        },
        Ok(Event::End(s)) => XmlEvent::Close { name: s.name().into_inner().to_owned() },
        Ok(Event::Text(t)) => XmlEvent::Text { body: t.xml10_content().into_owned() },
        Ok(Event::Eof) => XmlEvent::End,
        Ok(_) => XmlEvent::Skip,
        Err(_) => XmlEvent::Bad,
    }
}

} // verus!
