//! The events of an XML document, as far as the track scanner reads them.
//! The document is read by `quick_xml`.

use quick_xml::events::Event;
use quick_xml::Reader;
use vstd::prelude::*;

verus! {

/// `quick_xml::Reader`, of which nothing is known here but what the
/// functions below say.
#[verifier::external_type_specification]
#[verifier::external_body]
#[verifier::reject_recursive_types(R)]
pub struct ExReader<R>(Reader<R>);

/// An attribute of a start tag: its key and its value, both as written.
#[derive(Debug)]
pub struct RawAttribute {
    pub key: Vec<u8>,
    pub value: Vec<u8>,
}

/// An event of a document.
#[derive(Debug)]
pub enum XmlEvent {
    /// A start tag, with its name and its attributes up to the first one
    /// that is malformed.
    Start { name: Vec<u8>, attributes: Vec<RawAttribute> },
    /// An end tag, with its name.
    End { name: Vec<u8> },
    /// Anything else: text, an empty-element tag, a comment and so on.
    Other,
}

/// What an attribute holds.
pub struct AttributeView {
    pub key: Seq<u8>,
    pub value: Seq<u8>,
}

/// What an event holds.
pub enum EventView {
    Start { name: Seq<u8>, attributes: Seq<AttributeView> },
    End { name: Seq<u8> },
    Other,
}

impl View for RawAttribute {
    type V = AttributeView;

    open spec fn view(&self) -> AttributeView {
        AttributeView { key: self.key@, value: self.value@ }
    }
}

/// What a vector of attributes holds.
pub open spec fn attribute_views(attributes: Seq<RawAttribute>) -> Seq<AttributeView> {
    attributes.map_values(|a: RawAttribute| a@)
}

impl View for XmlEvent {
    type V = EventView;

    open spec fn view(&self) -> EventView {
        match self {
            XmlEvent::Start { name, attributes } => EventView::Start {
                name: name@,
                attributes: attribute_views(attributes@),
            },
            XmlEvent::End { name } => EventView::End { name: name@ },
            XmlEvent::Other => EventView::Other,
        }
    }
}

/// What a vector of events holds.
pub open spec fn event_views(events: Seq<XmlEvent>) -> Seq<EventView> {
    events.map_values(|e: XmlEvent| e@)
}

/// The events of a document: those that a reader with trimmed text yields
/// before its first end of input or error, a start tag as its name and its
/// attributes up to the first malformed one, an end tag as its name, and
/// anything else as `Other`.
pub uninterp spec fn xml_events(data: Seq<char>) -> Seq<EventView>;

/// The events that a reader has yet to yield before its first end of input
/// or error, each as in `xml_events`.
pub uninterp spec fn pending_events(reader: Reader<&[u8]>) -> Seq<EventView>;

/// `Reader::from_str`, with `Config::trim_text` switched on: a reader at the
/// start of the document, with all of the document's events to come.
#[verifier::external_body]
pub(crate) fn open_document<'a>(data: &'a str) -> (reader: Reader<&'a [u8]>)
    ensures
        pending_events(reader) == xml_events(data@),
{
    let mut reader = Reader::from_str(data);
    reader.config_mut().trim_text(true);
    reader
}

/// `Reader::read_event`: the next event, or nothing at the end of the input
/// or at an error. Each event that is read consumes input, so that one fewer
/// is left to come.
#[verifier::external_body]
pub(crate) fn next_event(reader: &mut Reader<&[u8]>) -> (r: Option<XmlEvent>)
    ensures
        r is None <==> pending_events(*old(reader)).len() == 0,
        r matches Some(event) ==> event@ == pending_events(*old(reader))[0] && pending_events(
            *final(reader),
        ) == pending_events(*old(reader)).skip(1),
{
    match reader.read_event() {
        Ok(Event::Start(tag)) => Some(
            XmlEvent::Start {
                name: tag.name().as_ref().to_vec(),
                attributes: tag.attributes().map_while(|a| a.ok()).map(
                    |a| RawAttribute { key: a.key.as_ref().to_vec(), value: a.value.into_owned() },
                ).collect(),
            },
        ),
        Ok(Event::End(tag)) => Some(XmlEvent::End { name: tag.name().as_ref().to_vec() }),
        Ok(Event::Eof) | Err(_) => None,
        Ok(_) => Some(XmlEvent::Other),
    }
}

} // verus!
