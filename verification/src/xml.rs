//! The markup of an XML text, as a list of events.

use quick_xml::events::BytesStart;
use quick_xml::events::Event::{CData, Empty, End, Eof, Start, Text};
use quick_xml::Reader;
use vstd::prelude::*;

verus! {

/// A tag with its attributes. An attribute that is not written as XML wants
/// it is `None`.
pub struct XmlElement {
    pub name: Vec<u8>,
    pub attributes: Vec<Option<(Vec<u8>, Vec<u8>)>>,
}

/// One piece of markup.
pub enum XmlEvent {
    /// An opening tag.
    Start(XmlElement),
    /// A tag that is opened and closed at once.
    Empty(XmlElement),
    /// The text between two tags.
    Text(Vec<u8>),
    /// The content of a CDATA section.
    CData(Vec<u8>),
    /// The name of a closing tag.
    End(Vec<u8>),
    /// The end of the text.
    Eof,
    /// The text is not XML, with the words of the error.
    Failed(String),
    /// A comment, a declaration or a processing instruction.
    Other,
}

/// The attributes of a tag, without their representation.
pub type AttributesView = Seq<Option<(Seq<u8>, Seq<u8>)>>;

/// A tag without its representation.
pub struct ElementView {
    pub name: Seq<u8>,
    pub attributes: AttributesView,
}

/// A piece of markup without its representation.
pub enum EventView {
    Start(ElementView),
    Empty(ElementView),
    Text(Seq<u8>),
    CData(Seq<u8>),
    End(Seq<u8>),
    Eof,
    Failed(Seq<char>),
    Other,
}

/// The attributes of a tag.
pub open spec fn attribute_views(v: Seq<Option<(Vec<u8>, Vec<u8>)>>) -> AttributesView {
    v.map_values(
        |a: Option<(Vec<u8>, Vec<u8>)>|
            match a {
                Some((k, x)) => Some((k@, x@)),
                None => None,
            },
    )
}

impl View for XmlElement {
    type V = ElementView;

    open spec fn view(&self) -> ElementView {
        ElementView { name: self.name@, attributes: attribute_views(self.attributes@) }
    }
}

impl View for XmlEvent {
    type V = EventView;

    open spec fn view(&self) -> EventView {
        match self {
            XmlEvent::Start(e) => EventView::Start(e@),
            XmlEvent::Empty(e) => EventView::Empty(e@),
            XmlEvent::Text(t) => EventView::Text(t@),
            XmlEvent::CData(t) => EventView::CData(t@),
            XmlEvent::End(n) => EventView::End(n@),
            XmlEvent::Eof => EventView::Eof,
            XmlEvent::Failed(e) => EventView::Failed(e@),
            XmlEvent::Other => EventView::Other,
        }
    }
}

/// The pieces of a list.
pub open spec fn event_views(v: Seq<XmlEvent>) -> Seq<EventView> {
    v.map_values(|e: XmlEvent| e@)
}

/// Nothing comes after this event.
pub open spec fn is_last(e: EventView) -> bool {
    e is Eof || e is Failed
}

/// `quick_xml::Reader`: a text that is read one event at a time.
#[verifier::external_type_specification]
#[verifier::external_body]
#[verifier::reject_recursive_types(R)]
pub struct ExReader<R>(quick_xml::Reader<R>);

/// The events that a new `quick_xml::Reader` gives for a text, up to the end
/// of the text or the first error. The flag says whether white space around
/// the text between tags is left out.
pub uninterp spec fn xml_events(xml: Seq<char>, trim: bool) -> Seq<EventView>;

/// The events that a `quick_xml::Reader` still has to give, up to the end of
/// the text or the first error.
pub uninterp spec fn events_left(reader: quick_xml::Reader<&[u8]>) -> Seq<EventView>;

/// `Reader::from_str` starts at the beginning of the text, with `trim_text`
/// set as wanted. The reader gives the events of the text: the end or an
/// error comes once, as the last of them.
#[verifier::external_body]
fn open_reader(xml: &str, trim: bool) -> (r: quick_xml::Reader<&[u8]>)
    ensures
        events_left(r) == xml_events(xml@, trim),
        events_left(r).len() > 0,
        forall|i: int|
            0 <= i < events_left(r).len() ==> (is_last(#[trigger] events_left(r)[i]) <==> i
                == events_left(r).len() - 1),
{
    let mut reader = Reader::from_str(xml);
    reader.config_mut().trim_text(trim);
    reader
}

/// `Reader::read_event_into` gives the next event of the text, or the words
/// of its error, and moves on. The name and the attributes of a tag are those
/// of `BytesStart::name` and `BytesStart::attributes`, in order.
#[verifier::external_body]
fn next_event(reader: &mut quick_xml::Reader<&[u8]>) -> (r: Result<XmlEvent, String>)
    requires
        events_left(*old(reader)).len() > 0,
    ensures
        match r {
            Ok(e) => !(e is Failed) && e@ == events_left(*old(reader))[0],
            Err(words) => EventView::Failed(words@) == events_left(*old(reader))[0],
        },
        events_left(*final(reader)) == events_left(*old(reader)).skip(1),
{
    let tag = |e: BytesStart| XmlElement {
        name: e.name().0.to_vec(),
        attributes: e.attributes().map(|a| a.ok().map(|x| (x.key.0.to_vec(), x.value.to_vec()))).collect(),
    };
    Ok(match reader.read_event_into(&mut Vec::new()).map_err(|e| e.to_string())? {
        Start(e) => XmlEvent::Start(tag(e)),
        Empty(e) => XmlEvent::Empty(tag(e)),
        Text(t) => XmlEvent::Text(t.to_vec()),
        CData(t) => XmlEvent::CData(t.to_vec()),
        End(e) => XmlEvent::End(e.to_vec()),
        Eof => XmlEvent::Eof,
        _ => XmlEvent::Other,
    })
}

/// The events of a text.
pub fn read_events(xml: &str, trim: bool) -> (r: Vec<XmlEvent>)
    ensures
        event_views(r@) == xml_events(xml@, trim),
{
    let mut reader = open_reader(xml, trim);
    let ghost all = xml_events(xml@, trim);
    let mut out: Vec<XmlEvent> = Vec::new();
    proof {
        assert(event_views(out@) + all =~= all);
    }
    loop
        invariant
            all == xml_events(xml@, trim),
            events_left(reader).len() > 0,
            out@.len() + events_left(reader).len() == all.len(),
            event_views(out@) + events_left(reader) == all,
            forall|i: int|
                0 <= i < all.len() ==> (is_last(#[trigger] all[i]) <==> i == all.len() - 1),
        decreases events_left(reader).len(),
    {
        let ghost had = event_views(out@);
        let ghost left = events_left(reader);
        let e = match next_event(&mut reader) {
            Ok(e) => e,
            Err(words) => XmlEvent::Failed(words),
        };
        proof {
            assert(all[had.len() as int] == left[0]);
        }
        let done: bool = match e {
            XmlEvent::Eof => true,
            XmlEvent::Failed(_) => true,
            _ => false,
        };
        out.push(e);
        proof {
            assert(event_views(out@) =~= had.push(left[0]));
            assert(had + left =~= event_views(out@) + left.skip(1));
        }
        if done {
            proof {
                assert(event_views(out@) + left.skip(1) =~= event_views(out@));
            }
            return out;
        }
    }
}

} // verus!
