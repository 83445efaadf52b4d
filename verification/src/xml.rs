//! XML tokens as plain values, read with quick-xml.
//!
//! The tokeniser itself is quick-xml's; this module hands its events to the
//! rest of the library as plain values, in the order the reader gives them.
use vstd::prelude::*;

use quick_xml::events::attributes::Attributes;
use quick_xml::events::Event;
use quick_xml::{Reader, XmlVersion};
use XmlEvent::{CData, End, Eof, Failed, Open, Other, Text};

verus! {

/// One attribute of a start tag. `value` is `None` where its value could not
/// be normalised.
#[derive(Debug, Clone)]
pub struct XmlAttr {
    pub key: String,
    pub value: Option<String>,
}

/// One XML event: tags by local name, with their attributes as written.
#[derive(Debug, Clone)]
pub enum XmlEvent {
    /// A start tag, or an empty element when `empty` holds.
    Open { name: String, attrs: String, empty: bool },
    End { name: String },
    Text(String),
    CData(String),
    Eof,
    Failed(String),
    Other,
}

/// The reader stops at the end of the document or at its first error.
pub open spec fn is_terminal(e: XmlEvent) -> bool {
    e is Eof || e is Failed
}

/// Exactly the last event ends the stream.
pub open spec fn well_formed_stream(s: Seq<XmlEvent>) -> bool {
    &&& s.len() > 0
    &&& is_terminal(s.last())
    &&& forall|i: int| 0 <= i < s.len() - 1 ==> !is_terminal(#[trigger] s[i])
}

#[verifier::external_type_specification]
#[verifier::external_body]
#[verifier::reject_recursive_types(R)]
pub struct ExXmlReader<R>(Reader<R>);

/// The events quick-xml reads from `text`, with text trimmed, up to and
/// including the first end-of-document or error event.
pub uninterp spec fn xml_events(text: Seq<char>) -> Seq<XmlEvent>;

/// The events a reader has yet to hand out.
pub uninterp spec fn reader_pending(reader: Reader<&[u8]>) -> Seq<XmlEvent>;

/// `quick_xml::Reader::from_str`, configured with `trim_text(true)`: the
/// reader will hand out `xml_events(text)`, a stream that ends with its only
/// end-of-document or error event.
#[verifier::external_body]
fn xml_reader(text: &str) -> (r: Reader<&[u8]>)
    ensures
        reader_pending(r) == xml_events(text@),
        well_formed_stream(reader_pending(r)),
{
    let mut reader = Reader::from_str(text);
    reader.config_mut().trim_text(true);
    reader
}

/// `quick_xml::Reader::read_event_into`: hands out the next pending event,
/// text and CDATA with `xml10_content`.
#[verifier::external_body]
fn xml_next(reader: &mut Reader<&[u8]>) -> (e: XmlEvent)
    requires
        reader_pending(*old(reader)).len() > 0,
    ensures
        e == reader_pending(*old(reader))[0],
        reader_pending(*final(reader)) == reader_pending(*old(reader)).drop_first(),
{
    let mut buf = Vec::new();
    let ev = reader.read_event_into(&mut buf);
    let empty = matches!(ev, Ok(Event::Empty(_)));
    match ev {
        Ok(Event::Start(s) | Event::Empty(s)) => Open { name: s.local_name().as_ref().into(), attrs: s.attributes_raw().into(), empty },
        Ok(Event::End(e)) => End { name: e.local_name().as_ref().into() },
        Ok(Event::Text(t)) => Text(t.xml10_content().into()),
        Ok(Event::CData(c)) => CData(c.xml10_content().into()),
        Ok(Event::Eof) => Eof,
        Err(e) => Failed(e.to_string()),
        Ok(_) => Other,
    }
}

/// The attributes that quick-xml reads from a tag's attribute text, in
/// order; `None` for one it cannot read.
pub uninterp spec fn xml_attributes(raw: Seq<char>) -> Seq<Option<XmlAttr>>;

/// `quick_xml::events::attributes::Attributes::new` over a tag's attribute
/// text: each attribute with its `normalized_value` (XML 1.0), as
/// `xml_attributes` names.
#[verifier::external_body]
pub(crate) fn read_attributes(raw: &str) -> (attrs: Vec<Option<XmlAttr>>)
    ensures
        attrs@ == xml_attributes(raw@),
{
    Attributes::new(raw, 0).map(|a| a.ok().map(|a| XmlAttr {
        key: a.key.as_ref().into(),
        value: a.normalized_value(XmlVersion::Implicit1_0).ok().map(Into::into),
    })).collect()
}

/// All events of `text`, in order, ending with the end-of-document or error
/// event.
pub fn read_events(text: &str) -> (events: Vec<XmlEvent>)
    ensures
        events@ == xml_events(text@),
        well_formed_stream(events@),
{
    let mut reader = xml_reader(text);
    let ghost all = xml_events(text@);
    let mut events: Vec<XmlEvent> = Vec::new();
    loop
        invariant
            all == xml_events(text@),
            well_formed_stream(all),
            events@ + reader_pending(reader) == all,
            reader_pending(reader).len() > 0,
            forall|i: int| 0 <= i < events@.len() ==> !is_terminal(#[trigger] events@[i]),
        decreases reader_pending(reader).len(),
    {
        let ghost before = reader_pending(reader);
        let e = xml_next(&mut reader);
        proof {
            assert(events@.push(e) + before.drop_first() =~= events@ + before);
        }
        let terminal = is_terminal_event(&e);
        events.push(e);
        if terminal {
            proof {
                if reader_pending(reader).len() > 0 {
                    assert(all[events@.len() - 1] == e);
                }
                assert(events@ =~= all);
            }
            return events;
        }
        proof {
            if reader_pending(reader).len() == 0 {
                assert(events@ =~= all);
            }
        }
    }
}

fn is_terminal_event(e: &XmlEvent) -> (res: bool)
    ensures
        res == is_terminal(*e),
{
    match e {
        XmlEvent::Eof => true,
        XmlEvent::Failed(_) => true,
        _ => false,
    }
}

} // verus!
