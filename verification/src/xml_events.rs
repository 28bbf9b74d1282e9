use vstd::prelude::*;

verus! {

/// The events of an XML document that the configuration readers act on.
/// Names are qualified names as text (`{namespace}prefix:local`).
pub enum XmlEvent {
    StartElement(String),
    EndElement(String),
    Characters(String),
    /// The parser stopped on malformed input.
    Failure,
    /// Any other event (document start and end, comments, whitespace, ...).
    Other,
}

/// The events that `xml::reader::EventReader` yields for the document `doc`.
pub uninterp spec fn xml_events_of(doc: Seq<u8>) -> Seq<XmlEvent>;

/// Runs the `xml-rs` pull parser (`xml::reader::EventReader`) over `doc` and
/// converts each event it yields, one for one, into an `XmlEvent`; an error
/// becomes `Failure` (the crate's iterator yields nothing after an error).
/// The events are named by `xml_events_of`; what that sequence is for a given
/// document is not stated here.
#[verifier::external_body]
pub(crate) fn parse_xml_events(doc: &[u8]) -> (r: Vec<XmlEvent>)
    ensures
        r@ == xml_events_of(doc@),
{
    xml::reader::EventReader::new(doc).into_iter().map(|e| match e {
        Ok(xml::reader::XmlEvent::StartElement { name, .. }) => XmlEvent::StartElement(name.to_string()),
        Ok(xml::reader::XmlEvent::EndElement { name }) => XmlEvent::EndElement(name.to_string()),
        Ok(xml::reader::XmlEvent::Characters(text)) => XmlEvent::Characters(text),
        Ok(_) => XmlEvent::Other,
        Err(_) => XmlEvent::Failure,
    }).collect()
}

} // verus!
