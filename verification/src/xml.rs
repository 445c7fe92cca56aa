//! Reading XML event by event, through the `quick_xml` reader.

use vstd::prelude::*;

verus! {

/// The reader of `quick_xml`.
#[verifier::external_type_specification]
#[verifier::external_body]
#[verifier::reject_recursive_types(R)]
pub struct ExReader<R>(quick_xml::Reader<R>);

/// The reader's reason for giving up on a document.
#[verifier::external_type_specification]
#[verifier::external_body]
pub struct ExXmlError(quick_xml::Error);

/// What the reader met next, as far as the library reads it.
#[derive(Clone, Debug, PartialEq, Eq)]
pub enum XmlEvent {
    /// The start of an element, with the element's name as it stands in the document.
    Start(Vec<u8>),
    /// The end of an element, with the element's name as it stands in the document.
    End(Vec<u8>),
    /// The end of the document.
    Eof,
    /// Anything else: text, an empty element, a comment, a declaration.
    Other,
}

/// One step of a reader: what `read_event` gives next, and what `read_text` would give
/// right after it.
pub struct Step {
    /// The event of the step, or nothing where the reader gives up at this step.
    pub event: Option<XmlEvent>,
    /// For the start of an element: the text up to the end of that element, and the number
    /// of steps that stand between the start and what follows the end. Nothing where no
    /// such text can be read.
    pub text: Option<(String, nat)>,
}

/// What a reader has yet to give: its steps up to the end of its input, or up to the step
/// at which it gives up. A reader whose input is used up has no step left.
pub uninterp spec fn ahead(reader: quick_xml::Reader<&[u8]>) -> Seq<Step>;

/// What reading the text up to the end of the element named `end` gives in the state that
/// a reader is in: the text, and the number of steps that the reading passes. Nothing
/// where the reading fails.
pub uninterp spec fn text_ahead(reader: quick_xml::Reader<&[u8]>, end: Seq<u8>) -> Option<(String, nat)>;

/// The text that a reader was made from, while nothing has been read from it and nothing
/// was set on it.
pub uninterp spec fn made_from(reader: quick_xml::Reader<&[u8]>) -> Option<Seq<char>>;

/// The steps of a reader that is made from a text and set to trim text.
pub uninterp spec fn document_steps(xml: Seq<char>) -> Seq<Step>;

/// `quick_xml::Reader::from_str`: a reader at the start of the text.
#[verifier::external_body]
pub(crate) fn reader_from_str<'a>(xml: &'a str) -> (reader: quick_xml::Reader<&'a [u8]>)
    ensures
        made_from(reader) == Some(xml@),
{
    quick_xml::Reader::from_str(xml)
}

/// `quick_xml::Reader::trim_text`: sets whether the reader strips white space around text.
/// What a reader gives depends on its input and its settings alone, so a reader fresh from
/// a text and set to trim has the steps of that text.
#[verifier::external_body]
pub(crate) fn trim_text(reader: &mut quick_xml::Reader<&[u8]>, on: bool)
    ensures
        on ==> (made_from(*old(reader)) matches Some(xml) ==> ahead(*final(reader)) == document_steps(xml)),
{
    reader.trim_text(on);
}

/// `quick_xml::Reader::read_event_into`, with the names of the event copied out. The call
/// takes the reader one step on: it gives the event of the first step that was ahead, or
/// fails where the reader gives up at that step. With no step ahead it gives the end of the
/// document, and goes on doing so. Behind the start of an element, what `read_text` would
/// give for that element is what the step says.
#[verifier::external_body]
pub(crate) fn read_event(reader: &mut quick_xml::Reader<&[u8]>) -> (result: Result<
    XmlEvent,
    quick_xml::Error,
>)
    ensures
        ahead(*old(reader)).len() == 0 ==> result matches Ok(XmlEvent::Eof),
        ahead(*old(reader)).len() == 0 ==> ahead(*final(reader)).len() == 0,
        ahead(*old(reader)).len() > 0 ==> ahead(*final(reader)) == ahead(*old(reader)).drop_first(),
        ahead(*old(reader)).len() > 0 && ahead(*old(reader))[0].event is Some ==> (result matches Ok(event)
            && Some(event) == ahead(*old(reader))[0].event),
        ahead(*old(reader)).len() > 0 && ahead(*old(reader))[0].event is None ==> result is Err,
        ahead(*old(reader)).len() > 0 ==> (result matches Ok(XmlEvent::Start(name)) ==> text_ahead(
            *final(reader),
            name@,
        ) == ahead(*old(reader))[0].text),
{
    let mut buf = Vec::new();
    match reader.read_event_into(&mut buf) {
        Ok(quick_xml::events::Event::Start(e)) => Ok(XmlEvent::Start(e.name().as_ref().to_vec())),
        Ok(quick_xml::events::Event::End(e)) => Ok(XmlEvent::End(e.name().as_ref().to_vec())),
        Ok(quick_xml::events::Event::Eof) => Ok(XmlEvent::Eof),
        Ok(_) => Ok(XmlEvent::Other),
        Err(e) => Err(e),
    }
}

/// `quick_xml::Reader::read_text`: what stands between the start that was just read and
/// the end of the element named `end`, as it is in the document. The text depends on the
/// state of the reader and on the name alone. Where the call succeeds it has taken the
/// reader whole steps on, past the end of the element.
#[verifier::external_body]
pub(crate) fn read_text(reader: &mut quick_xml::Reader<&[u8]>, end: &[u8]) -> (result: Result<
    String,
    quick_xml::Error,
>)
    ensures
        text_ahead(*old(reader), end@) is None ==> result is Err,
        text_ahead(*old(reader), end@) matches Some(found) ==> (result matches Ok(text) && text == found.0),
        text_ahead(*old(reader), end@) matches Some(found) ==> found.1 <= ahead(*old(reader)).len()
            && ahead(*final(reader)) == ahead(*old(reader)).skip(found.1 as int),
{
    match reader.read_text(quick_xml::name::QName(end)) {
        Ok(text) => Ok(text.into_owned()),
        Err(e) => Err(e),
    }
}

/// Whether two runs of bytes are the same.
pub fn bytes_equal(a: &[u8], b: &[u8]) -> (same: bool)
    ensures
        same == (a@ == b@),
{
    if a.len() != b.len() {
        return false;
    }
    let mut i: usize = 0;
    while i < a.len()
        invariant
            i <= a.len(),
            a.len() == b.len(),
            forall|j: int| 0 <= j < i ==> a@[j] == b@[j],
        decreases a.len() - i,
    {
        if a[i] != b[i] {
            return false;
        }
        i += 1;
    }
    assert(a@ =~= b@);
    true
}

} // verus!
