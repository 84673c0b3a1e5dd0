//! XML documents as sequences of events, written out by `quick_xml`.
//!
//! The EPUB scaffolding (container, package document, navigation
//! document) is described as a list of [`XmlEvent`]s; `quick_xml`'s
//! indenting writer turns the list into bytes, escaping text and attribute
//! values itself, so that user-supplied text is escaped exactly once.

use vstd::prelude::*;
use vstd::utf8::{decode_utf8, valid_utf8};

use quick_xml::events::{BytesDecl, BytesEnd, BytesStart, BytesText, Event};

use crate::error::Error;
use crate::text::push_char;

verus! {

/// One XML event.
#[derive(Debug, Clone)]
pub enum XmlEvent {
    /// `<?xml version=".." encoding=".."?>`
    Decl { version: String, encoding: String },
    /// `<!DOCTYPE ..>`, with the content written as it is.
    DocType(String),
    /// An opening tag with its attributes (values are escaped on writing).
    Start { name: String, attrs: Vec<(String, String)> },
    /// A self-closing tag with its attributes.
    Empty { name: String, attrs: Vec<(String, String)> },
    /// A closing tag.
    End(String),
    /// Character data (escaped on writing).
    Text(String),
}

/// The mathematical content of an [`XmlEvent`].
pub enum XmlEventView {
    Decl(Seq<char>, Seq<char>),
    DocType(Seq<char>),
    Start(Seq<char>, Seq<(Seq<char>, Seq<char>)>),
    Empty(Seq<char>, Seq<(Seq<char>, Seq<char>)>),
    End(Seq<char>),
    Text(Seq<char>),
}

pub open spec fn attrs_view(attrs: Seq<(String, String)>) -> Seq<(Seq<char>, Seq<char>)> {
    attrs.map_values(|p: (String, String)| (p.0@, p.1@))
}

impl View for XmlEvent {
    type V = XmlEventView;

    open spec fn view(&self) -> XmlEventView {
        match self {
            XmlEvent::Decl { version, encoding } => XmlEventView::Decl(version@, encoding@),
            XmlEvent::DocType(t) => XmlEventView::DocType(t@),
            XmlEvent::Start { name, attrs } => XmlEventView::Start(name@, attrs_view(attrs@)),
            XmlEvent::Empty { name, attrs } => XmlEventView::Empty(name@, attrs_view(attrs@)),
            XmlEvent::End(n) => XmlEventView::End(n@),
            XmlEvent::Text(t) => XmlEventView::Text(t@),
        }
    }
}

pub open spec fn events_view(evs: Seq<XmlEvent>) -> Seq<XmlEventView> {
    evs.map_values(|e: XmlEvent| e@)
}

// ---------------------------------------------------------------------------
// The quick_xml writer
// ---------------------------------------------------------------------------

#[verifier::external_type_specification]
#[verifier::external_body]
#[verifier::reject_recursive_types(W)]
pub struct ExXmlWriter<W>(quick_xml::Writer<W>);

/// The events a writer has accepted so far, in order.
pub uninterp spec fn xml_written(w: quick_xml::Writer<Vec<u8>>) -> Seq<XmlEventView>;

/// The bytes `quick_xml`'s writer, indenting with two spaces, produces for
/// a sequence of events.
pub uninterp spec fn xml_document(events: Seq<XmlEventView>) -> Seq<u8>;

/// `quick_xml::Writer::new_with_indent` over an empty buffer, indenting by
/// two spaces: a writer that has written nothing.
#[verifier::external_body]
fn xml_writer_new() -> (w: quick_xml::Writer<Vec<u8>>)
    ensures
        xml_written(w) == Seq::<XmlEventView>::empty(),
{
    quick_xml::Writer::new_with_indent(Vec::new(), b' ', 2)
}

/// `Writer::write_event` with an XML declaration: the event is appended to
/// what the writer has written. `write_event` fails only when its sink
/// does, and a `Vec<u8>` sink takes every write, so every call here
/// succeeds (the same holds for the other `xml_write_*` wrappers).
#[verifier::external_body]
fn xml_write_decl(w: &mut quick_xml::Writer<Vec<u8>>, version: &str, encoding: &str) -> (r:
    core::result::Result<(), String>)
    ensures
        r is Ok,
        xml_written(*final(w)) == xml_written(*old(w)).push(
            XmlEventView::Decl(version@, encoding@),
        ),
{
    w.write_event(Event::Decl(BytesDecl::new(version, Some(encoding), None))).map_err(
        |e| e.to_string(),
    )
}

/// `Writer::write_event` with a `DOCTYPE` whose content is already escaped.
#[verifier::external_body]
fn xml_write_doctype(w: &mut quick_xml::Writer<Vec<u8>>, content: &str) -> (r:
    core::result::Result<(), String>)
    ensures
        r is Ok,
        xml_written(*final(w)) == xml_written(*old(w)).push(
            XmlEventView::DocType(content@),
        ),
{
    w.write_event(Event::DocType(BytesText::from_escaped(content))).map_err(|e| e.to_string())
}

/// `Writer::write_event` with an opening tag; attribute values are escaped
/// by `quick_xml`.
#[verifier::external_body]
fn xml_write_start(
    w: &mut quick_xml::Writer<Vec<u8>>,
    name: &str,
    attrs: &Vec<(String, String)>,
) -> (r: core::result::Result<(), String>)
    ensures
        r is Ok,
        xml_written(*final(w)) == xml_written(*old(w)).push(
            XmlEventView::Start(name@, attrs_view(attrs@)),
        ),
{
    let tag = BytesStart::new(name).with_attributes(
        attrs.iter().map(|(k, v)| (k.as_str(), v.as_str())),
    );
    w.write_event(Event::Start(tag)).map_err(|e| e.to_string())
}

/// `Writer::write_event` with a self-closing tag.
#[verifier::external_body]
fn xml_write_empty(
    w: &mut quick_xml::Writer<Vec<u8>>,
    name: &str,
    attrs: &Vec<(String, String)>,
) -> (r: core::result::Result<(), String>)
    ensures
        r is Ok,
        xml_written(*final(w)) == xml_written(*old(w)).push(
            XmlEventView::Empty(name@, attrs_view(attrs@)),
        ),
{
    let tag = BytesStart::new(name).with_attributes(
        attrs.iter().map(|(k, v)| (k.as_str(), v.as_str())),
    );
    w.write_event(Event::Empty(tag)).map_err(|e| e.to_string())
}

/// `Writer::write_event` with a closing tag.
#[verifier::external_body]
fn xml_write_end(w: &mut quick_xml::Writer<Vec<u8>>, name: &str) -> (r: core::result::Result<
    (),
    String,
>)
    ensures
        r is Ok,
        xml_written(*final(w)) == xml_written(*old(w)).push(XmlEventView::End(name@)),
{
    w.write_event(Event::End(BytesEnd::new(name))).map_err(|e| e.to_string())
}

/// `Writer::write_event` with character data, escaped by `quick_xml`.
#[verifier::external_body]
fn xml_write_text(w: &mut quick_xml::Writer<Vec<u8>>, text: &str) -> (r: core::result::Result<
    (),
    String,
>)
    ensures
        r is Ok,
        xml_written(*final(w)) == xml_written(*old(w)).push(XmlEventView::Text(text@)),
{
    w.write_event(Event::Text(BytesText::new(text))).map_err(|e| e.to_string())
}

/// `Writer::into_inner`: the bytes written for the accepted events. They
/// are UTF-8: every byte comes from a `&str` handed to a wrapper above
/// (escaped or as it is) or from ASCII markup and indentation.
#[verifier::external_body]
fn xml_writer_finish(w: quick_xml::Writer<Vec<u8>>) -> (r: Vec<u8>)
    ensures
        r@ == xml_document(xml_written(w)),
        valid_utf8(r@),
{
    w.into_inner()
}

/// `String::from_utf8`: succeeds exactly on valid UTF-8; the error message
/// is the one `FromUtf8Error` displays.
#[verifier::external_body]
fn string_from_utf8(bytes: Vec<u8>) -> (r: core::result::Result<String, String>)
    ensures
        r is Ok <==> valid_utf8(bytes@),
        r matches Ok(s) ==> s@ == decode_utf8(bytes@),
{
    String::from_utf8(bytes).map_err(|e| e.to_string())
}

// ---------------------------------------------------------------------------
// Writing documents
// ---------------------------------------------------------------------------

/// `s` ending in a newline: unchanged when it already ends in one, with a
/// newline appended otherwise.
pub open spec fn with_final_newline(s: Seq<char>) -> Seq<char> {
    if s.len() > 0 && s.last() == '\n' {
        s
    } else {
        s.push('\n')
    }
}

/// The text of a document: the writer's bytes, decoded, ending in a
/// newline.
pub open spec fn document_text(events: Seq<XmlEventView>) -> Seq<char> {
    with_final_newline(decode_utf8(xml_document(events)))
}

/// Turns the writer's bytes into the document text: they must be UTF-8,
/// and a final newline is added when missing.
pub fn finish_writer(bytes: Vec<u8>) -> (r: core::result::Result<String, Error>)
    ensures
        r is Ok <==> valid_utf8(bytes@),
        match r {
            Ok(s) => s@ == with_final_newline(decode_utf8(bytes@)),
            Err(e) => e is XmlBuild,
        },
{
    match string_from_utf8(bytes) {
        Err(msg) => Err(Error::XmlBuild(msg)),
        Ok(mut s) => {
            let cs = crate::text::chars_of(s.as_str());
            if cs.len() == 0 || cs[cs.len() - 1] != '\n' {
                push_char(&mut s, '\n');
            }
            Ok(s)
        },
    }
}

fn write_one(w: &mut quick_xml::Writer<Vec<u8>>, ev: &XmlEvent) -> (r: core::result::Result<
    (),
    String,
>)
    ensures
        r is Ok,
        xml_written(*final(w)) == xml_written(*old(w)).push(ev@),
{
    match ev {
        XmlEvent::Decl { version, encoding } => xml_write_decl(
            w,
            version.as_str(),
            encoding.as_str(),
        ),
        XmlEvent::DocType(t) => xml_write_doctype(w, t.as_str()),
        XmlEvent::Start { name, attrs } => xml_write_start(w, name.as_str(), attrs),
        XmlEvent::Empty { name, attrs } => xml_write_empty(w, name.as_str(), attrs),
        XmlEvent::End(n) => xml_write_end(w, n.as_str()),
        XmlEvent::Text(t) => xml_write_text(w, t.as_str()),
    }
}

/// Writes a whole document: it always succeeds, and the text is
/// `document_text` of the events.
pub fn write_document(events: &Vec<XmlEvent>) -> (r: core::result::Result<String, Error>)
    ensures
        r is Ok,
        match r {
            Ok(s) => valid_utf8(xml_document(events_view(events@))) && s@ == document_text(
                events_view(events@),
            ),
            Err(_) => false,
        },
{
    let mut w = xml_writer_new();
    let mut i: usize = 0;
    while i < events.len()
        invariant
            i <= events@.len(),
            xml_written(w) == events_view(events@.take(i as int)),
        decreases events.len() - i,
    {
        match write_one(&mut w, &events[i]) {
            Err(msg) => {
                return Err(Error::XmlBuild(msg));
            },
            Ok(()) => {},
        }
        proof {
            assert(events@.take(i + 1) == events@.take(i as int).push(events@[i as int]));
            assert(events_view(events@.take(i + 1)) == events_view(events@.take(i as int)).push(
                events@[i as int]@,
            ));
        }
        i = i + 1;
    }
    proof {
        assert(events@.take(events@.len() as int) == events@);
    }
    let bytes = xml_writer_finish(w);
    finish_writer(bytes)
}

} // verus!
