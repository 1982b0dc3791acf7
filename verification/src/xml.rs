//! The XML reader that sitemap documents are read with.
//!
//! Reading XML is the work of the `quick-xml` crate. This module declares the two
//! of its types that pass through the library, names what its reader and its
//! unescaping return, and wraps the three calls that the library makes. Nothing
//! here is proved: each contract says what the crate's source shows.
use quick_xml::events::{BytesText, Event};
use quick_xml::Reader;
use vstd::prelude::*;

verus! {

/// `quick_xml::Reader`, a cursor over the events of a document.
#[verifier::external_type_specification]
#[verifier::external_body]
#[verifier::reject_recursive_types(R)]
pub struct ExReader<R>(Reader<R>);

/// `quick_xml::Error`, the error of the reader and of unescaping.
#[verifier::external_type_specification]
#[verifier::external_body]
pub struct ExXmlError(quick_xml::Error);

/// What one read of the XML reader yields, as far as this library looks at it.
pub enum Token {
    /// A start tag, with its name as it stands in the document.
    Start(Seq<u8>),
    /// An end tag, with its name as it stands in the document.
    End(Seq<u8>),
    /// Character data between two tags, still escaped.
    Text(Seq<char>),
    /// The end of the document.
    Eof,
    /// Any other event: an empty-element tag, a CDATA section, a comment, a
    /// declaration, a processing instruction or a document type.
    Other,
    /// The reader reported an error in place of an event.
    Invalid,
}

/// An event of the XML reader with its content copied out of the reader's buffer.
#[derive(Debug, PartialEq, Eq)]
pub enum XmlToken {
    /// A start tag, with its name as it stands in the document.
    Start(Vec<u8>),
    /// An end tag, with its name as it stands in the document.
    End(Vec<u8>),
    /// Character data between two tags, still escaped.
    Text(String),
    /// The end of the document.
    Eof,
    /// Any other event.
    Other,
}

impl View for XmlToken {
    type V = Token;

    open spec fn view(&self) -> Token {
        match self {
            XmlToken::Start(name) => Token::Start(name@),
            XmlToken::End(name) => Token::End(name@),
            XmlToken::Text(raw) => Token::Text(raw@),
            XmlToken::Eof => Token::Eof,
            XmlToken::Other => Token::Other,
        }
    }
}

/// What the reads of `reader` will yield from here on, one after the other, up to
/// and including the first end of document or the first error.
pub uninterp spec fn upcoming(reader: Reader<&[u8]>) -> Seq<Token>;

/// What the reads of a fresh reader over the document `doc` yield, one after the
/// other, up to and including the first end of document or the first error.
pub uninterp spec fn xml_tokens(doc: Seq<char>) -> Seq<Token>;

/// The text that `quick-xml` unescapes the character data `raw` to, or `None` where
/// it reports an error: an entity that is not closed, not known, or a character
/// reference that names no character.
pub uninterp spec fn xml_unescaped(raw: Seq<char>) -> Option<Seq<char>>;

/// `Reader::from_str` of `quick-xml`: a reader over `doc` with the default
/// configuration, nothing read yet. What it will yield is, by definition, the
/// token sequence of `doc`.
#[verifier::external_body]
pub(crate) fn open_reader<'a>(doc: &'a str) -> (reader: Reader<&'a [u8]>)
    ensures
        upcoming(reader) == xml_tokens(doc@),
{
    Reader::from_str(doc)
}

/// `Reader::read_event_into` of `quick-xml`, with the event's content copied out
/// of `buf`: the name of a start or end tag as its bytes, character data as text
/// (the readers of this library read a `str`, so character data is UTF-8). The
/// read yields the first of the upcoming tokens: an error for `Invalid`, the event
/// otherwise. Unless it was the end of the document or an error, the rest of the
/// upcoming tokens is what the reader yields next. Every event but the end of the
/// document consumes input, so the upcoming tokens are finitely many and never
/// none.
#[verifier::external_body]
pub(crate) fn read_token(reader: &mut Reader<&[u8]>, buf: &mut Vec<u8>) -> (r: Result<
    XmlToken,
    quick_xml::Error,
>)
    ensures
        upcoming(*old(reader)).len() > 0,
        match r {
            Ok(token) => token@ == upcoming(*old(reader))[0] && !(token@ is Invalid),
            Err(_) => upcoming(*old(reader))[0] is Invalid,
        },
        r is Ok && !(r->Ok_0 is Eof) ==> upcoming(*final(reader)) == upcoming(*old(reader)).skip(
            1,
        ),
{
    Ok(match reader.read_event_into(buf)? {
        Event::Start(e) => XmlToken::Start(e.name().as_ref().to_vec()),
        Event::End(e) => XmlToken::End(e.name().as_ref().to_vec()),
        Event::Text(e) => XmlToken::Text(String::from_utf8_lossy(&e).into_owned()),
        Event::Eof => XmlToken::Eof,
        Event::Empty(_) | Event::CData(_) | Event::Comment(_) => XmlToken::Other,
        Event::Decl(_) | Event::PI(_) | Event::DocType(_) => XmlToken::Other,
    })
}

/// `BytesText::unescape` of `quick-xml` on character data `raw` in UTF-8: the
/// predefined entities and the character references of `raw` replaced by what
/// they stand for. Character data without `&` comes back as it is.
#[verifier::external_body]
pub(crate) fn unescape_text(raw: &str) -> (r: Result<String, quick_xml::Error>)
    ensures
        match r {
            Ok(text) => xml_unescaped(raw@) == Some(text@),
            Err(_) => xml_unescaped(raw@) is None,
        },
        !raw@.contains('&') ==> r is Ok && r->Ok_0@ == raw@,
{
    Ok(BytesText::from_escaped(raw).unescape()?.into_owned())
}

} // verus!
