//! The `<loc>` entries of a sitemap document.
//!
//! A sitemap, or a sitemap index, lists URLs as the text of `<loc>` elements. The
//! document is read as a stream of XML tokens; a small scanner follows the stream
//! and keeps the text of each `<loc>` element that closes with text in it.
use crate::text::{chars_of, range_is, texts};
use crate::xml::{
    open_reader, read_token, unescape_text, upcoming, xml_tokens, xml_unescaped, Token, XmlToken,
};
use vstd::prelude::*;

verus! {

/// Why a sitemap document could not be read to its end.
#[derive(Clone, Copy, Debug, PartialEq, Eq)]
pub enum SitemapError {
    /// The XML reader reported an error in the document.
    Malformed,
    /// The text of a `<loc>` element holds an entity that cannot be resolved.
    BadEscape,
}

/// A URL listed in a sitemap, by what it refers to.
#[derive(Debug, PartialEq, Eq)]
pub enum SitemapReference {
    /// Another sitemap: the URL ends in `.xml`.
    Index(String),
    /// A page: any other URL.
    Page(String),
}

/// Whether `url` refers to a further sitemap: whether it ends in `.xml`.
pub open spec fn is_index(url: Seq<char>) -> bool {
    url.len() >= 4 && url.skip(url.len() - 4) == ".xml"@
}

/// Tells whether `url` refers to a further sitemap.
pub fn is_index_url(url: &str) -> (r: bool)
    ensures
        r == is_index(url@),
{
    let v = chars_of(url);
    let n = v.len();
    if n < 4 {
        false
    } else {
        assert(v@.subrange(n - 4, n as int) =~= v@.skip(n - 4));
        range_is(&v, n - 4, n, ".xml")
    }
}

/// Classifies `url` by its suffix.
pub fn classify(url: String) -> (r: SitemapReference)
    ensures
        r == (if is_index(url@) {
            SitemapReference::Index(url)
        } else {
            SitemapReference::Page(url)
        }),
{
    if is_index_url(url.as_str()) {
        SitemapReference::Index(url)
    } else {
        SitemapReference::Page(url)
    }
}

/// Whether an element name is `loc`: the three bytes `l`, `o`, `c`.
pub open spec fn is_loc(name: Seq<u8>) -> bool {
    name.len() == 3 && name[0] == 108 && name[1] == 111 && name[2] == 99
}

/// The state of a scan for `<loc>` entries.
pub struct ScanState {
    /// Whether a `<loc>` was opened and not closed since.
    pub in_loc: bool,
    /// The text met last inside a `<loc>` and not yet kept.
    pub current: Seq<char>,
    /// The entries kept so far, in document order.
    pub locs: Seq<Seq<char>>,
}

impl ScanState {
    /// The state before the first token.
    pub open spec fn initial() -> ScanState {
        ScanState { in_loc: false, current: Seq::empty(), locs: Seq::empty() }
    }

    /// After a start tag named `name`.
    pub open spec fn opened(self, name: Seq<u8>) -> ScanState {
        if is_loc(name) {
            ScanState { in_loc: true, ..self }
        } else {
            self
        }
    }

    /// After unescaped text: inside a `<loc>` it replaces the text met before.
    pub open spec fn with_text(self, text: Seq<char>) -> ScanState {
        if self.in_loc {
            ScanState { current: text, ..self }
        } else {
            self
        }
    }

    /// After an end tag named `name`: a `</loc>` leaves the element, and keeps the
    /// text met inside unless there was none.
    pub open spec fn closed(self, name: Seq<u8>) -> ScanState {
        if !is_loc(name) {
            self
        } else if self.current.len() == 0 {
            ScanState { in_loc: false, ..self }
        } else {
            ScanState {
                in_loc: false,
                current: Seq::empty(),
                locs: self.locs.push(self.current),
            }
        }
    }
}

/// What a scan does with one token.
pub enum Taken {
    /// It goes on in this state.
    On(ScanState),
    /// It ends: the document is at its end.
    End,
    /// It stops with this error.
    Stop(SitemapError),
}

impl ScanState {
    /// What a scan in this state does with `token`. Text inside a `<loc>` is
    /// unescaped and stops the scan where it cannot be; text outside is passed
    /// over as it is.
    pub open spec fn taken(self, token: Token) -> Taken {
        match token {
            Token::Start(name) => Taken::On(self.opened(name)),
            Token::End(name) => Taken::On(self.closed(name)),
            Token::Text(raw) => if self.in_loc {
                match xml_unescaped(raw) {
                    Some(text) => Taken::On(self.with_text(text)),
                    None => Taken::Stop(SitemapError::BadEscape),
                }
            } else {
                Taken::On(self)
            },
            Token::Other => Taken::On(self),
            Token::Eof => Taken::End,
            Token::Invalid => Taken::Stop(SitemapError::Malformed),
        }
    }
}

/// The entries that a scan in state `st` ends with when it goes on to read
/// `tokens`, or the error that stops it.
pub open spec fn scan(tokens: Seq<Token>, st: ScanState) -> Result<Seq<Seq<char>>, SitemapError>
    decreases tokens.len(),
{
    if tokens.len() == 0 {
        Ok(st.locs)
    } else {
        match st.taken(tokens[0]) {
            Taken::On(next) => scan(tokens.skip(1), next),
            Taken::End => Ok(st.locs),
            Taken::Stop(e) => Err(e),
        }
    }
}

/// The `<loc>` entries of the sitemap document `doc`, in document order, or the
/// error that reading it stops with.
pub open spec fn sitemap_locs_of(doc: Seq<char>) -> Result<Seq<Seq<char>>, SitemapError> {
    scan(xml_tokens(doc), ScanState::initial())
}

/// Follows a stream of XML tokens and keeps the `<loc>` entries.
pub struct LocScanner {
    in_loc: bool,
    current: String,
    locs: Vec<String>,
}

impl View for LocScanner {
    type V = ScanState;

    closed spec fn view(&self) -> ScanState {
        ScanState { in_loc: self.in_loc, current: self.current@, locs: texts(self.locs@) }
    }
}

impl LocScanner {
    /// A scanner that has read nothing.
    pub fn new() -> (s: LocScanner)
        ensures
            s@ == ScanState::initial(),
    {
        let s = LocScanner { in_loc: false, current: String::new(), locs: Vec::new() };
        assert(s@.locs =~= Seq::empty());
        s
    }

    /// Whether the scanner is inside a `<loc>` element.
    pub fn in_loc(&self) -> (r: bool)
        ensures
            r == self@.in_loc,
    {
        self.in_loc
    }

    /// Takes a start tag named `name`.
    pub fn open(&mut self, name: &[u8])
        ensures
            final(self)@ == old(self)@.opened(name@),
    {
        if name_is_loc(name) {
            self.in_loc = true;
        }
    }

    /// Takes unescaped character data.
    pub fn text(&mut self, text: String)
        ensures
            final(self)@ == old(self)@.with_text(text@),
    {
        if self.in_loc {
            self.current = text;
        }
    }

    /// Takes an end tag named `name`.
    pub fn close(&mut self, name: &[u8])
        ensures
            final(self)@ == old(self)@.closed(name@),
    {
        if name_is_loc(name) {
            self.in_loc = false;
            if !self.current.as_str().is_empty() {
                let mut url = String::new();
                std::mem::swap(&mut self.current, &mut url);
                self.locs.push(url);
                assert(texts(self.locs@) =~= texts(old(self).locs@).push(old(self).current@));
            }
        }
    }

    /// Takes one token of the XML reader. Returns whether the scan goes on: `false`
    /// at the end of the document, an error where the text of a `<loc>` cannot be
    /// unescaped. Text without `&` stands for itself.
    pub fn take(&mut self, token: XmlToken) -> (r: Result<bool, SitemapError>)
        ensures
            match old(self)@.taken(token@) {
                Taken::On(next) => r == Ok::<bool, SitemapError>(true) && final(self)@ == next,
                Taken::End => r == Ok::<bool, SitemapError>(false) && final(self)@ == old(self)@,
                Taken::Stop(e) => r == Err::<bool, SitemapError>(e) && final(self)@ == old(self)@,
            },
            token@ matches Token::Text(raw) ==> (old(self)@.in_loc && !raw.contains('&') ==> r
                == Ok::<bool, SitemapError>(true) && final(self)@ == old(self)@.with_text(raw)),
    {
        match token {
            XmlToken::Start(name) => {
                self.open(name.as_slice());
                Ok(true)
            },
            XmlToken::End(name) => {
                self.close(name.as_slice());
                Ok(true)
            },
            XmlToken::Text(raw) => {
                if self.in_loc {
                    match unescape_text(raw.as_str()) {
                        Ok(text) => {
                            self.text(text);
                            Ok(true)
                        },
                        Err(_) => Err(SitemapError::BadEscape),
                    }
                } else {
                    Ok(true)
                }
            },
            XmlToken::Eof => Ok(false),
            XmlToken::Other => Ok(true),
        }
    }

    /// The entries kept, in document order.
    pub fn finish(self) -> (locs: Vec<String>)
        ensures
            texts(locs@) == self@.locs,
    {
        self.locs
    }
}

/// Tells whether an element name is `loc`.
fn name_is_loc(name: &[u8]) -> (r: bool)
    ensures
        r == is_loc(name@),
{
    name.len() == 3 && name[0] == 108 && name[1] == 111 && name[2] == 99
}

/// Reads the sitemap document `doc` and returns its `<loc>` entries in document
/// order.
///
/// Reading stops with `Malformed` at the first error of the XML reader, and with
/// `BadEscape` at the first text inside a `<loc>` that cannot be unescaped.
pub fn sitemap_locs(doc: &str) -> (r: Result<Vec<String>, SitemapError>)
    ensures
        match r {
            Ok(locs) => sitemap_locs_of(doc@) == Ok::<Seq<Seq<char>>, SitemapError>(texts(locs@)),
            Err(e) => sitemap_locs_of(doc@) == Err::<Seq<Seq<char>>, SitemapError>(e),
        },
{
    let mut reader = open_reader(doc);
    let mut buf: Vec<u8> = Vec::new();
    let mut scanner = LocScanner::new();
    loop
        invariant
            scan(upcoming(reader), scanner@) == sitemap_locs_of(doc@),
        decreases upcoming(reader).len(),
    {
        match read_token(&mut reader, &mut buf) {
            Err(_) => {
                return Err(SitemapError::Malformed);
            },
            Ok(token) => match scanner.take(token) {
                Ok(true) => {},
                Ok(false) => {
                    return Ok(scanner.finish());
                },
                Err(e) => {
                    return Err(e);
                },
            },
        }
        buf.clear();
    }
}

} // verus!
