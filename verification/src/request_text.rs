//! Parses a request written as text: a request line (`GET https://host/path`),
//! header lines (`Name: value`), an empty line, then the body.
use vstd::prelude::*;
use vstd::utf8::{encode_utf8, is_ascii_chars, is_ascii_chars_encode_utf8};
use crate::errors::{DeboaError, RequestError, is_parse_error};
use crate::header::{valid_name_bytes, normalize_name, valid_value_bytes, parse_name, is_valid_value};
use crate::http_map::{header_entries, header_map_new, header_map_insert, header_map_get,
    header_map_names_len, counts_names, first_value, has_room, uri_parse, MAX_HEADER_NAMES, empty_headers,
    is_authority_char};
use crate::method::{Method, Version};
use crate::request::{DeboaRequest, RequestView};
use crate::request_line::{request_line, find_request_line};
use crate::text::{trim, index_of, lemma_index_of, find_char, trim_bounds, copy_range, string_of};
use crate::uri::{Uri, UriView};

verus! {

/// The lines of a text, from position `start`: the text is cut at each `\n`,
/// and a last, empty line after a final `\n` is not counted (as `str::lines`).
pub open spec fn lines_from(t: Seq<char>, start: int) -> Seq<Seq<char>>
    decreases t.len() - start,
{
    if start < 0 || start >= t.len() {
        Seq::empty()
    } else {
        let e = index_of(t, '\n', start);
        if e >= t.len() {
            seq![t.subrange(start, t.len() as int)]
        } else {
            proof {
                lemma_index_of(t, '\n', start);
            }
            seq![t.subrange(start, e)].add(lines_from(t, e + 1))
        }
    }
}

/// The lines of a text.
pub open spec fn lines(t: Seq<char>) -> Seq<Seq<char>> {
    lines_from(t, 0)
}

/// Why a request text is refused.
#[derive(Clone, Copy, Debug, PartialEq, Eq, Structural)]
pub enum ParseFailure {
    InvalidHeaderName,
    InvalidHeaderValue,
    InvalidUrl,
    InvalidMethod,
}

/// The message that goes with each refusal.
pub open spec fn failure_message(f: ParseFailure) -> Seq<char> {
    match f {
        ParseFailure::InvalidHeaderName => "Invalid header name"@,
        ParseFailure::InvalidHeaderValue => "Invalid header value"@,
        ParseFailure::InvalidUrl => "Invalid URL"@,
        ParseFailure::InvalidMethod => "Invalid method"@,
    }
}

/// What has been read so far.
pub struct ParseState {
    pub headers: Map<Seq<char>, Seq<Seq<u8>>>,
    pub url: Seq<char>,
    pub method: Option<Method>,
    pub body: Seq<u8>,
    pub reading_body: bool,
}

/// Nothing read yet.
pub open spec fn initial_state() -> ParseState {
    ParseState { headers: empty_headers(), url: Seq::empty(), method: None, body: Seq::empty(), reading_body: false }
}

/// Reads one (trimmed) line. Before the body, a request line sets the method
/// and URL, and a line with a colon is a header whose name and value are the
/// trimmed text before and after the first colon. An empty line once a URL and
/// a header have been read starts the body; in the body, lines are appended
/// without their line ends.
pub open spec fn step(st: ParseState, line: Seq<char>) -> Result<ParseState, ParseFailure> {
    let c = index_of(line, ':', 0);
    if !st.reading_body && request_line(line) is Some {
        let (m, u) = request_line(line).unwrap();
        Ok(ParseState { method: Some(m), url: u, ..st })
    } else if !st.reading_body && c < line.len() {
        let name = encode_utf8(trim(line.subrange(0, c)));
        let value = encode_utf8(trim(line.subrange(c + 1, line.len() as int)));
        if !valid_name_bytes(name) {
            Err(ParseFailure::InvalidHeaderName)
        } else if !valid_value_bytes(value) {
            Err(ParseFailure::InvalidHeaderValue)
        } else {
            Ok(ParseState { headers: st.headers.insert(normalize_name(name), seq![value]), ..st })
        }
    } else if line.len() == 0 && st.url.len() > 0 && st.headers.dom().len() > 0 {
        Ok(ParseState { reading_body: true, ..st })
    } else if st.reading_body {
        Ok(ParseState { body: st.body + encode_utf8(line), ..st })
    } else {
        Ok(st)
    }
}

/// Reads the given lines in order, each trimmed, stopping at the first refusal.
pub open spec fn run(st: ParseState, ls: Seq<Seq<char>>) -> Result<ParseState, ParseFailure>
    decreases ls.len(),
{
    if ls.len() == 0 {
        Ok(st)
    } else {
        match step(st, trim(ls[0])) {
            Ok(st2) => run(st2, ls.drop_first()),
            Err(f) => Err(f),
        }
    }
}

/// The state in which reading the lines stops: after the last line, or
/// before the first line that is refused.
pub open spec fn last_state(st: ParseState, ls: Seq<Seq<char>>) -> ParseState
    decreases ls.len(),
{
    if ls.len() == 0 {
        st
    } else {
        match step(st, trim(ls[0])) {
            Ok(st2) => last_state(st2, ls.drop_first()),
            Err(_) => st,
        }
    }
}

/// The distinct header names that a request text sets before reading stops.
pub open spec fn header_names_read(s: Seq<char>) -> nat {
    last_state(initial_state(), lines(s)).headers.dom().len()
}

/// A step only adds header names.
proof fn lemma_step_names(st: ParseState, line: Seq<char>)
    requires
        st.headers.dom().finite(),
    ensures
        step(st, line) matches Ok(st2) ==> st.headers.dom().subset_of(st2.headers.dom()) && st2.headers.dom().finite(),
{
}

/// Reading on only adds header names.
proof fn lemma_last_state_names(st: ParseState, ls: Seq<Seq<char>>)
    requires
        st.headers.dom().finite(),
    ensures
        st.headers.dom().subset_of(last_state(st, ls).headers.dom()),
        last_state(st, ls).headers.dom().finite(),
        st.headers.dom().len() <= last_state(st, ls).headers.dom().len(),
    decreases ls.len(),
{
    if ls.len() > 0 {
        lemma_step_names(st, trim(ls[0]));
        if let Ok(st2) = step(st, trim(ls[0])) {
            lemma_last_state_names(st2, ls.drop_first());
        }
    }
    vstd::set_lib::lemma_len_subset(st.headers.dom(), last_state(st, ls).headers.dom());
}

/// The `host` header name.
pub open spec fn host_name() -> Seq<char> {
    seq!['h', 'o', 's', 't']
}

/// Assembles a request from its method, URI, headers and body: a `host`
/// header is added from the URI's authority where none was given, a method
/// must have been read, and the version is HTTP/2.
pub open spec fn assembled(method: Option<Method>, u: UriView, headers: Map<Seq<char>, Seq<Seq<u8>>>, body: Seq<u8>) -> Result<RequestView, ParseFailure> {
    let hs = if first_value(headers, host_name()) is None && u.1 is Some {
        headers.insert(host_name(), seq![encode_utf8(u.1.unwrap())])
    } else {
        headers
    };
    match method {
        None => Err(ParseFailure::InvalidMethod),
        Some(m) => Ok(RequestView { method: m, version: Version::HTTP_2, uri: u, headers: hs, body }),
    }
}

/// Turns what was read into a request: the URL must parse as a URI; then
/// the request is assembled.
pub open spec fn finish(st: ParseState) -> Result<RequestView, ParseFailure> {
    match uri_parse(st.url) {
        Err(_) => Err(ParseFailure::InvalidUrl),
        Ok(u) => assembled(st.method, u, st.headers, st.body),
    }
}

/// What a request text parses to.
pub open spec fn parse_request(s: Seq<char>) -> Result<RequestView, ParseFailure> {
    match run(initial_state(), lines(s)) {
        Ok(st) => finish(st),
        Err(f) => Err(f),
    }
}

proof fn lemma_lines_from_len(t: Seq<char>, start: int)
    ensures
        0 <= start < t.len() ==> lines_from(t, start).len() >= 1,
{
}

struct Parser {
    headers: http::HeaderMap,
    names: usize,
    url: Vec<char>,
    method: Option<Method>,
    body: Vec<u8>,
    reading_body: bool,
}

impl Parser {
    spec fn state(&self) -> ParseState {
        ParseState {
            headers: header_entries(self.headers),
            url: self.url@,
            method: self.method,
            body: self.body@,
            reading_body: self.reading_body,
        }
    }

    spec fn inv(&self) -> bool {
        counts_names(self.headers, self.names)
    }

    fn step(&mut self, line: &Vec<char>) -> (r: Result<(), ParseFailure>)
        requires
            old(self).inv(),
            old(self).names < MAX_HEADER_NAMES,
        ensures
            final(self).inv(),
            final(self).names <= old(self).names + 1,
            match step(old(self).state(), line@) {
                Ok(st) => r is Ok && final(self).state() == st,
                Err(f) => r == Err::<(), ParseFailure>(f),
            },
    {
        let ghost line_v = line@;
        if !self.reading_body {
            if let Some((m, u)) = find_request_line(line.as_slice()) {
                self.method = Some(m);
                self.url = u;
                return Ok(());
            }
            let c = find_char(line.as_slice(), ':', 0);
            if c < line.len() {
                let (na, nb) = trim_bounds(line, 0, c);
                let name_chars = copy_range(line.as_slice(), na, nb);
                let name_str = string_of(name_chars.as_slice());
                let (va, vb) = trim_bounds(line, c + 1, line.len());
                let value_chars = copy_range(line.as_slice(), va, vb);
                let value_str = string_of(value_chars.as_slice());
                let name = match parse_name(name_str.as_str().as_bytes()) {
                    Some(n) => n,
                    None => return Err(ParseFailure::InvalidHeaderName),
                };
                let value = value_str.as_str().as_bytes();
                if !is_valid_value(value) {
                    return Err(ParseFailure::InvalidHeaderValue);
                }
                header_map_insert(&mut self.headers, name.as_str(), value);
                self.names = header_map_names_len(&self.headers);
                proof {
                    assert(header_entries(self.headers).dom() == header_entries(old(self).headers).dom().insert(name@));
                }
                return Ok(());
            }
        }
        if line.len() == 0 && self.url.len() > 0 && self.names > 0 {
            self.reading_body = true;
            return Ok(());
        }
        if self.reading_body {
            let text = string_of(line.as_slice());
            let bytes = text.as_str().as_bytes();
            assert(bytes@ == encode_utf8(line@));
            self.body.extend_from_slice(bytes);
            assert(self.body@ == old(self).body@ + encode_utf8(line@));
        }
        assert(!old(self).reading_body ==> request_line(line@) is None);
        assert(!old(self).reading_body ==> index_of(line@, ':', 0) >= line@.len());
        Ok(())
    }
}

/// The bytes of a string of URI characters are valid header-value bytes.
proof fn lemma_authority_value(a: Seq<char>)
    requires
        forall|i: int| 0 <= i < a.len() ==> is_authority_char(#[trigger] a[i]),
    ensures
        valid_value_bytes(encode_utf8(a)),
{
    assert forall|i: int| 0 <= i < a.len() implies '\0' <= #[trigger] a[i] <= '\u{7f}' by {
        assert(is_authority_char(a[i]));
    }
    assert(is_ascii_chars(a));
    is_ascii_chars_encode_utf8(a);
    assert forall|i: int| 0 <= i < encode_utf8(a).len() implies crate::header::is_value_byte(#[trigger] encode_utf8(a)[i]) by {
        assert(a[i] as u8 == encode_utf8(a)[i]);
    }
}

impl DeboaRequest {
    /// Parses a request written as text. The text may set at most a few
    /// thousand distinct header names, so that they fit a header map.
    pub fn from_str(s: &str) -> (r: Result<DeboaRequest, DeboaError>)
        requires
            header_names_read(s@) + 1 < MAX_HEADER_NAMES,
        ensures
            match parse_request(s@) {
                Ok(v) => r matches Ok(q) && q@ == v,
                Err(f) => r matches Err(e) && is_parse_error(e, failure_message(f)),
            },
    {
        let cs = crate::text::chars_of(s);
        let n = cs.len();
        let mut p = Parser {
            headers: header_map_new(),
            names: 0,
            url: Vec::new(),
            method: None,
            body: Vec::new(),
            reading_body: false,
        };
        proof {
            assert(header_entries(p.headers).dom() =~= Set::empty());
            assert(p.state() == initial_state());
        }
        let mut start: usize = 0;
        while start < n
            invariant
                n == cs@.len(),
                cs@ == s@,
                start <= n,
                p.inv(),
                header_names_read(s@) + 1 < MAX_HEADER_NAMES,
                last_state(initial_state(), lines(s@)) == last_state(p.state(), lines_from(s@, start as int)),
                run(initial_state(), lines(s@)) == run(p.state(), lines_from(s@, start as int)),
            decreases n - start,
        {
            let e = find_char(cs.as_slice(), '\n', start);
            proof {
                lemma_index_of(s@, '\n', start as int);
                lemma_lines_from_len(s@, start as int);
            }
            proof {
                lemma_last_state_names(p.state(), lines_from(s@, start as int));
            }
            let (a, b) = trim_bounds(&cs, start, e);
            let line = copy_range(cs.as_slice(), a, b);
            let ghost before = p.state();
            let ghost ls = lines_from(s@, start as int);
            assert(ls[0] == s@.subrange(start as int, e as int));
            assert(ls.drop_first() == if e < n { lines_from(s@, e + 1) } else { Seq::empty() });
            match p.step(&line) {
                Ok(()) => {},
                Err(f) => {
                    return Err(DeboaError::Request(RequestError::Parse { message: failure_text(f) }));
                },
            }
            start = if e < n { e + 1 } else { n };
        }
        assert(lines_from(s@, start as int) =~= Seq::<Seq<char>>::empty());
        let url_text = string_of(p.url.as_slice());
        let uri = match Uri::parse(url_text.as_str()) {
            Ok(u) => u,
            Err(_) => {
                return Err(DeboaError::Request(RequestError::Parse { message: failure_text(ParseFailure::InvalidUrl) }));
            },
        };
        DeboaRequest::assemble(p.method, uri, p.headers, p.body)
    }

    /// Assembles a parsed request: adds a `host` header from the URI's
    /// authority where none was given, and requires a method.
    pub fn assemble(method: Option<Method>, uri: Uri, headers: http::HeaderMap, body: Vec<u8>) -> (r: Result<DeboaRequest, DeboaError>)
        requires
            uri.wf(),
            has_room(headers),
        ensures
            match assembled(method, uri@, header_entries(headers), body@) {
                Ok(v) => r matches Ok(q) && q@ == v,
                Err(f) => r matches Err(e) && is_parse_error(e, failure_message(f)),
            },
    {
        let mut headers = headers;
        let host = "host";
        proof {
            reveal_strlit("host");
            assert(host@ == host_name());
            assert(crate::header::is_name_char('h') && crate::header::is_name_char('o') && crate::header::is_name_char('s') && crate::header::is_name_char('t'));
        }
        if header_map_get(&headers, host).is_none() {
            match uri.authority() {
                Some(a) => {
                    proof {
                        uri.lemma_wf();
                        lemma_authority_value(a@);
                    }
                    header_map_insert(&mut headers, host, a.as_bytes());
                },
                None => {},
            }
        }
        let method = match method {
            Some(m) => m,
            None => {
                return Err(DeboaError::Request(RequestError::Parse { message: failure_text(ParseFailure::InvalidMethod) }));
            },
        };
        Ok(DeboaRequest::from_fields(method, Version::HTTP_2, uri, headers, body))
    }
}

/// The message of a refusal.
fn failure_text(f: ParseFailure) -> (r: String)
    ensures
        r@ == failure_message(f),
{
    match f {
        ParseFailure::InvalidHeaderName => String::from_str("Invalid header name"),
        ParseFailure::InvalidHeaderValue => String::from_str("Invalid header value"),
        ParseFailure::InvalidUrl => String::from_str("Invalid URL"),
        ParseFailure::InvalidMethod => String::from_str("Invalid method"),
    }
}

} // verus!
