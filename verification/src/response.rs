//! Responses: the response value, its builder, and reading typed values
//! (content length, content type, cookies) out of its headers.
use vstd::prelude::*;
use vstd::utf8::encode_utf8;
use crate::cookie::{DeboaCookie, cookie_of_header, no_attributes};
use crate::errors::{DeboaError, is_cookie_error, is_header_error};
use crate::header::{HeaderName, is_valid_value, is_visible, valid_value_bytes, visible_bytes};
use crate::http_map::{all_values, empty_headers, first_value, has_room, header_entries, header_map_get, header_map_get_all, header_map_insert, header_map_new};
use crate::method::Version;
use crate::text::{ascii_chars, ascii_string, chars_of, push_str, string_of};

verus! {

/// The `http` crate's status code.
#[verifier::external_type_specification]
#[verifier::external_body]
pub struct ExStatusCode(http::StatusCode);

/// The number of a status code.
pub uninterp spec fn status_number(s: http::StatusCode) -> u16;

/// `StatusCode::from_u16`: a status code with the given number, which must
/// lie between 100 and 999.
#[verifier::external_body]
pub(crate) fn status_code(n: u16) -> (r: Option<http::StatusCode>)
    ensures
        r is Some <==> 100 <= n <= 999,
        r matches Some(s) ==> status_number(s) == n,
{
    http::StatusCode::from_u16(n).ok()
}

/// What `String::from_utf8_lossy` makes of bytes.
pub uninterp spec fn utf8_lossy(b: Seq<u8>) -> Seq<char>;

/// `String::from_utf8_lossy`: the text that the bytes encode, each invalid
/// sequence replaced by U+FFFD; valid UTF-8 is decoded as it is.
#[verifier::external_body]
fn text_of_bytes(b: &[u8]) -> (r: String)
    ensures
        r@ == utf8_lossy(b@),
        vstd::utf8::valid_utf8(b@) ==> r@ == vstd::utf8::decode_utf8(b@),
{
    String::from_utf8_lossy(b).into_owned()
}

/// What a response holds, as plain values.
pub struct ResponseView {
    pub status: u16,
    pub version: Version,
    pub headers: Map<Seq<char>, Seq<Seq<u8>>>,
    pub body: Seq<u8>,
}

/// Values that can become a response body.
pub trait IntoBody: Sized {
    /// The bytes of the body.
    spec fn body_of(&self) -> Seq<u8>;

    /// The body.
    fn into_body(self) -> (r: Vec<u8>)
        ensures
            r@ == self.body_of(),
    ;
}

impl<'a> IntoBody for &'a [u8] {
    open spec fn body_of(&self) -> Seq<u8> {
        self@
    }

    fn into_body(self) -> (r: Vec<u8>) {
        let mut v: Vec<u8> = Vec::new();
        v.extend_from_slice(self);
        assert(v@ =~= self@);
        v
    }
}

impl IntoBody for Vec<u8> {
    open spec fn body_of(&self) -> Seq<u8> {
        self@
    }

    fn into_body(self) -> (r: Vec<u8>) {
        self
    }
}

/// An HTTP response.
#[derive(Debug)]
pub struct DeboaResponse {
    status: http::StatusCode,
    version: Version,
    headers: http::HeaderMap,
    body: Vec<u8>,
}

impl View for DeboaResponse {
    type V = ResponseView;

    closed spec fn view(&self) -> ResponseView {
        ResponseView {
            status: status_number(self.status),
            version: self.version,
            headers: header_entries(self.headers),
            body: self.body@,
        }
    }
}

impl AsRef<DeboaResponse> for DeboaResponse {
    fn as_ref(&self) -> (r: &DeboaResponse)
        ensures
            *r == *self,
    {
        self
    }
}

impl AsMut<DeboaResponse> for DeboaResponse {
    fn as_mut(&mut self) -> (r: &mut DeboaResponse)
        ensures
            *r == *old(self),
            *final(self) == *final(r),
    {
        self
    }
}

/// A builder of responses.
pub struct DeboaResponseBuilder {
    inner: DeboaResponse,
}

impl View for DeboaResponseBuilder {
    type V = ResponseView;

    closed spec fn view(&self) -> ResponseView {
        self.inner@
    }
}

/// The response that a new builder starts with: status 200, HTTP/1.1, no
/// headers, an empty body.
pub open spec fn fresh_response() -> ResponseView {
    ResponseView { status: 200, version: Version::HTTP_11, headers: empty_headers(), body: Seq::empty() }
}

impl DeboaResponseBuilder {
    /// The builder's headers have room for another name.
    pub open spec fn has_room(&self) -> bool {
        self@.headers.dom().finite() && self@.headers.dom().len() < crate::http_map::MAX_HEADER_NAMES
    }

    /// Sets the protocol version.
    pub fn version(self, version: Version) -> (r: DeboaResponseBuilder)
        ensures
            r@ == (ResponseView { version, ..self@ }),
    {
        let mut inner = self.inner;
        inner.version = version;
        DeboaResponseBuilder { inner }
    }

    /// Sets the status.
    pub fn status(self, status: http::StatusCode) -> (r: DeboaResponseBuilder)
        ensures
            r@ == (ResponseView { status: status_number(status), ..self@ }),
    {
        let mut inner = self.inner;
        inner.status = status;
        DeboaResponseBuilder { inner }
    }

    /// Replaces all headers.
    pub fn headers(self, headers: http::HeaderMap) -> (r: DeboaResponseBuilder)
        ensures
            r@ == (ResponseView { headers: header_entries(headers), ..self@ }),
    {
        let mut inner = self.inner;
        inner.headers = headers;
        DeboaResponseBuilder { inner }
    }

    /// Sets a header to one value; a value that is not a valid header value
    /// is ignored, and the builder is left as it was.
    pub fn header(self, name: HeaderName, value: &str) -> (r: DeboaResponseBuilder)
        requires
            self.has_room(),
        ensures
            valid_value_bytes(encode_utf8(value@)) ==> r@ == (ResponseView {
                headers: self@.headers.insert(name@, seq![encode_utf8(value@)]),
                ..self@
            }),
            !valid_value_bytes(encode_utf8(value@)) ==> r@ == self@,
    {
        let bytes = value.as_bytes();
        if !is_valid_value(bytes) {
            return self;
        }
        let mut inner = self.inner;
        header_map_insert(&mut inner.headers, name.as_str(), bytes);
        DeboaResponseBuilder { inner }
    }

    /// Sets the body.
    pub fn body<B: IntoBody>(self, body: B) -> (r: DeboaResponseBuilder)
        ensures
            r@ == (ResponseView { body: body.body_of(), ..self@ }),
    {
        let mut inner = self.inner;
        inner.body = body.into_body();
        DeboaResponseBuilder { inner }
    }

    /// The response, as it stands (the same as `build`).
    pub fn empty(self) -> (r: DeboaResponse)
        ensures
            r@ == self@,
    {
        self.inner
    }

    /// The response.
    pub fn build(self) -> (r: DeboaResponse)
        ensures
            r@ == self@,
    {
        self.inner
    }
}

/// The parts of a response other than its body.
pub struct ResponseParts {
    pub status: http::StatusCode,
    pub version: Version,
    pub headers: http::HeaderMap,
}

/// A header's first value read as text, or the error's message: the header
/// must be there, and its value must be visible ASCII.
pub open spec fn header_text(headers: Map<Seq<char>, Seq<Seq<u8>>>, name: Seq<char>) -> Result<Seq<char>, Seq<char>> {
    match first_value(headers, name) {
        None => Err("Header is missing"@),
        Some(v) => if visible_bytes(v) {
            Ok(ascii_chars(v))
        } else {
            Err("Failed to read "@ + name + ":: failed to convert header to a str"@)
        },
    }
}

/// Why a text is not a `u64`, as `u64::from_str` reports it.
pub enum IntParseError {
    Empty,
    InvalidDigit,
    PosOverflow,
}

/// The message of an integer parse error.
pub open spec fn int_error_message(e: IntParseError) -> Seq<char> {
    match e {
        IntParseError::Empty => "cannot parse integer from empty string"@,
        IntParseError::InvalidDigit => "invalid digit found in string"@,
        IntParseError::PosOverflow => "number too large to fit in target type"@,
    }
}

/// An ASCII decimal digit.
pub open spec fn is_digit(c: char) -> bool {
    '0' <= c && c <= '9'
}

/// Decimal digits read left to right onto `acc`: each step first checks the
/// digit, then that `acc * 10 + digit` fits in a `u64`.
pub open spec fn digits_value(d: Seq<char>, acc: int) -> Result<int, IntParseError>
    decreases d.len(),
{
    if d.len() == 0 {
        Ok(acc)
    } else if !is_digit(d[0]) {
        Err(IntParseError::InvalidDigit)
    } else if acc * 10 + (d[0] as int - '0' as int) > u64::MAX {
        Err(IntParseError::PosOverflow)
    } else {
        digits_value(d.skip(1), acc * 10 + (d[0] as int - '0' as int))
    }
}

/// `u64::from_str`: an optional `+`, then one or more decimal digits whose
/// value fits in a `u64`.
pub open spec fn parse_u64(s: Seq<char>) -> Result<int, IntParseError> {
    if s.len() == 0 {
        Err(IntParseError::Empty)
    } else if s.len() == 1 && (s[0] == '+' || s[0] == '-') {
        Err(IntParseError::InvalidDigit)
    } else if s[0] == '+' {
        digits_value(s.skip(1), 0)
    } else {
        digits_value(s, 0)
    }
}

/// Parses a `u64` as `u64::from_str` does.
pub fn parse_u64_text(s: &[char]) -> (r: Result<u64, IntParseError>)
    ensures
        match parse_u64(s@) {
            Ok(v) => r matches Ok(n) && n == v,
            Err(e) => r == Err::<u64, IntParseError>(e),
        },
{
    if s.len() == 0 {
        return Err(IntParseError::Empty);
    }
    if s.len() == 1 && (s[0] == '+' || s[0] == '-') {
        return Err(IntParseError::InvalidDigit);
    }
    let start: usize = if s[0] == '+' { 1 } else { 0 };
    assert(s@.skip(0) =~= s@);
    let mut acc: u64 = 0;
    let mut i: usize = start;
    while i < s.len()
        invariant
            start <= i <= s@.len(),
            parse_u64(s@) == digits_value(s@.skip(i as int), acc as int),
        decreases s@.len() - i,
    {
        let c = s[i];
        assert(s@.skip(i as int)[0] == c);
        assert(s@.skip(i as int).skip(1) =~= s@.skip(i + 1));
        if !('0' <= c && c <= '9') {
            return Err(IntParseError::InvalidDigit);
        }
        let digit = (c as u32 - '0' as u32) as u64;
        if acc > 1844674407370955161 || (acc == 1844674407370955161 && digit > 5) {
            assert(acc * 10 + digit > u64::MAX) by (nonlinear_arith)
                requires
                    acc > 1844674407370955161 || (acc == 1844674407370955161 && digit > 5),
            ;
            return Err(IntParseError::PosOverflow);
        }
        assert(acc * 10 + digit <= u64::MAX) by (nonlinear_arith)
            requires
                acc <= 1844674407370955161,
                acc == 1844674407370955161 ==> digit <= 5,
                digit <= 9,
        ;
        acc = acc * 10 + digit;
        i = i + 1;
    }
    assert(s@.skip(s@.len() as int) =~= Seq::<char>::empty());
    Ok(acc)
}

/// The first `set-cookie` value that does not give a cookie.
pub open spec fn set_cookie_ok(v: Seq<u8>) -> bool {
    visible_bytes(v) && cookie_of_header(ascii_chars(v)) is Some
}

/// The error of a `set-cookie` value that does not give a cookie.
pub open spec fn set_cookie_error(v: Seq<u8>) -> Seq<char> {
    if !visible_bytes(v) { "Invalid cookie header"@ } else { "Invalid cookie"@ }
}

/// The cookies of all `set-cookie` values, in order, where each gives one:
/// the name and value that the value's text gives, and no attribute set.
pub open spec fn response_cookies_are(vs: Seq<Seq<u8>>, r: Option<Vec<DeboaCookie>>) -> bool {
    if vs.len() == 0 {
        r is None
    } else {
        r matches Some(cs) && cs@.len() == vs.len()
            && forall|i: int| 0 <= i < vs.len() ==> header_cookie(#[trigger] cs@[i], vs[i])
    }
}

/// `c` is the cookie that the `set-cookie` value `v` gives.
pub open spec fn header_cookie(c: DeboaCookie, v: Seq<u8>) -> bool {
    &&& Some(c@) == cookie_of_header(ascii_chars(v))
    &&& c.attributes() == no_attributes()
}

/// Every `set-cookie` value gives a cookie.
pub open spec fn all_set_cookies_ok(vs: Seq<Seq<u8>>) -> bool {
    forall|i: int| 0 <= i < vs.len() ==> set_cookie_ok(#[trigger] vs[i])
}

/// `k` is the first `set-cookie` value that does not give a cookie.
pub open spec fn first_bad_cookie(vs: Seq<Seq<u8>>, k: int) -> bool {
    &&& 0 <= k < vs.len()
    &&& !set_cookie_ok(vs[k])
    &&& forall|j: int| 0 <= j < k ==> set_cookie_ok(#[trigger] vs[j])
}

/// The outcome of reading the cookies of `set-cookie` values: all of them, or
/// the error of the first value that gives none.
pub open spec fn cookies_outcome(vs: Seq<Seq<u8>>, r: Result<Option<Vec<DeboaCookie>>, DeboaError>) -> bool {
    if all_set_cookies_ok(vs) {
        r matches Ok(o) && response_cookies_are(vs, o)
    } else {
        exists|k: int| first_bad_cookie(vs, k) && match r {
            Err(e) => is_cookie_error(e, set_cookie_error(vs[k])),
            Ok(_) => false,
        }
    }
}

impl DeboaResponse {
    /// A response from its parts.
    pub fn new(status: http::StatusCode, version: Version, headers: http::HeaderMap, body: Vec<u8>) -> (r: DeboaResponse)
        ensures
            r@ == (ResponseView { status: status_number(status), version, headers: header_entries(headers), body: body@ }),
    {
        DeboaResponse { status, version, headers, body }
    }

    /// A builder that starts with status 200, HTTP/1.1, no headers and an empty body.
    pub fn builder() -> (r: DeboaResponseBuilder)
        ensures
            r@ == fresh_response(),
    {
        let status = status_code(200).unwrap();
        DeboaResponseBuilder { inner: DeboaResponse { status, version: Version::HTTP_11, headers: header_map_new(), body: Vec::new() } }
    }

    /// The protocol version.
    pub fn version(&self) -> (r: Version)
        ensures
            r == self@.version,
    {
        self.version
    }

    /// The protocol version, for changing it in place.
    pub fn version_mut(&mut self) -> (r: &mut Version)
        ensures
            *r == old(self)@.version,
            final(self)@ == (ResponseView { version: *final(r), ..old(self)@ }),
    {
        &mut self.version
    }

    /// The status.
    pub fn status(&self) -> (r: http::StatusCode)
        ensures
            status_number(r) == self@.status,
    {
        self.status
    }

    /// The status, for changing it in place.
    pub fn status_mut(&mut self) -> (r: &mut http::StatusCode)
        ensures
            status_number(*r) == old(self)@.status,
            final(self)@ == (ResponseView { status: status_number(*final(r)), ..old(self)@ }),
    {
        &mut self.status
    }

    /// The headers.
    pub fn headers(&self) -> (r: &http::HeaderMap)
        ensures
            header_entries(*r) == self@.headers,
    {
        &self.headers
    }

    /// The headers, for changing them in place.
    pub fn headers_mut(&mut self) -> (r: &mut http::HeaderMap)
        ensures
            header_entries(*r) == old(self)@.headers,
            final(self)@ == (ResponseView { headers: header_entries(*final(r)), ..old(self)@ }),
    {
        &mut self.headers
    }

    /// A header's first value as text.
    fn header_value(&self, name: HeaderName) -> (r: Result<String, DeboaError>)
        ensures
            match header_text(self@.headers, name@) {
                Ok(t) => r matches Ok(s) && s@ == t,
                Err(m) => r matches Err(e) && is_header_error(e, m),
            },
    {
        let value = match header_map_get(&self.headers, name.as_str()) {
            None => return Err(DeboaError::Header { message: String::from_str("Header is missing") }),
            Some(v) => v,
        };
        if !is_visible(value.as_slice()) {
            let mut m = chars_of("Failed to read ");
            push_str(&mut m, name.as_str());
            push_str(&mut m, ":: failed to convert header to a str");
            return Err(DeboaError::Header { message: string_of(m.as_slice()) });
        }
        Ok(ascii_string(value.as_slice()))
    }

    /// The `content-length` header as a number.
    pub fn content_length(&self) -> (r: Result<u64, DeboaError>)
        ensures
            match header_text(self@.headers, "content-length"@) {
                Err(m) => r matches Err(e) && is_header_error(e, m),
                Ok(t) => match parse_u64(t) {
                    Ok(n) => r matches Ok(k) && k == n,
                    Err(pe) => r matches Err(e) && is_header_error(e, "Failed to parse content-length: "@ + int_error_message(pe)),
                },
            },
    {
        let text = self.header_value(HeaderName::content_length())?;
        let cs = chars_of(text.as_str());
        match parse_u64_text(cs.as_slice()) {
            Ok(n) => Ok(n),
            Err(pe) => {
                let mut m = chars_of("Failed to parse content-length: ");
                let msg = match pe {
                    IntParseError::Empty => "cannot parse integer from empty string",
                    IntParseError::InvalidDigit => "invalid digit found in string",
                    IntParseError::PosOverflow => "number too large to fit in target type",
                };
                push_str(&mut m, msg);
                Err(DeboaError::Header { message: string_of(m.as_slice()) })
            },
        }
    }

    /// The `content-type` header as text.
    pub fn content_type(&self) -> (r: Result<String, DeboaError>)
        ensures
            match header_text(self@.headers, "content-type"@) {
                Ok(t) => r matches Ok(s) && s@ == t,
                Err(m) => r matches Err(e) && is_header_error(e, m),
            },
    {
        self.header_value(HeaderName::content_type())
    }

    /// The cookies of the `set-cookie` headers, in order, or the error of the
    /// first value that does not give one; `None` where there are no such headers.
    pub fn cookies_checked(&self) -> (r: Result<Option<Vec<DeboaCookie>>, DeboaError>)
        ensures
            cookies_outcome(all_values(self@.headers, "set-cookie"@), r),
    {
        let name = HeaderName::set_cookie();
        let values = header_map_get_all(&self.headers, name.as_str());
        let ghost vs = all_values(self@.headers, "set-cookie"@);
        let mut out: Vec<DeboaCookie> = Vec::new();
        let mut i: usize = 0;
        while i < values.len()
            invariant
                i <= values@.len(),
                vs == all_values(self@.headers, "set-cookie"@),
                values@.len() == vs.len(),
                forall|j: int| 0 <= j < values@.len() ==> (#[trigger] values@[j])@ == vs[j],
                out@.len() == i,
                forall|j: int| 0 <= j < i ==> set_cookie_ok(#[trigger] vs[j]),
                forall|j: int| 0 <= j < i ==> header_cookie(#[trigger] out@[j], vs[j]),
            decreases values@.len() - i,
        {
            let v = &values[i];
            assert(v@ == vs[i as int]);
            if !is_visible(v.as_slice()) {
                assert(first_bad_cookie(vs, i as int));
                return Err(DeboaError::Cookie { message: String::from_str("Invalid cookie header") });
            }
            let text = ascii_string(v.as_slice());
            match DeboaCookie::parse_from_header(text.as_str()) {
                Ok(c) => {
                    out.push(c);
                },
                Err(_) => {
                    assert(first_bad_cookie(vs, i as int));
                    return Err(DeboaError::Cookie { message: String::from_str("Invalid cookie") });
                },
            }
            i = i + 1;
        }
        if out.len() == 0 {
            Ok(None)
        } else {
            Ok(Some(out))
        }
    }

    /// The cookies of the `set-cookie` headers, in order; `None` where there
    /// are no such headers. Every such header must give a cookie.
    pub fn cookies(&self) -> (r: Result<Option<Vec<DeboaCookie>>, DeboaError>)
        requires
            all_set_cookies_ok(all_values(self@.headers, "set-cookie"@)),
        ensures
            r matches Ok(o) && response_cookies_are(all_values(self@.headers, "set-cookie"@), o),
    {
        self.cookies_checked()
    }

    /// The body.
    pub fn inner_body(self) -> (r: Vec<u8>)
        ensures
            r@ == self@.body,
    {
        self.body
    }

    /// The body, to be read piece by piece.
    pub fn stream(self) -> (r: Vec<u8>)
        ensures
            r@ == self@.body,
    {
        self.body
    }

    /// The body's bytes.
    pub fn bytes(self) -> (r: Result<Vec<u8>, DeboaError>)
        ensures
            r matches Ok(b) && b@ == self@.body,
    {
        Ok(self.body)
    }

    /// The body as text: valid UTF-8 is decoded, each invalid sequence
    /// becomes U+FFFD.
    pub fn text(self) -> (r: Result<String, DeboaError>)
        ensures
            r matches Ok(t) && t@ == utf8_lossy(self@.body)
                && (vstd::utf8::valid_utf8(self@.body) ==> t@ == vstd::utf8::decode_utf8(self@.body)),
    {
        Ok(text_of_bytes(self.body.as_slice()))
    }

    /// The response taken apart.
    pub fn into_parts(self) -> (r: (ResponseParts, Vec<u8>))
        ensures
            status_number(r.0.status) == self@.status,
            r.0.version == self@.version,
            header_entries(r.0.headers) == self@.headers,
            r.1@ == self@.body,
    {
        (ResponseParts { status: self.status, version: self.version, headers: self.headers }, self.body)
    }
}

} // verus!
