//! Requests: the request value, its builder and the ways to start one.
use vstd::prelude::*;
use vstd::utf8::encode_utf8;
use crate::cookie::{CookieMap, DeboaCookie, cookie_entries, cookie_pair_text, join_cookies, lists_cookies, cookies_from_segments, cookies_of_text, no_cookies, segments_from};
use crate::encoding::{base64_encode, base64_standard, MAX_BASE64_INPUT};
use crate::errors::{DeboaError, IoError, RequestError, is_header_error, is_cookie_error};
use crate::form::{Form, FieldSource, DeboaForm, encoded_body, encoded_content_type, multipart_body, multipart_content_type};
use crate::header::{HeaderName, valid_value_bytes, visible_bytes, is_valid_value, is_visible};
use crate::http_map::{header_entries, header_map_new, header_map_insert, header_map_set_first, header_map_get, has_room, empty_headers, first_value, uri_parse};
use crate::into_headers::IntoHeaders;
use crate::text::{ascii_chars, ascii_string, chars_of, copy_range, find_char, push_str, string_of, trim, trim_bounds};
use crate::method::{Method, Version};
use crate::uri::{Uri, UriView};
use crate::url::{IntoUrl, Url};

verus! {

/// What a request holds, as plain values.
pub struct RequestView {
    pub method: Method,
    pub version: Version,
    pub uri: UriView,
    pub headers: Map<Seq<char>, Seq<Seq<u8>>>,
    pub body: Seq<u8>,
}

/// An HTTP request.
#[derive(Debug)]
pub struct DeboaRequest {
    pub(crate) method: Method,
    pub(crate) version: Version,
    pub(crate) uri: Uri,
    pub(crate) headers: http::HeaderMap,
    pub(crate) body: Vec<u8>,
}

impl View for DeboaRequest {
    type V = RequestView;

    closed spec fn view(&self) -> RequestView {
        RequestView {
            method: self.method,
            version: self.version,
            uri: self.uri@,
            headers: header_entries(self.headers),
            body: self.body@,
        }
    }
}

impl DeboaRequest {
    /// A request with the given parts.
    pub(crate) fn from_fields(method: Method, version: Version, uri: Uri, headers: http::HeaderMap, body: Vec<u8>) -> (r: DeboaRequest)
        ensures
            r@ == (RequestView { method, version, uri: uri@, headers: header_entries(headers), body: body@ }),
            r.uri_wf() == uri.wf(),
    {
        DeboaRequest { method, version, uri, headers, body }
    }

    /// The request's URI is as the `http` crate's parser leaves it.
    pub closed spec fn uri_wf(&self) -> bool {
        self.uri.wf()
    }

    /// The protocol version.
    pub fn version(&self) -> (r: Version)
        ensures
            r == self@.version,
    {
        self.version
    }

    /// The method.
    pub fn method(&self) -> (r: &Method)
        ensures
            *r == self@.method,
    {
        &self.method
    }

    /// The URI.
    pub fn uri(&self) -> (r: &Uri)
        ensures
            r@ == self@.uri,
            self.uri_wf() ==> r.wf(),
    {
        &self.uri
    }

    /// The headers.
    pub fn headers(&self) -> (r: &http::HeaderMap)
        ensures
            header_entries(*r) == self@.headers,
    {
        &self.headers
    }

    /// The body, consuming the request.
    pub fn body(self) -> (r: Vec<u8>)
        ensures
            r@ == self@.body,
    {
        self.body
    }
}

impl AsRef<DeboaRequest> for DeboaRequest {
    fn as_ref(&self) -> (r: &DeboaRequest)
        ensures
            *r == *self,
    {
        self
    }
}

impl AsMut<DeboaRequest> for DeboaRequest {
    fn as_mut(&mut self) -> (r: &mut DeboaRequest)
        ensures
            *r == *old(self),
            *final(self) == *final(r),
    {
        self
    }
}

/// The parts of a request other than its body.
pub struct RequestParts {
    pub method: Method,
    pub version: Version,
    pub uri: Uri,
    pub headers: http::HeaderMap,
}

/// The cookies of a request's `cookie` header: none without the header; an
/// empty map where its first value does not read as text; else the cookies
/// of its `;`-separated pieces.
pub open spec fn request_cookies(headers: Map<Seq<char>, Seq<Seq<u8>>>) -> Option<Map<Seq<char>, (Seq<char>, Seq<char>)>> {
    match first_value(headers, "cookie"@) {
        None => None,
        Some(v) => Some(if visible_bytes(v) { cookies_of_text(ascii_chars(v)) } else { no_cookies() }),
    }
}

impl DeboaRequest {
    /// The headers, for changing them in place.
    pub fn headers_mut(&mut self) -> (r: &mut http::HeaderMap)
        ensures
            header_entries(*r) == old(self)@.headers,
            final(self)@ == with_headers(old(self)@, header_entries(*final(r))),
            final(self).uri_wf() == old(self).uri_wf(),
    {
        &mut self.headers
    }

    /// The request taken apart.
    pub fn into_parts(self) -> (r: (RequestParts, Vec<u8>))
        ensures
            r.0.method == self@.method,
            r.0.version == self@.version,
            r.0.uri@ == self@.uri,
            header_entries(r.0.headers) == self@.headers,
            r.1@ == self@.body,
    {
        (RequestParts { method: self.method, version: self.version, uri: self.uri, headers: self.headers }, self.body)
    }

    /// A request from its parts. Assembling never fails.
    pub fn from_parts(parts: RequestParts, body: Vec<u8>) -> (r: Result<DeboaRequest, DeboaError>)
        ensures
            r matches Ok(q) && q@ == (RequestView {
                method: parts.method,
                version: parts.version,
                uri: parts.uri@,
                headers: header_entries(parts.headers),
                body: body@,
            }),
    {
        Ok(DeboaRequest::from_fields(parts.method, parts.version, parts.uri, parts.headers, body))
    }

    /// The cookies that the `cookie` header carries.
    pub fn cookies(&self) -> (r: Option<CookieMap>)
        ensures
            match request_cookies(self@.headers) {
                None => r is None,
                Some(m) => r matches Some(c) && cookie_entries(c) == m,
            },
    {
        let name = HeaderName::cookie();
        let v = match header_map_get(&self.headers, name.as_str()) {
            None => return None,
            Some(v) => v,
        };
        let mut map = CookieMap::new();
        if !is_visible(v.as_slice()) {
            return Some(map);
        }
        let text = ascii_string(v.as_slice());
        let cs = chars_of(text.as_str());
        let ghost all = segments_from(cs@, ';', 0);
        let ghost mut done: Seq<Seq<char>> = Seq::empty();
        let mut start: usize = 0;
        assert(all == done + segments_from(cs@, ';', start as int));
        loop
            invariant
                start <= cs@.len(),
                cs@ == ascii_chars(v@),
                first_value(self@.headers, "cookie"@) == Some(v@),
                visible_bytes(v@),
                all == segments_from(cs@, ';', 0),
                all == done + segments_from(cs@, ';', start as int),
                cookie_entries(map) == cookies_from_segments(done),
            decreases cs@.len() - start,
        {
            let semi = find_char(cs.as_slice(), ';', start);
            let ghost seg = cs@.subrange(start as int, semi as int);
            let (a, b) = trim_bounds(&cs, start, semi);
            let t = copy_range(cs.as_slice(), a, b);
            assert(t@ == trim(seg));
            let eq = find_char(t.as_slice(), '=', 0);
            let ghost before = cookie_entries(map);
            if eq < t.len() {
                let name_chars = copy_range(t.as_slice(), 0, eq);
                let value_chars = copy_range(t.as_slice(), eq + 1, t.len());
                let key = string_of(name_chars.as_slice());
                let cname = string_of(name_chars.as_slice());
                let cvalue = string_of(value_chars.as_slice());
                let cookie = DeboaCookie::new(cname.as_str(), cvalue.as_str());
                map.insert(key, cookie);
                assert(t@.take(eq as int) == t@.subrange(0, eq as int));
                assert(t@.skip(eq + 1) == t@.subrange(eq + 1, t@.len() as int));
            }
            proof {
                let nd = done.push(seg);
                assert(nd.drop_last() =~= done);
                assert(nd.last() == seg);
                assert(cookie_entries(map) == cookies_from_segments(nd));
                crate::text::lemma_index_of(cs@, ';', start as int);
                if semi >= cs@.len() {
                    assert(segments_from(cs@, ';', start as int) == seq![seg]);
                    assert(all =~= nd);
                } else {
                    assert(segments_from(cs@, ';', start as int) == seq![seg] + segments_from(cs@, ';', semi + 1));
                    assert(all =~= nd + segments_from(cs@, ';', semi + 1));
                }
                done = nd;
            }
            if semi >= cs.len() {
                return Some(map);
            }
            start = semi + 1;
        }
    }
}

/// A request with `headers` in place of the request's headers.
pub open spec fn with_headers(v: RequestView, headers: Map<Seq<char>, Seq<Seq<u8>>>) -> RequestView {
    RequestView { headers, ..v }
}

/// A request with `body` in place of the request's body.
pub open spec fn with_body(v: RequestView, body: Seq<u8>) -> RequestView {
    RequestView { body, ..v }
}

/// A builder of requests: each step changes one part of the request.
pub struct DeboaRequestBuilder {
    inner: DeboaRequest,
}

impl View for DeboaRequestBuilder {
    type V = RequestView;

    closed spec fn view(&self) -> RequestView {
        self.inner@
    }
}

/// The outcome of setting a header: the value's bytes must be a valid header
/// value; then the name maps to exactly that value.
pub open spec fn header_set(before: RequestView, name: Seq<char>, value: Seq<u8>, r: Result<DeboaRequestBuilder, DeboaError>) -> bool {
    if valid_value_bytes(value) {
        r matches Ok(b) && b@ == with_headers(before, before.headers.insert(name, seq![value]))
    } else {
        r matches Err(e) && is_header_error(e, "failed to parse header value"@)
    }
}

impl DeboaRequestBuilder {
    /// The builder's headers have room for another name.
    pub open spec fn has_room(&self) -> bool {
        self@.headers.dom().finite() && self@.headers.dom().len() < crate::http_map::MAX_HEADER_NAMES
    }

    /// Sets the method.
    pub fn method(self, method: Method) -> (r: DeboaRequestBuilder)
        ensures
            r@ == (RequestView { method, ..self@ }),
    {
        let mut inner = self.inner;
        inner.method = method;
        DeboaRequestBuilder { inner }
    }

    /// Sets the protocol version.
    pub fn version(self, version: Version) -> (r: DeboaRequestBuilder)
        ensures
            r@ == (RequestView { version, ..self@ }),
    {
        let mut inner = self.inner;
        inner.version = version;
        DeboaRequestBuilder { inner }
    }

    /// Sets the body to a copy of the given bytes.
    pub fn bytes(self, body: &[u8]) -> (r: DeboaRequestBuilder)
        ensures
            r@ == with_body(self@, body@),
    {
        let mut inner = self.inner;
        let mut b: Vec<u8> = Vec::new();
        b.extend_from_slice(body);
        assert(b@ =~= body@);
        inner.body = b;
        DeboaRequestBuilder { inner }
    }

    /// Sets the body.
    pub fn body(self, body: Vec<u8>) -> (r: DeboaRequestBuilder)
        ensures
            r@ == with_body(self@, body@),
    {
        let mut inner = self.inner;
        inner.body = body;
        DeboaRequestBuilder { inner }
    }

    /// Sets the body to the UTF-8 bytes of a text.
    pub fn text(self, text: &str) -> (r: DeboaRequestBuilder)
        ensures
            r@ == with_body(self@, encode_utf8(text@)),
    {
        self.bytes(text.as_bytes())
    }

    /// Sets a header from raw bytes.
    pub fn header_bytes(self, key: HeaderName, value: &[u8]) -> (r: Result<DeboaRequestBuilder, DeboaError>)
        requires
            self.has_room(),
        ensures
            header_set(self@, key@, value@, r),
    {
        if !is_valid_value(value) {
            return Err(DeboaError::Header { message: String::from_str("failed to parse header value") });
        }
        let mut inner = self.inner;
        header_map_insert(&mut inner.headers, key.as_str(), value);
        Ok(DeboaRequestBuilder { inner })
    }

    /// Sets a header: the name now maps to exactly this value.
    pub fn header(self, key: HeaderName, value: &str) -> (r: Result<DeboaRequestBuilder, DeboaError>)
        requires
            self.has_room(),
        ensures
            header_set(self@, key@, encode_utf8(value@), r),
    {
        self.header_bytes(key, value.as_bytes())
    }

    /// Sets the `authorization` header to `Bearer <token>`.
    pub fn bearer_auth(self, token: &str) -> (r: Result<DeboaRequestBuilder, DeboaError>)
        requires
            self.has_room(),
        ensures
            header_set(self@, "authorization"@, encode_utf8("Bearer "@) + encode_utf8(token@), r),
    {
        let mut v: Vec<u8> = Vec::new();
        v.extend_from_slice("Bearer ".as_bytes());
        v.extend_from_slice(token.as_bytes());
        assert(v@ =~= encode_utf8("Bearer "@) + encode_utf8(token@));
        self.header_bytes(HeaderName::authorization(), v.as_slice())
    }

    /// The request. Building never fails.
    pub fn build(self) -> (r: Result<DeboaRequest, DeboaError>)
        ensures
            r matches Ok(q) && q@ == self@,
    {
        Ok(self.inner)
    }
}


/// The outcome of setting the `cookie` header to `value`: it must be a valid
/// header value.
pub open spec fn cookie_header_set(before: RequestView, value: Seq<u8>, r: Result<DeboaRequestBuilder, DeboaError>) -> bool {
    if valid_value_bytes(value) {
        r matches Ok(b) && b@ == with_headers(before, before.headers.insert("cookie"@, seq![value]))
    } else {
        r matches Err(e) && is_cookie_error(e, "failed to parse header value"@)
    }
}

/// The outcome of adding one cookie: without a `cookie` header, the header
/// becomes `name=value`; with one, its first value must read as text, and
/// becomes that text, `; ` and `name=value`.
pub open spec fn cookie_added(before: RequestView, c: (Seq<char>, Seq<char>), r: Result<DeboaRequestBuilder, DeboaError>) -> bool {
    match first_value(before.headers, "cookie"@) {
        None => cookie_header_set(before, encode_utf8(cookie_pair_text(c)), r),
        Some(old) => if !visible_bytes(old) {
            r matches Err(e) && is_cookie_error(e, "failed to convert header to a str"@)
        } else {
            let v = encode_utf8(ascii_chars(old) + seq![';', ' '] + cookie_pair_text(c));
            if valid_value_bytes(v) {
                r matches Ok(b) && b@ == with_headers(before, before.headers.insert("cookie"@, before.headers["cookie"@].update(0, v)))
            } else {
                r matches Err(e) && is_cookie_error(e, "failed to parse header value"@)
            }
        },
    }
}

/// The content type and body of a form; `None` where a file of a multipart
/// form could not be read.
pub open spec fn form_parts(form: Form, sources: Seq<FieldSource>) -> Option<(Seq<char>, Seq<u8>)> {
    match form {
        Form::EncodedForm(f) => Some((encoded_content_type(), encoded_body(f.entries()))),
        Form::MultiPartForm(f) => match multipart_body(f.boundary_view(), f.entries(), sources) {
            Some(b) => Some((multipart_content_type(f.boundary_view()), b)),
            None => None,
        },
    }
}

/// The outcome of sending a form: its content type goes into the
/// `content-type` header and its body becomes the request's body.
pub open spec fn form_set(before: RequestView, form: Form, sources: Seq<FieldSource>, r: Result<DeboaRequestBuilder, DeboaError>) -> bool {
    match form_parts(form, sources) {
        None => r matches Err(DeboaError::Io(IoError::File { message })) && message@ == "Failed to read file"@,
        Some((ct, body)) => if valid_value_bytes(encode_utf8(ct)) {
            r matches Ok(b) && b@ == with_body(with_headers(before, before.headers.insert("content-type"@, seq![encode_utf8(ct)])), body)
        } else {
            r matches Err(e) && is_header_error(e, "failed to parse header value"@)
        },
    }
}

/// The `Basic` credentials of a user: `Basic ` and the base64 form of `user:password`.
pub open spec fn basic_credentials(username: Seq<char>, password: Seq<char>) -> Seq<u8> {
    encode_utf8("Basic "@) + encode_utf8(base64_standard(encode_utf8(username) + seq![58u8] + encode_utf8(password)))
}

impl DeboaRequestBuilder {
    /// Replaces all headers.
    pub fn headers<I: IntoHeaders>(self, headers: I) -> (r: DeboaRequestBuilder)
        requires
            headers.headers_ok(),
        ensures
            r@ == with_headers(self@, headers.headers_of()),
    {
        let map = match headers.into_headers() {
            Ok(m) => m,
            Err(_) => header_map_new(),
        };
        let mut inner = self.inner;
        inner.headers = map;
        DeboaRequestBuilder { inner }
    }

    /// Sets the `cookie` header to all cookies of a map, as `name=value`
    /// pairs joined by `; `, in the map's own order.
    pub fn cookies(self, cookies: CookieMap) -> (r: Result<DeboaRequestBuilder, DeboaError>)
        requires
            self.has_room(),
        ensures
            exists|ps: Seq<(Seq<char>, Seq<char>)>| lists_cookies(cookie_entries(cookies), ps) && cookie_header_set(self@, encode_utf8(join_cookies(ps)), r),
    {
        let pairs = cookies.pairs();
        let ghost ps = pairs@.map_values(|p: (String, String)| (p.0@, p.1@));
        let mut text: Vec<char> = Vec::new();
        let mut i: usize = 0;
        while i < pairs.len()
            invariant
                i <= pairs@.len(),
                ps == pairs@.map_values(|p: (String, String)| (p.0@, p.1@)),
                text@ == join_cookies(ps.take(i as int)),
            decreases pairs@.len() - i,
        {
            if i > 0 {
                text.push(';');
                text.push(' ');
            }
            let (k, v) = &pairs[i];
            push_str(&mut text, k.as_str());
            text.push('=');
            push_str(&mut text, v.as_str());
            proof {
                let t = ps.take(i + 1);
                assert(t.drop_last() =~= ps.take(i as int));
                assert(t.last() == (k@, v@));
            }
            i = i + 1;
        }
        assert(ps.take(pairs@.len() as int) =~= ps);
        proof {
            let m = cookie_entries(cookies);
            assert forall|j: int| 0 <= j < ps.len() implies m.contains_key((#[trigger] ps[j]).0) && m[ps[j].0].1 == ps[j].1 by {
                assert(ps[j] == (pairs@[j].0@, pairs@[j].1@));
            }
            assert forall|k: Seq<char>| m.contains_key(k) implies exists|j: int| 0 <= j < ps.len() && (#[trigger] ps[j]).0 == k by {
                let j = choose|j: int| 0 <= j < pairs@.len() && (#[trigger] pairs@[j]).0@ == k;
                assert(ps[j].0 == k);
            }
            assert forall|a: int, b: int| 0 <= a < b < ps.len() implies (#[trigger] ps[a]).0 != (#[trigger] ps[b]).0 by {
                assert(ps[a].0 == pairs@[a].0@);
                assert(ps[b].0 == pairs@[b].0@);
            }
            assert(lists_cookies(m, ps));
        }
        let value = string_of(text.as_slice());
        let bytes = value.as_str().as_bytes();
        if !is_valid_value(bytes) {
            return Err(DeboaError::Cookie { message: String::from_str("failed to parse header value") });
        }
        let name = HeaderName::cookie();
        let mut inner = self.inner;
        header_map_insert(&mut inner.headers, name.as_str(), bytes);
        Ok(DeboaRequestBuilder { inner })
    }

    /// Adds one cookie to the `cookie` header.
    pub fn cookie(self, cookie: DeboaCookie) -> (r: Result<DeboaRequestBuilder, DeboaError>)
        requires
            self.has_room(),
        ensures
            cookie_added(self@, cookie@, r),
    {
        let name = HeaderName::cookie();
        let mut text: Vec<char> = Vec::new();
        let existing = header_map_get(&self.inner.headers, name.as_str());
        match &existing {
            Some(old) => {
                if !is_visible(old.as_slice()) {
                    return Err(DeboaError::Cookie { message: String::from_str("failed to convert header to a str") });
                }
                let old_text = ascii_string(old.as_slice());
                push_str(&mut text, old_text.as_str());
                text.push(';');
                text.push(' ');
                assert(text@ =~= ascii_chars(old@) + seq![';', ' ']);
            },
            None => {
                assert(text@ =~= Seq::<char>::empty());
            },
        }
        let ghost prefix = text@;
        push_str(&mut text, cookie.name());
        text.push('=');
        push_str(&mut text, cookie.value());
        assert(text@ =~= prefix + cookie_pair_text(cookie@));
        let value = string_of(text.as_slice());
        let bytes = value.as_str().as_bytes();
        if !is_valid_value(bytes) {
            return Err(DeboaError::Cookie { message: String::from_str("failed to parse header value") });
        }
        let mut inner = self.inner;
        match existing {
            Some(_) => {
                header_map_set_first(&mut inner.headers, name.as_str(), bytes);
            },
            None => {
                header_map_insert(&mut inner.headers, name.as_str(), bytes);
            },
        }
        Ok(DeboaRequestBuilder { inner })
    }

    /// Sends a form: sets the `content-type` header to the form's content type
    /// and the body to the form's body. For a multipart form, `sources[i]`
    /// tells what the value of its `i`-th field names on disk.
    pub fn form(self, form: Form, sources: &Vec<FieldSource>) -> (r: Result<DeboaRequestBuilder, DeboaError>)
        requires
            self.has_room(),
            form matches Form::MultiPartForm(f) ==> sources@.len() == f.entries().len(),
        ensures
            form_set(self@, form, sources@, r),
    {
        let (content_type, body) = match form {
            Form::EncodedForm(f) => {
                let ct = f.content_type();
                (ct, f.build())
            },
            Form::MultiPartForm(f) => {
                let ct = f.content_type();
                match f.build_from(sources) {
                    Ok(b) => (ct, b),
                    Err(e) => return Err(e),
                }
            },
        };
        let ct_bytes = content_type.as_str().as_bytes();
        if !is_valid_value(ct_bytes) {
            return Err(DeboaError::Header { message: String::from_str("failed to parse header value") });
        }
        let name = HeaderName::content_type();
        let mut inner = self.inner;
        header_map_insert(&mut inner.headers, name.as_str(), ct_bytes);
        inner.body = body;
        Ok(DeboaRequestBuilder { inner })
    }

    /// Sends a serialized body: the `content-type` and `accept` headers are
    /// set to its media type, then the body to its bytes.
    pub fn body_as(self, mime_type: &str, body: Vec<u8>) -> (r: Result<DeboaRequestBuilder, DeboaError>)
        requires
            self.has_room(),
            self@.headers.dom().len() + 1 < crate::http_map::MAX_HEADER_NAMES,
        ensures
            if valid_value_bytes(encode_utf8(mime_type@)) {
                r matches Ok(b) && b@ == with_body(
                    with_headers(
                        self@,
                        self@.headers.insert("content-type"@, seq![encode_utf8(mime_type@)]).insert(
                            "accept"@,
                            seq![encode_utf8(mime_type@)],
                        ),
                    ),
                    body@,
                )
            } else {
                r matches Err(e) && is_header_error(e, "failed to parse header value"@)
            },
    {
        let with_type = self.header(HeaderName::content_type(), mime_type)?;
        proof {
            assert(with_type@.headers.dom() =~= self@.headers.dom().insert("content-type"@));
        }
        let with_accept = with_type.header(HeaderName::accept(), mime_type)?;
        Ok(with_accept.body(body))
    }

    /// Sets the `authorization` header to `Basic` and the base64 form of `username:password`.
    pub fn basic_auth(self, username: &str, password: &str) -> (r: Result<DeboaRequestBuilder, DeboaError>)
        requires
            self.has_room(),
            encode_utf8(username@).len() + encode_utf8(password@).len() < MAX_BASE64_INPUT,
        ensures
            header_set(self@, "authorization"@, basic_credentials(username@, password@), r),
    {
        let mut plain: Vec<u8> = Vec::new();
        plain.extend_from_slice(username.as_bytes());
        plain.push(58u8);
        plain.extend_from_slice(password.as_bytes());
        let encoded = base64_encode(plain.as_slice());
        let mut v: Vec<u8> = Vec::new();
        v.extend_from_slice("Basic ".as_bytes());
        v.extend_from_slice(encoded.as_str().as_bytes());
        assert(plain@ =~= encode_utf8(username@) + seq![58u8] + encode_utf8(password@));
        assert(v@ =~= basic_credentials(username@, password@));
        let name = HeaderName::authorization();
        self.header_bytes(name, v.as_slice())
    }
}

/// The request that `at` starts: the given method, HTTP/2, the URI, a `host`
/// header holding the URI's host, and an empty body.
pub open spec fn started_request(method: Method, u: UriView, host: Seq<char>) -> RequestView {
    RequestView {
        method,
        version: Version::HTTP_2,
        uri: u,
        headers: empty_headers().insert("host"@, seq![encode_utf8(host)]),
        body: Seq::empty(),
    }
}

/// The outcome of starting a request at a URL: the URL must parse, its text
/// must parse as a URI, and the URI must have a host.
pub open spec fn start_outcome(url: Result<crate::url::UrlView, Seq<char>>, method: Method, r: Result<DeboaRequestBuilder, DeboaError>) -> bool {
    match url {
        Err(m) => r matches Err(DeboaError::UrlParse { message }) && message@ == m,
        Ok(v) => match uri_parse(v.0) {
            Err(e) => r matches Err(DeboaError::Request(RequestError::UrlParse { message })) && message@ == e,
            Ok(u) => match u.2 {
                None => r matches Err(DeboaError::Request(RequestError::Prepare { message })) && message@ == "the URI has no host"@,
                Some(h) => r matches Ok(b) && b@ == started_request(method, u, h),
            },
        },
    }
}

impl DeboaRequest {
    /// Starts a request with the given method at a URL. A URL that does not
    /// parse, or whose text is not a valid URI, gives an error and no request;
    /// so does a URI without a host. Every such input is answered with `Err`
    /// rather than a panic: the builder comes back in a `Result`, and the
    /// URL's own parse error is what a caller gets to see.
    pub fn at<T: IntoUrl>(url: T, method: Method) -> (r: Result<DeboaRequestBuilder, DeboaError>)
        ensures
            start_outcome(url.url_of(), method, r),
    {
        let parsed: Url = match url.into_url() {
            Ok(p) => p,
            Err(e) => return Err(e),
        };
        let uri = match Uri::parse(parsed.as_str()) {
            Ok(u) => u,
            Err(message) => return Err(DeboaError::Request(RequestError::UrlParse { message })),
        };
        DeboaRequest::start(uri, method)
    }

    /// Starts a request with the given method at a parsed URI: HTTP/2, a
    /// `host` header holding the URI's host, an empty body. The URI must have a host.
    pub fn start(uri: Uri, method: Method) -> (r: Result<DeboaRequestBuilder, DeboaError>)
        requires
            uri.wf(),
        ensures
            match uri@.2 {
                None => r matches Err(DeboaError::Request(RequestError::Prepare { message })) && message@ == "the URI has no host"@,
                Some(h) => r matches Ok(b) && b@ == started_request(method, uri@, h),
            },
    {
        let host = match uri.host() {
            Some(h) => h,
            None => {
                return Err(DeboaError::Request(RequestError::Prepare { message: String::from_str("the URI has no host") }));
            },
        };
        let mut headers = header_map_new();
        let name = HeaderName::host();
        proof {
            uri.lemma_wf();
            lemma_uri_chars_are_value(host@);
            assert(header_entries(headers).dom() =~= Set::empty());
        }
        header_map_insert(&mut headers, name.as_str(), host.as_bytes());
        let inner = DeboaRequest::from_fields(method, Version::HTTP_2, uri, headers, Vec::new());
        Ok(DeboaRequestBuilder { inner })
    }

    /// Starts a GET request at a URL.
    pub fn from<T: IntoUrl>(url: T) -> (r: Result<DeboaRequestBuilder, DeboaError>)
        ensures
            start_outcome(url.url_of(), Method::GET, r),
    {
        DeboaRequest::at(url, Method::GET)
    }

    /// Starts a POST request at a URL.
    pub fn to<T: IntoUrl>(url: T) -> (r: Result<DeboaRequestBuilder, DeboaError>)
        ensures
            start_outcome(url.url_of(), Method::POST, r),
    {
        DeboaRequest::at(url, Method::POST)
    }

    /// Starts a GET request.
    pub fn get<T: IntoUrl>(url: T) -> (r: Result<DeboaRequestBuilder, DeboaError>)
        ensures
            start_outcome(url.url_of(), Method::GET, r),
    {
        Ok(DeboaRequest::from(url)?.method(Method::GET))
    }

    /// Starts a POST request.
    pub fn post<T: IntoUrl>(url: T) -> (r: Result<DeboaRequestBuilder, DeboaError>)
        ensures
            start_outcome(url.url_of(), Method::POST, r),
    {
        Ok(DeboaRequest::to(url)?.method(Method::POST))
    }

    /// Starts a QUERY request.
    pub fn query<T: IntoUrl>(url: T) -> (r: Result<DeboaRequestBuilder, DeboaError>)
        ensures
            start_outcome(url.url_of(), Method::QUERY, r),
    {
        Ok(DeboaRequest::to(url)?.method(Method::QUERY))
    }

    /// Starts a PUT request.
    pub fn put<T: IntoUrl>(url: T) -> (r: Result<DeboaRequestBuilder, DeboaError>)
        ensures
            start_outcome(url.url_of(), Method::PUT, r),
    {
        Ok(DeboaRequest::to(url)?.method(Method::PUT))
    }

    /// Starts a PATCH request.
    pub fn patch<T: IntoUrl>(url: T) -> (r: Result<DeboaRequestBuilder, DeboaError>)
        ensures
            start_outcome(url.url_of(), Method::PATCH, r),
    {
        Ok(DeboaRequest::to(url)?.method(Method::PATCH))
    }

    /// Starts a DELETE request.
    pub fn delete<T: IntoUrl>(url: T) -> (r: Result<DeboaRequestBuilder, DeboaError>)
        ensures
            start_outcome(url.url_of(), Method::DELETE, r),
    {
        Ok(DeboaRequest::from(url)?.method(Method::DELETE))
    }
}

/// The bytes of URI characters are valid header-value bytes.
pub proof fn lemma_uri_chars_are_value(a: Seq<char>)
    requires
        forall|i: int| 0 <= i < a.len() ==> crate::http_map::is_authority_char(#[trigger] a[i]),
    ensures
        valid_value_bytes(encode_utf8(a)),
{
    assert forall|i: int| 0 <= i < a.len() implies '\0' <= #[trigger] a[i] <= '\u{7f}' by {
        assert(crate::http_map::is_authority_char(a[i]));
    }
    assert(vstd::utf8::is_ascii_chars(a));
    vstd::utf8::is_ascii_chars_encode_utf8(a);
    assert forall|i: int| 0 <= i < encode_utf8(a).len() implies crate::header::is_value_byte(#[trigger] encode_utf8(a)[i]) by {
        assert(a[i] as u8 == encode_utf8(a)[i]);
    }
}

/// Starts a GET request.
pub fn get<T: IntoUrl>(url: T) -> (r: Result<DeboaRequestBuilder, DeboaError>)
    ensures
        start_outcome(url.url_of(), Method::GET, r),
{
    DeboaRequest::get(url)
}

/// Starts a POST request.
pub fn post<T: IntoUrl>(url: T) -> (r: Result<DeboaRequestBuilder, DeboaError>)
    ensures
        start_outcome(url.url_of(), Method::POST, r),
{
    DeboaRequest::post(url)
}

/// Starts a QUERY request.
pub fn query<T: IntoUrl>(url: T) -> (r: Result<DeboaRequestBuilder, DeboaError>)
    ensures
        start_outcome(url.url_of(), Method::QUERY, r),
{
    DeboaRequest::query(url)
}

/// Starts a PUT request.
pub fn put<T: IntoUrl>(url: T) -> (r: Result<DeboaRequestBuilder, DeboaError>)
    ensures
        start_outcome(url.url_of(), Method::PUT, r),
{
    DeboaRequest::put(url)
}

/// Starts a DELETE request.
pub fn delete<T: IntoUrl>(url: T) -> (r: Result<DeboaRequestBuilder, DeboaError>)
    ensures
        start_outcome(url.url_of(), Method::DELETE, r),
{
    DeboaRequest::delete(url)
}

/// Starts a PATCH request.
pub fn patch<T: IntoUrl>(url: T) -> (r: Result<DeboaRequestBuilder, DeboaError>)
    ensures
        start_outcome(url.url_of(), Method::PATCH, r),
{
    DeboaRequest::patch(url)
}

} // verus!
