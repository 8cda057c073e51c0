//! Starting requests from methods, strings and URLs.
use vstd::prelude::*;
use crate::errors::{DeboaError, RequestError};
use crate::http_map::uri_parse;
use crate::method::{Method, method_name};
use crate::request::{DeboaRequest, DeboaRequestBuilder, start_outcome, started_request};
use crate::sealed::{IntoRequestSealed, MethodExtSealed};
use crate::text::{chars_eq, chars_of};
use crate::url::{IntoUrl, Url, UrlView};

verus! {

/// The methods that a request can be started with by name.
pub open spec fn startable(m: Method) -> bool {
    m == Method::GET || m == Method::POST || m == Method::QUERY || m == Method::PUT || m == Method::DELETE
        || m == Method::PATCH
}

/// The method that a text names for starting a request: the upper-case or
/// lower-case name of GET, POST, QUERY, PUT, DELETE or PATCH.
pub open spec fn startable_method_named(s: Seq<char>) -> Option<Method> {
    if s == method_name(Method::GET) || s == "get"@ {
        Some(Method::GET)
    } else if s == method_name(Method::POST) || s == "post"@ {
        Some(Method::POST)
    } else if s == method_name(Method::QUERY) || s == "query"@ {
        Some(Method::QUERY)
    } else if s == method_name(Method::PUT) || s == "put"@ {
        Some(Method::PUT)
    } else if s == method_name(Method::DELETE) || s == "delete"@ {
        Some(Method::DELETE)
    } else if s == method_name(Method::PATCH) || s == "patch"@ {
        Some(Method::PATCH)
    } else {
        None
    }
}

/// Decides `startable_method_named`.
fn startable_method(s: &str) -> (r: Option<Method>)
    ensures
        r == startable_method_named(s@),
{
    let cs = chars_of(s);
    if chars_eq(cs.as_slice(), Method::GET.as_chars().as_slice()) || chars_eq(cs.as_slice(), chars_of("get").as_slice()) {
        Some(Method::GET)
    } else if chars_eq(cs.as_slice(), Method::POST.as_chars().as_slice()) || chars_eq(cs.as_slice(), chars_of("post").as_slice()) {
        Some(Method::POST)
    } else if chars_eq(cs.as_slice(), Method::QUERY.as_chars().as_slice()) || chars_eq(cs.as_slice(), chars_of("query").as_slice()) {
        Some(Method::QUERY)
    } else if chars_eq(cs.as_slice(), Method::PUT.as_chars().as_slice()) || chars_eq(cs.as_slice(), chars_of("put").as_slice()) {
        Some(Method::PUT)
    } else if chars_eq(cs.as_slice(), Method::DELETE.as_chars().as_slice()) || chars_eq(cs.as_slice(), chars_of("delete").as_slice()) {
        Some(Method::DELETE)
    } else if chars_eq(cs.as_slice(), Method::PATCH.as_chars().as_slice()) || chars_eq(cs.as_slice(), chars_of("patch").as_slice()) {
        Some(Method::PATCH)
    } else {
        None
    }
}

/// Starts a request with a startable method, through that method's own starter.
fn start_with(m: Method, url: &str) -> (r: Result<DeboaRequestBuilder, DeboaError>)
    ensures
        start_outcome(url.url_of(), m, r),
{
    match m {
        Method::GET => DeboaRequest::get(url),
        Method::POST => DeboaRequest::post(url),
        Method::QUERY => DeboaRequest::query(url),
        Method::PUT => DeboaRequest::put(url),
        Method::DELETE => DeboaRequest::delete(url),
        Method::PATCH => DeboaRequest::patch(url),
        _ => DeboaRequest::at(url, m),
    }
}

/// Starting requests from a method, or from a method's name.
pub trait MethodExt: MethodExtSealed + Sized {
    /// The method that the value stands for, where requests can be started with it.
    spec fn startable_method_of(&self) -> Option<Method>;

    /// Starts a request with this method at a URL (only the methods GET,
    /// POST, QUERY, PUT, DELETE and PATCH are supported).
    fn from_url(self, url: &str) -> (r: Result<DeboaRequestBuilder, DeboaError>)
        requires
            self.startable_method_of() is Some,
        ensures
            start_outcome(url.url_of(), self.startable_method_of().unwrap(), r),
    ;

    /// The same as `from_url`.
    fn to_url(self, url: &str) -> (r: Result<DeboaRequestBuilder, DeboaError>)
        requires
            self.startable_method_of() is Some,
        ensures
            start_outcome(url.url_of(), self.startable_method_of().unwrap(), r),
    ;
}

impl MethodExt for Method {
    open spec fn startable_method_of(&self) -> Option<Method> {
        if startable(*self) { Some(*self) } else { None }
    }

    fn from_url(self, url: &str) -> (r: Result<DeboaRequestBuilder, DeboaError>) {
        start_with(self, url)
    }

    fn to_url(self, url: &str) -> (r: Result<DeboaRequestBuilder, DeboaError>) {
        self.from_url(url)
    }
}

impl<'a> MethodExt for &'a str {
    open spec fn startable_method_of(&self) -> Option<Method> {
        startable_method_named(self@)
    }

    fn from_url(self, url: &str) -> (r: Result<DeboaRequestBuilder, DeboaError>) {
        let m = startable_method(self).unwrap();
        start_with(m, url)
    }

    fn to_url(self, url: &str) -> (r: Result<DeboaRequestBuilder, DeboaError>) {
        self.from_url(url)
    }
}

/// The outcome of building a GET request at a URL: as `start_outcome` for
/// GET, with the built request in place of the builder.
pub open spec fn get_request_outcome(url: Result<UrlView, Seq<char>>, r: Result<DeboaRequest, DeboaError>) -> bool {
    match url {
        Err(m) => r matches Err(DeboaError::UrlParse { message }) && message@ == m,
        Ok(v) => match uri_parse(v.0) {
            Err(e) => r matches Err(DeboaError::Request(RequestError::UrlParse { message })) && message@ == e,
            Ok(u) => match u.2 {
                None => r matches Err(DeboaError::Request(RequestError::Prepare { message })) && message@ == "the URI has no host"@,
                Some(h) => r matches Ok(q) && q@ == started_request(Method::GET, u, h),
            },
        },
    }
}

/// What can become a request.
pub trait IntoRequest: IntoRequestSealed + Sized {
    /// `r` is what turning this value into a request gives.
    spec fn requested(&self, r: Result<DeboaRequest, DeboaError>) -> bool;

    /// The request.
    fn into_request(self) -> (r: Result<DeboaRequest, DeboaError>)
        ensures
            self.requested(r),
    ;
}

impl IntoRequest for DeboaRequest {
    open spec fn requested(&self, r: Result<DeboaRequest, DeboaError>) -> bool {
        r matches Ok(q) && q@ == self@
    }

    fn into_request(self) -> (r: Result<DeboaRequest, DeboaError>) {
        Ok(self)
    }
}

/// A GET request at a URL, built.
fn get_built<T: IntoUrl>(url: T) -> (r: Result<DeboaRequest, DeboaError>)
    ensures
        get_request_outcome(url.url_of(), r),
{
    DeboaRequest::get(url)?.build()
}

impl<'a> IntoRequest for &'a str {
    open spec fn requested(&self, r: Result<DeboaRequest, DeboaError>) -> bool {
        get_request_outcome(self.url_of(), r)
    }

    fn into_request(self) -> (r: Result<DeboaRequest, DeboaError>) {
        get_built(self)
    }
}

impl IntoRequest for String {
    open spec fn requested(&self, r: Result<DeboaRequest, DeboaError>) -> bool {
        get_request_outcome(self.url_of(), r)
    }

    fn into_request(self) -> (r: Result<DeboaRequest, DeboaError>) {
        get_built(self)
    }
}

impl IntoRequest for Url {
    open spec fn requested(&self, r: Result<DeboaRequest, DeboaError>) -> bool {
        get_request_outcome(self.url_of(), r)
    }

    fn into_request(self) -> (r: Result<DeboaRequest, DeboaError>) {
        get_built(self)
    }
}

/// The names that start requests: each method's upper-case and lower-case
/// name starts a request with that method; other spellings start none.
pub proof fn law_startable_names()
    ensures
        startable_method_named("GET"@) == Some(Method::GET) && startable_method_named("get"@) == Some(Method::GET),
        startable_method_named("POST"@) == Some(Method::POST) && startable_method_named("post"@) == Some(Method::POST),
        startable_method_named("QUERY"@) == Some(Method::QUERY) && startable_method_named("query"@) == Some(Method::QUERY),
        startable_method_named("PUT"@) == Some(Method::PUT) && startable_method_named("put"@) == Some(Method::PUT),
        startable_method_named("DELETE"@) == Some(Method::DELETE) && startable_method_named("delete"@) == Some(Method::DELETE),
        startable_method_named("PATCH"@) == Some(Method::PATCH) && startable_method_named("patch"@) == Some(Method::PATCH),
        startable_method_named("Get"@) is None,
        startable_method_named("OPTIONS"@) is None,
        forall|m: Method| #[trigger] startable(m) ==> startable_method_named(method_name(m)) == Some(m),
{
    reveal_strlit("GET");
    reveal_strlit("get");
    reveal_strlit("POST");
    reveal_strlit("post");
    reveal_strlit("QUERY");
    reveal_strlit("query");
    reveal_strlit("PUT");
    reveal_strlit("put");
    reveal_strlit("DELETE");
    reveal_strlit("delete");
    reveal_strlit("PATCH");
    reveal_strlit("patch");
    reveal_strlit("Get");
    reveal_strlit("OPTIONS");
    assert("GET"@.len() == 3 && "GET"@[0] == 'G' && "GET"@[1] == 'E');
    assert("get"@.len() == 3 && "get"@[0] == 'g' && "get"@[1] == 'e');
    assert("POST"@.len() == 4 && "POST"@[0] == 'P' && "POST"@[1] == 'O');
    assert("post"@.len() == 4 && "post"@[0] == 'p' && "post"@[1] == 'o');
    assert("QUERY"@.len() == 5 && "QUERY"@[0] == 'Q' && "QUERY"@[1] == 'U');
    assert("query"@.len() == 5 && "query"@[0] == 'q' && "query"@[1] == 'u');
    assert("PUT"@.len() == 3 && "PUT"@[0] == 'P' && "PUT"@[1] == 'U');
    assert("put"@.len() == 3 && "put"@[0] == 'p' && "put"@[1] == 'u');
    assert("DELETE"@.len() == 6 && "DELETE"@[0] == 'D' && "DELETE"@[1] == 'E');
    assert("delete"@.len() == 6 && "delete"@[0] == 'd' && "delete"@[1] == 'e');
    assert("PATCH"@.len() == 5 && "PATCH"@[0] == 'P' && "PATCH"@[1] == 'A');
    assert("patch"@.len() == 5 && "patch"@[0] == 'p' && "patch"@[1] == 'a');
    assert("Get"@.len() == 3 && "Get"@[0] == 'G' && "Get"@[1] == 'e');
    assert("OPTIONS"@.len() == 7 && "OPTIONS"@[0] == 'O' && "OPTIONS"@[1] == 'P');
    assert("GET"@ =~= method_name(Method::GET));
    assert("POST"@ =~= method_name(Method::POST));
    assert("QUERY"@ =~= method_name(Method::QUERY));
    assert("PUT"@ =~= method_name(Method::PUT));
    assert("DELETE"@ =~= method_name(Method::DELETE));
    assert("PATCH"@ =~= method_name(Method::PATCH));
}

} // verus!
