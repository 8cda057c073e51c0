//! URLs, as the `url` crate parses them.
use vstd::prelude::*;
use crate::errors::DeboaError;
use crate::text::opt_view;

verus! {

/// A parsed URL: its serialization, scheme and host.
#[derive(Debug, Clone, PartialEq, Eq)]
pub struct Url {
    serialization: String,
    scheme: String,
    host: Option<String>,
}

/// What a URL holds: serialization, scheme and host.
pub type UrlView = (Seq<char>, Seq<char>, Option<Seq<char>>);

/// What `url::Url::parse` makes of a text: the URL's serialization, scheme
/// and host, or the error's message.
pub uninterp spec fn url_parse(s: Seq<char>) -> Result<UrlView, Seq<char>>;

/// A parsed URL's parts.
pub open spec fn url_parsed(u: Seq<char>, scheme: Seq<char>, host: Option<Seq<char>>) -> Result<UrlView, Seq<char>> {
    Ok((u, scheme, host))
}

/// A refused URL's error message.
pub open spec fn url_refused(e: Seq<char>) -> Result<UrlView, Seq<char>> {
    Err(e)
}

/// `url::Url::parse`, with the result's `as_str`, `scheme` and `host_str`, or
/// the error's message.
#[verifier::external_body]
fn parse_url_text(s: &str) -> (r: Result<(String, String, Option<String>), String>)
    ensures
        r matches Ok((u, sc, h)) ==> url_parse(s@) == url_parsed(u@, sc@, opt_view(h)),
        r matches Err(e) ==> url_parse(s@) == url_refused(e@),
{
    match url::Url::parse(s) {
        Ok(u) => Ok((u.as_str().to_string(), u.scheme().to_string(), u.host_str().map(|h| h.to_string()))),
        Err(e) => Err(e.to_string()),
    }
}

impl View for Url {
    type V = UrlView;

    closed spec fn view(&self) -> UrlView {
        (self.serialization@, self.scheme@, opt_view(self.host))
    }
}

impl Url {
    /// Parses a URL.
    pub fn parse(s: &str) -> (r: Result<Url, DeboaError>)
        ensures
            r matches Ok(u) ==> url_parse(s@) == Ok::<UrlView, Seq<char>>(u@),
            r matches Err(e) ==> url_parse(s@) is Err && e == (DeboaError::UrlParse { message: e->UrlParse_message })
                && url_parse(s@) == Err::<UrlView, Seq<char>>(e->UrlParse_message@),
    {
        match parse_url_text(s) {
            Ok((serialization, scheme, host)) => Ok(Url { serialization, scheme, host }),
            Err(message) => Err(DeboaError::UrlParse { message }),
        }
    }

    /// The URL as text.
    pub fn as_str(&self) -> (r: &str)
        ensures
            r@ == self@.0,
    {
        self.serialization.as_str()
    }

    /// The scheme.
    pub fn scheme(&self) -> (r: &str)
        ensures
            r@ == self@.1,
    {
        self.scheme.as_str()
    }

    /// The host, where there is one.
    pub fn host_str(&self) -> (r: Option<&str>)
        ensures
            r matches Some(h) ==> self@.2 == Some(h@),
            r is None ==> self@.2 is None,
    {
        match &self.host {
            Some(h) => Some(h.as_str()),
            None => None,
        }
    }
}

/// What can name a URL: a URL, or text to parse as one.
pub trait IntoUrl: Sized {
    /// The URL this value names, or the message of the parse error.
    spec fn url_of(&self) -> Result<UrlView, Seq<char>>;

    /// Turns the value into a URL.
    fn into_url(self) -> (r: Result<Url, DeboaError>)
        ensures
            match self.url_of() {
                Ok(v) => r matches Ok(u) && u@ == v,
                Err(m) => r matches Err(DeboaError::UrlParse { message }) && message@ == m,
            };

    /// Parses the value as a URL (the same as `into_url`).
    fn parse_url(self) -> (r: Result<Url, DeboaError>)
        ensures
            match self.url_of() {
                Ok(v) => r matches Ok(u) && u@ == v,
                Err(m) => r matches Err(DeboaError::UrlParse { message }) && message@ == m,
            },
    {
        self.into_url()
    }
}

impl IntoUrl for Url {
    open spec fn url_of(&self) -> Result<UrlView, Seq<char>> {
        Ok(self@)
    }

    fn into_url(self) -> (r: Result<Url, DeboaError>) {
        Ok(self)
    }
}

impl<'a> IntoUrl for &'a str {
    open spec fn url_of(&self) -> Result<UrlView, Seq<char>> {
        url_parse(self@)
    }

    fn into_url(self) -> (r: Result<Url, DeboaError>) {
        Url::parse(self)
    }
}

impl IntoUrl for String {
    open spec fn url_of(&self) -> Result<UrlView, Seq<char>> {
        url_parse(self@)
    }

    fn into_url(self) -> (r: Result<Url, DeboaError>) {
        Url::parse(self.as_str())
    }
}

impl<'a> IntoUrl for &'a String {
    open spec fn url_of(&self) -> Result<UrlView, Seq<char>> {
        url_parse(self@)
    }

    fn into_url(self) -> (r: Result<Url, DeboaError>) {
        Url::parse(self.as_str())
    }
}

impl<'a> IntoUrl for &'a mut String {
    open spec fn url_of(&self) -> Result<UrlView, Seq<char>> {
        url_parse(self@)
    }

    fn into_url(self) -> (r: Result<Url, DeboaError>) {
        Url::parse(self.as_str())
    }
}

} // verus!
