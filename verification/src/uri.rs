//! Request URIs.
use vstd::prelude::*;
use crate::http_map::{uri_parse, parse_uri, is_authority_char};
use crate::text::opt_view;

verus! {

/// A parsed request URI: its display form, its authority and its host.
#[derive(Debug, Clone, PartialEq, Eq)]
pub struct Uri {
    text: String,
    authority: Option<String>,
    host: Option<String>,
}

/// What a URI holds: display form, authority and host.
pub type UriView = (Seq<char>, Option<Seq<char>>, Option<Seq<char>>);

impl View for Uri {
    type V = UriView;

    closed spec fn view(&self) -> UriView {
        (self.text@, opt_view(self.authority), opt_view(self.host))
    }
}

impl Uri {
    /// Whether the URI's parts are as the `http` crate's parser leaves them.
    pub closed spec fn wf(&self) -> bool {
        &&& (self.authority is Some <==> self.host is Some)
        &&& self.authority matches Some(a) ==> forall|i: int| 0 <= i < a@.len() ==> is_authority_char(#[trigger] a@[i])
        &&& self.host matches Some(h) ==> forall|i: int| 0 <= i < h@.len() ==> is_authority_char(#[trigger] h@[i])
    }

    /// The authority of a well-formed URI holds only URI characters, and it
    /// is there exactly when a host is.
    pub proof fn lemma_wf(&self)
        requires
            self.wf(),
        ensures
            self@.1 is Some <==> self@.2 is Some,
            self@.1 matches Some(a) ==> forall|i: int| 0 <= i < a.len() ==> is_authority_char(#[trigger] a[i]),
            self@.2 matches Some(h) ==> forall|i: int| 0 <= i < h.len() ==> is_authority_char(#[trigger] h[i]),
    {
    }

    /// Parses a URI as `http::Uri::from_str` does; the error's message where it refuses the text.
    pub fn parse(s: &str) -> (r: Result<Uri, String>)
        ensures
            r matches Ok(u) ==> uri_parse(s@) == Ok::<UriView, Seq<char>>(u@) && u.wf(),
            r matches Err(e) ==> uri_parse(s@) == Err::<UriView, Seq<char>>(e@),
    {
        match parse_uri(s) {
            Ok((text, authority, host)) => Ok(Uri { text, authority, host }),
            Err(e) => Err(e),
        }
    }

    /// The URI as text.
    pub fn as_str(&self) -> (r: &str)
        ensures
            r@ == self@.0,
    {
        self.text.as_str()
    }

    /// The authority, if the URI has one.
    pub fn authority(&self) -> (r: Option<&str>)
        ensures
            r matches Some(a) ==> self@.1 == Some(a@),
            r is None ==> self@.1 is None,
    {
        match &self.authority {
            Some(a) => Some(a.as_str()),
            None => None,
        }
    }

    /// The host, if the URI has one.
    pub fn host(&self) -> (r: Option<&str>)
        ensures
            r matches Some(h) ==> self@.2 == Some(h@),
            r is None ==> self@.2 is None,
    {
        match &self.host {
            Some(h) => Some(h.as_str()),
            None => None,
        }
    }
}

} // verus!
