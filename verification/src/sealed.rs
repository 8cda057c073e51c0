//! Marker traits that keep the conversion traits of this crate closed to
//! the types it implements them for.
use vstd::prelude::*;
use crate::header::HeaderName;
use crate::method::Method;
use crate::request::DeboaRequest;
use crate::url::Url;

verus! {

/// The types that `IntoRequest` is implemented for.
pub trait IntoRequestSealed {}

/// The types that `IntoHeaders` is implemented for.
pub trait IntoHeadersSealed {}

/// The types that `MethodExt` is implemented for.
pub trait MethodExtSealed {}

impl IntoRequestSealed for DeboaRequest {}

impl<'a> IntoRequestSealed for &'a str {}

impl IntoRequestSealed for String {}

impl IntoRequestSealed for Url {}

impl IntoHeadersSealed for http::HeaderMap {}

impl IntoHeadersSealed for Vec<(HeaderName, String)> {}

impl IntoHeadersSealed for Vec<(String, String)> {}

impl<'a> IntoHeadersSealed for Vec<(&'a str, &'a str)> {}

impl MethodExtSealed for Method {}

impl<'a> MethodExtSealed for &'a str {}

} // verus!
