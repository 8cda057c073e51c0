//! deboa: a small HTTP client core with verified request, response and form logic.
use vstd::prelude::*;

pub mod conn;
pub mod cookie;
pub mod encoding;
pub mod errors;
pub mod form;
pub mod header;
pub mod http_map;
pub mod into_headers;
pub mod laws;
pub mod macros;
pub mod method;
pub mod request;
pub mod request_ext;
pub mod request_line;
pub mod request_text;
pub mod response;
pub mod sealed;
pub mod text;
pub mod uri;
pub mod url;

verus! {

} // verus!
