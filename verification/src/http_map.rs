//! The `http` crate's header map and URI parser, as this crate uses them.
//!
//! Everything here is trusted: each item states what the `http` crate's
//! source shows of the function it calls.
use vstd::prelude::*;
use crate::header::{is_name, valid_value_bytes};
use crate::text::opt_view;

verus! {

/// The `http` crate's multimap from header names to header values.
#[verifier::external_type_specification]
#[verifier::external_body]
#[verifier::reject_recursive_types(T)]
pub struct ExHeaderMap<T>(http::HeaderMap<T>);

/// The `http` crate's header value.
#[verifier::external_type_specification]
#[verifier::external_body]
pub struct ExHeaderValue(http::HeaderValue);

/// What a header map holds: for each (normalized) name, its values in the
/// order in which they were added.
pub uninterp spec fn header_entries(m: http::HeaderMap) -> Map<Seq<char>, Seq<Seq<u8>>>;

/// The number of distinct names below which inserting a new name into a
/// header map cannot exceed the map's maximum capacity (`HeaderMap::insert`
/// panics when its index table would have to grow past 2^15 slots).
pub const MAX_HEADER_NAMES: usize = 6000;

/// Room for one more name in a header map.
pub open spec fn has_room(m: http::HeaderMap) -> bool {
    &&& header_entries(m).dom().finite()
    &&& header_entries(m).dom().len() < MAX_HEADER_NAMES
}

/// The first value of a name, as `HeaderMap::get` hands it out.
pub open spec fn first_value(m: Map<Seq<char>, Seq<Seq<u8>>>, name: Seq<char>) -> Option<Seq<u8>> {
    if m.contains_key(name) && m[name].len() > 0 {
        Some(m[name][0])
    } else {
        None
    }
}

/// All values of a name, as `HeaderMap::get_all` hands them out.
pub open spec fn all_values(m: Map<Seq<char>, Seq<Seq<u8>>>, name: Seq<char>) -> Seq<Seq<u8>> {
    if m.contains_key(name) { m[name] } else { Seq::empty() }
}

/// The contents of an empty header map.
pub open spec fn empty_headers() -> Map<Seq<char>, Seq<Seq<u8>>> {
    Map::empty()
}

/// `n` is the number of distinct names in `m` (and there are finitely many).
pub open spec fn counts_names(m: http::HeaderMap, n: usize) -> bool {
    &&& header_entries(m).dom().finite()
    &&& header_entries(m).dom().len() == n
}

/// `HeaderMap::new`: an empty map.
#[verifier::external_body]
pub(crate) fn header_map_new() -> (r: http::HeaderMap)
    ensures
        header_entries(r) == empty_headers(),
{
    http::HeaderMap::new()
}

/// `HeaderMap::insert`: the name now maps to exactly the one given value; the
/// other names are untouched. The name is built by `HeaderName::from_bytes`,
/// which accepts every normalized name unchanged.
#[verifier::external_body]
pub(crate) fn header_map_insert(m: &mut http::HeaderMap, name: &str, value: &[u8])
    requires
        is_name(name@),
        valid_value_bytes(value@),
        has_room(*old(m)),
    ensures
        header_entries(*final(m)) == header_entries(*old(m)).insert(name@, seq![value@]),
{
    match (http::HeaderName::from_bytes(name.as_bytes()), http::HeaderValue::from_bytes(value)) {
        (Ok(n), Ok(v)) => {
            m.insert(n, v);
        },
        _ => {},
    }
}

/// `HeaderMap::get_mut`, then assigning through the reference: the first
/// value of a name that is present becomes the given value; its other values
/// and the other names are untouched.
#[verifier::external_body]
pub(crate) fn header_map_set_first(m: &mut http::HeaderMap, name: &str, value: &[u8])
    requires
        is_name(name@),
        valid_value_bytes(value@),
        header_entries(*old(m)).contains_key(name@),
        header_entries(*old(m))[name@].len() > 0,
    ensures
        header_entries(*final(m)) == header_entries(*old(m)).insert(name@, header_entries(*old(m))[name@].update(0, value@)),
{
    if let (Some(slot), Ok(v)) = (m.get_mut(name), http::HeaderValue::from_bytes(value)) {
        *slot = v;
    }
}

/// `HeaderMap::get`: the first value of the name, as bytes.
#[verifier::external_body]
pub(crate) fn header_map_get(m: &http::HeaderMap, name: &str) -> (r: Option<Vec<u8>>)
    requires
        is_name(name@),
    ensures
        r matches Some(v) ==> first_value(header_entries(*m), name@) == Some(v@),
        r is None ==> first_value(header_entries(*m), name@) is None,
{
    m.get(name).map(|v| v.as_bytes().to_vec())
}

/// `HeaderMap::get_all`: every value of the name, in order, as bytes.
#[verifier::external_body]
pub(crate) fn header_map_get_all(m: &http::HeaderMap, name: &str) -> (r: Vec<Vec<u8>>)
    requires
        is_name(name@),
    ensures
        r@.len() == all_values(header_entries(*m), name@).len(),
        forall|i: int| 0 <= i < r@.len() ==> #[trigger] r@[i]@ == all_values(header_entries(*m), name@)[i],
{
    m.get_all(name).iter().map(|v| v.as_bytes().to_vec()).collect()
}

/// `HeaderMap::keys_len`: the number of distinct names (so the set of names is finite).
#[verifier::external_body]
pub(crate) fn header_map_names_len(m: &http::HeaderMap) -> (r: usize)
    ensures
        counts_names(*m, r),
{
    m.keys_len()
}

/// What `Uri::from_str` makes of a string, as plain values: the URI's
/// display form, its authority and its host; or the error's message.
pub uninterp spec fn uri_parse(s: Seq<char>) -> Result<(Seq<char>, Option<Seq<char>>, Option<Seq<char>>), Seq<char>>;

/// A parsed URI's parts.
pub open spec fn uri_parsed(d: Seq<char>, a: Option<Seq<char>>, h: Option<Seq<char>>) -> Result<(Seq<char>, Option<Seq<char>>, Option<Seq<char>>), Seq<char>> {
    Ok((d, a, h))
}

/// A refused URI's error message.
pub open spec fn uri_refused(e: Seq<char>) -> Result<(Seq<char>, Option<Seq<char>>, Option<Seq<char>>), Seq<char>> {
    Err(e)
}

/// A byte of a URI authority: the `http` crate accepts only URI characters and `%` there.
pub open spec fn is_authority_char(c: char) -> bool {
    '!' <= c && c <= '~'
}

/// `Uri::from_str`, with the display form (`to_string`), `authority` and
/// `host` of the result, or the error's message. The empty string is
/// refused; an authority holds only URI characters and `%`; a host is there
/// exactly when an authority is.
#[verifier::external_body]
pub(crate) fn parse_uri(s: &str) -> (r: Result<(String, Option<String>, Option<String>), String>)
    ensures
        r matches Ok((d, a, h)) ==> uri_parse(s@) == uri_parsed(d@, opt_view(a), opt_view(h)),
        r matches Err(e) ==> uri_parse(s@) == uri_refused(e@),
        s@.len() == 0 ==> r is Err,
        r matches Ok((d, a, h)) ==> (a is Some <==> h is Some),
        r matches Ok((d, Some(a), h)) ==> forall|i: int| 0 <= i < a@.len() ==> is_authority_char(#[trigger] a@[i]),
        r matches Ok((d, a, Some(h))) ==> forall|i: int| 0 <= i < h@.len() ==> is_authority_char(#[trigger] h@[i]),
{
    match s.parse::<http::Uri>() {
        Ok(u) => Ok((u.to_string(), u.authority().map(|a| a.as_str().to_string()), u.host().map(|h| h.to_string()))),
        Err(e) => Err(e.to_string()),
    }
}

} // verus!
