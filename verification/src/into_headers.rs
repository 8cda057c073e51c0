//! Turning lists of name/value pairs into header maps.
use vstd::prelude::*;
use vstd::utf8::encode_utf8;
use crate::errors::DeboaError;
use crate::header::{HeaderName, normalize_name, valid_name_bytes, valid_value_bytes};
use crate::http_map::{header_entries, header_map_new, header_map_insert, empty_headers, MAX_HEADER_NAMES};
use crate::sealed::IntoHeadersSealed;

verus! {

/// The headers that inserting the pairs in order gives: a later pair with the
/// same name replaces an earlier one.
pub open spec fn headers_from_pairs(ps: Seq<(Seq<char>, Seq<u8>)>) -> Map<Seq<char>, Seq<Seq<u8>>>
    decreases ps.len(),
{
    if ps.len() == 0 {
        empty_headers()
    } else {
        headers_from_pairs(ps.drop_last()).insert(ps.last().0, seq![ps.last().1])
    }
}

/// There are no more names than pairs.
pub proof fn lemma_pairs_names(ps: Seq<(Seq<char>, Seq<u8>)>)
    ensures
        headers_from_pairs(ps).dom().finite(),
        headers_from_pairs(ps).dom().len() <= ps.len(),
    decreases ps.len(),
{
    if ps.len() > 0 {
        lemma_pairs_names(ps.drop_last());
    } else {
        assert(headers_from_pairs(ps).dom() =~= Set::empty());
    }
}

/// The names set by a prefix of the pairs are among those set by all of them.
pub proof fn lemma_prefix_names(ps: Seq<(Seq<char>, Seq<u8>)>, i: int)
    requires
        0 <= i <= ps.len(),
    ensures
        headers_from_pairs(ps.take(i)).dom().subset_of(headers_from_pairs(ps).dom()),
        headers_from_pairs(ps.take(i)).dom().len() <= headers_from_pairs(ps).dom().len(),
    decreases ps.len(),
{
    lemma_pairs_names(ps);
    lemma_pairs_names(ps.take(i));
    if i == ps.len() {
        assert(ps.take(i) =~= ps);
    } else {
        assert(ps.take(i) =~= ps.drop_last().take(i));
        lemma_prefix_names(ps.drop_last(), i);
    }
    vstd::set_lib::lemma_len_subset(headers_from_pairs(ps.take(i)).dom(), headers_from_pairs(ps).dom());
}

/// The pairs set fewer distinct names than a header map can take.
pub open spec fn pairs_fit(ps: Seq<(Seq<char>, Seq<u8>)>) -> bool {
    headers_from_pairs(ps).dom().len() < MAX_HEADER_NAMES
}

/// Values that can become a header map.
pub trait IntoHeaders: IntoHeadersSealed + Sized {
    /// Every name and value is valid, and there are not too many of them
    /// (the conversion panics otherwise).
    spec fn headers_ok(&self) -> bool;

    /// The headers this value stands for.
    spec fn headers_of(&self) -> Map<Seq<char>, Seq<Seq<u8>>>;

    /// The header map.
    fn into_headers(self) -> (r: Result<http::HeaderMap, DeboaError>)
        requires
            self.headers_ok(),
        ensures
            r matches Ok(m) && header_entries(m) == self.headers_of(),
    ;
}

impl IntoHeaders for http::HeaderMap {
    open spec fn headers_ok(&self) -> bool {
        true
    }

    open spec fn headers_of(&self) -> Map<Seq<char>, Seq<Seq<u8>>> {
        header_entries(*self)
    }

    fn into_headers(self) -> (r: Result<http::HeaderMap, DeboaError>) {
        Ok(self)
    }
}

/// The pairs of a list of (name, text) pairs, as plain values.
pub open spec fn named_pairs(v: Seq<(HeaderName, String)>) -> Seq<(Seq<char>, Seq<u8>)> {
    Seq::new(v.len(), |i: int| (v[i].0@, encode_utf8(v[i].1@)))
}

/// The pairs of a list of (text, text) pairs: names normalized, values as bytes.
pub open spec fn text_pairs(v: Seq<(Seq<char>, Seq<char>)>) -> Seq<(Seq<char>, Seq<u8>)> {
    Seq::new(v.len(), |i: int| (normalize_name(encode_utf8(v[i].0)), encode_utf8(v[i].1)))
}

/// Every name of a list of text pairs is a valid name, and every value a valid value.
pub open spec fn text_pairs_ok(v: Seq<(Seq<char>, Seq<char>)>) -> bool {
    &&& pairs_fit(text_pairs(v))
    &&& forall|i: int| 0 <= i < v.len() ==> valid_name_bytes(encode_utf8((#[trigger] v[i]).0)) && valid_value_bytes(encode_utf8(v[i].1))
}

impl IntoHeaders for Vec<(HeaderName, String)> {
    open spec fn headers_ok(&self) -> bool {
        &&& pairs_fit(named_pairs(self@))
        &&& forall|i: int| 0 <= i < self@.len() ==> valid_value_bytes(encode_utf8((#[trigger] self@[i]).1@))
    }

    open spec fn headers_of(&self) -> Map<Seq<char>, Seq<Seq<u8>>> {
        headers_from_pairs(named_pairs(self@))
    }

    fn into_headers(self) -> (r: Result<http::HeaderMap, DeboaError>) {
        let mut headers = header_map_new();
        let n = self.len();
        let mut i: usize = 0;
        while i < n
            invariant
                n == self@.len(),
                i <= n,
                self.headers_ok(),
                header_entries(headers) == headers_from_pairs(named_pairs(self@).take(i as int)),
            decreases n - i,
        {
            let (key, value) = &self[i];
            let ghost ps = named_pairs(self@).take(i as int);
            proof {
                lemma_pairs_names(ps);
                lemma_prefix_names(named_pairs(self@), i as int);
                assert(named_pairs(self@).take(i + 1).drop_last() =~= ps);
            }
            let name = key.as_str();
            header_map_insert(&mut headers, name, value.as_str().as_bytes());
            i = i + 1;
        }
        assert(named_pairs(self@).take(n as int) =~= named_pairs(self@));
        Ok(headers)
    }
}

impl IntoHeaders for Vec<(String, String)> {
    open spec fn headers_ok(&self) -> bool {
        text_pairs_ok(self@.map_values(|p: (String, String)| (p.0@, p.1@)))
    }

    open spec fn headers_of(&self) -> Map<Seq<char>, Seq<Seq<u8>>> {
        headers_from_pairs(text_pairs(self@.map_values(|p: (String, String)| (p.0@, p.1@))))
    }

    fn into_headers(self) -> (r: Result<http::HeaderMap, DeboaError>) {
        let ghost tv = self@.map_values(|p: (String, String)| (p.0@, p.1@));
        let mut headers = header_map_new();
        let n = self.len();
        let mut i: usize = 0;
        while i < n
            invariant
                n == self@.len(),
                i <= n,
                tv == self@.map_values(|p: (String, String)| (p.0@, p.1@)),
                text_pairs_ok(tv),
                header_entries(headers) == headers_from_pairs(text_pairs(tv).take(i as int)),
            decreases n - i,
        {
            let (key, value) = &self[i];
            let ghost ps = text_pairs(tv).take(i as int);
            proof {
                lemma_pairs_names(ps);
                lemma_prefix_names(text_pairs(tv), i as int);
                assert(text_pairs(tv).take(i + 1).drop_last() =~= ps);
                assert(tv[i as int] == (key@, value@));
            }
            let name = match HeaderName::from_text(key.as_str()) {
                Some(h) => h,
                None => return Err(DeboaError::Header { message: String::from_str("Invalid header name") }),
            };
            header_map_insert(&mut headers, name.as_str(), value.as_str().as_bytes());
            i = i + 1;
        }
        assert(text_pairs(tv).take(n as int) =~= text_pairs(tv));
        Ok(headers)
    }
}

impl<'a> IntoHeaders for Vec<(&'a str, &'a str)> {
    open spec fn headers_ok(&self) -> bool {
        text_pairs_ok(self@.map_values(|p: (&'a str, &'a str)| (p.0@, p.1@)))
    }

    open spec fn headers_of(&self) -> Map<Seq<char>, Seq<Seq<u8>>> {
        headers_from_pairs(text_pairs(self@.map_values(|p: (&'a str, &'a str)| (p.0@, p.1@))))
    }

    fn into_headers(self) -> (r: Result<http::HeaderMap, DeboaError>) {
        let ghost tv = self@.map_values(|p: (&'a str, &'a str)| (p.0@, p.1@));
        let mut headers = header_map_new();
        let n = self.len();
        let mut i: usize = 0;
        while i < n
            invariant
                n == self@.len(),
                i <= n,
                tv == self@.map_values(|p: (&'a str, &'a str)| (p.0@, p.1@)),
                text_pairs_ok(tv),
                header_entries(headers) == headers_from_pairs(text_pairs(tv).take(i as int)),
            decreases n - i,
        {
            let (key, value) = self[i];
            let ghost ps = text_pairs(tv).take(i as int);
            proof {
                lemma_pairs_names(ps);
                lemma_prefix_names(text_pairs(tv), i as int);
                assert(text_pairs(tv).take(i + 1).drop_last() =~= ps);
                assert(tv[i as int] == (key@, value@));
            }
            let name = match HeaderName::from_text(key) {
                Some(h) => h,
                None => return Err(DeboaError::Header { message: String::from_str("Invalid header name") }),
            };
            header_map_insert(&mut headers, name.as_str(), value.as_bytes());
            i = i + 1;
        }
        assert(text_pairs(tv).take(n as int) =~= text_pairs(tv));
        Ok(headers)
    }
}

} // verus!
