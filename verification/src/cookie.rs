//! Cookies, and the map of cookies that a request carries.
use vstd::prelude::*;
use crate::errors::{DeboaError, is_cookie_error};
use crate::text::{chars_of, opt_view, push_str, string_of, trim, index_of, lemma_index_of, find_char, trim_bounds, copy_range};

verus! {

/// When a cookie expires: at the end of the session, or at a moment given
/// in seconds since the Unix epoch.
#[derive(Clone, Copy, Debug, PartialEq, Eq, Structural)]
pub enum Expiration {
    Session,
    DateTime(i64),
}

/// A cookie: a name and a value, and the attributes that a server may set.
#[derive(Debug, Clone, PartialEq, Eq)]
pub struct DeboaCookie {
    name: String,
    value: String,
    expires: Option<Expiration>,
    path: Option<String>,
    domain: Option<String>,
    secure: Option<bool>,
    http_only: Option<bool>,
}

/// The attributes of a cookie, as plain values.
pub struct CookieAttributes {
    pub expires: Option<Expiration>,
    pub path: Option<Seq<char>>,
    pub domain: Option<Seq<char>>,
    pub secure: Option<bool>,
    pub http_only: Option<bool>,
}

/// No attribute set.
pub open spec fn no_attributes() -> CookieAttributes {
    CookieAttributes { expires: None, path: None, domain: None, secure: None, http_only: None }
}

impl View for DeboaCookie {
    type V = (Seq<char>, Seq<char>);

    closed spec fn view(&self) -> (Seq<char>, Seq<char>) {
        (self.name@, self.value@)
    }
}

/// What a `Set-Cookie` (or `Cookie`) header text gives: the part before the
/// first `;` must hold a `=`; the name is the trimmed text before it, which
/// must not be empty, and the value the trimmed text after it. Attributes
/// after the first `;` are not read.
pub open spec fn cookie_of_header(s: Seq<char>) -> Option<(Seq<char>, Seq<char>)> {
    let pair = s.take(index_of(s, ';', 0));
    let eq = index_of(pair, '=', 0);
    if eq >= pair.len() {
        None
    } else {
        let name = trim(pair.take(eq));
        let value = trim(pair.skip(eq + 1));
        if name.len() == 0 { None } else { Some((name, value)) }
    }
}

impl DeboaCookie {
    /// A cookie with the given name and value.
    pub fn new(name: &str, value: &str) -> (r: DeboaCookie)
        ensures
            r@ == (name@, value@),
            r.attributes() == no_attributes(),
    {
        DeboaCookie {
            name: String::from_str(name),
            value: String::from_str(value),
            expires: None,
            path: None,
            domain: None,
            secure: None,
            http_only: None,
        }
    }

    /// The cookie's attributes.
    pub closed spec fn attributes(&self) -> CookieAttributes {
        CookieAttributes {
            expires: self.expires,
            path: opt_view(self.path),
            domain: opt_view(self.domain),
            secure: self.secure,
            http_only: self.http_only,
        }
    }

    /// The text of the cookie: `name=value`.
    pub fn to_string(&self) -> (r: String)
        ensures
            r@ == cookie_pair_text(self@),
    {
        let mut t = chars_of(self.name.as_str());
        t.push('=');
        push_str(&mut t, self.value.as_str());
        string_of(t.as_slice())
    }

    /// Sets when the cookie expires.
    pub fn set_expires(&mut self, expires: Expiration)
        ensures
            final(self)@ == old(self)@,
            final(self).attributes() == (CookieAttributes { expires: Some(expires), ..old(self).attributes() }),
    {
        self.expires = Some(expires);
    }

    /// When the cookie expires, if set.
    pub fn expires(&self) -> (r: Option<Expiration>)
        ensures
            r == self.attributes().expires,
    {
        self.expires
    }

    /// Sets the path the cookie applies to.
    pub fn set_path(&mut self, path: &str)
        ensures
            final(self)@ == old(self)@,
            final(self).attributes() == (CookieAttributes { path: Some(path@), ..old(self).attributes() }),
    {
        self.path = Some(String::from_str(path));
    }

    /// The path, if set.
    pub fn path(&self) -> (r: Option<&str>)
        ensures
            r matches Some(p) ==> self.attributes().path == Some(p@),
            r is None ==> self.attributes().path is None,
    {
        match &self.path {
            Some(p) => Some(p.as_str()),
            None => None,
        }
    }

    /// Sets the domain the cookie applies to.
    pub fn set_domain(&mut self, domain: &str)
        ensures
            final(self)@ == old(self)@,
            final(self).attributes() == (CookieAttributes { domain: Some(domain@), ..old(self).attributes() }),
    {
        self.domain = Some(String::from_str(domain));
    }

    /// The domain, if set.
    pub fn domain(&self) -> (r: Option<&str>)
        ensures
            r matches Some(d) ==> self.attributes().domain == Some(d@),
            r is None ==> self.attributes().domain is None,
    {
        match &self.domain {
            Some(d) => Some(d.as_str()),
            None => None,
        }
    }

    /// Sets whether the cookie is sent over secure connections only.
    pub fn set_secure(&mut self, secure: bool)
        ensures
            final(self)@ == old(self)@,
            final(self).attributes() == (CookieAttributes { secure: Some(secure), ..old(self).attributes() }),
    {
        self.secure = Some(secure);
    }

    /// Whether the cookie is secure, if set.
    pub fn secure(&self) -> (r: Option<bool>)
        ensures
            r == self.attributes().secure,
    {
        self.secure
    }

    /// Sets whether the cookie is hidden from scripts.
    pub fn set_http_only(&mut self, http_only: bool)
        ensures
            final(self)@ == old(self)@,
            final(self).attributes() == (CookieAttributes { http_only: Some(http_only), ..old(self).attributes() }),
    {
        self.http_only = Some(http_only);
    }

    /// Whether the cookie is hidden from scripts, if set.
    pub fn http_only(&self) -> (r: Option<bool>)
        ensures
            r == self.attributes().http_only,
    {
        self.http_only
    }

    /// The name.
    pub fn name(&self) -> (r: &str)
        ensures
            r@ == self@.0,
    {
        self.name.as_str()
    }

    /// The value.
    pub fn value(&self) -> (r: &str)
        ensures
            r@ == self@.1,
    {
        self.value.as_str()
    }

    /// Reads a cookie from a header text such as `name=value; Path=/`.
    pub fn parse_from_header(s: &str) -> (r: Result<DeboaCookie, DeboaError>)
        ensures
            match cookie_of_header(s@) {
                Some(c) => r matches Ok(k) && k@ == c && k.attributes() == no_attributes(),
                None => r matches Err(e) && is_cookie_error(e, "Invalid cookie"@),
            },
    {
        let cs = chars_of(s);
        let semi = find_char(cs.as_slice(), ';', 0);
        let pair = copy_range(cs.as_slice(), 0, semi);
        assert(pair@ == s@.take(index_of(s@, ';', 0)));
        let eq = find_char(pair.as_slice(), '=', 0);
        if eq >= pair.len() {
            return Err(DeboaError::Cookie { message: String::from_str("Invalid cookie") });
        }
        let (na, nb) = trim_bounds(&pair, 0, eq);
        let (va, vb) = trim_bounds(&pair, eq + 1, pair.len());
        assert(pair@.take(eq as int) == pair@.subrange(0, eq as int));
        assert(pair@.skip(eq + 1) == pair@.subrange(eq + 1, pair@.len() as int));
        if na == nb {
            return Err(DeboaError::Cookie { message: String::from_str("Invalid cookie") });
        }
        let name = copy_range(pair.as_slice(), na, nb);
        let value = copy_range(pair.as_slice(), va, vb);
        Ok(DeboaCookie::new(string_of(name.as_slice()).as_str(), string_of(value.as_slice()).as_str()))
    }
}

/// A map from cookie names to cookies (a `hashbrown` hash map).
#[verifier::external_body]
pub struct CookieMap {
    map: hashbrown::HashMap<String, DeboaCookie>,
}

/// What a cookie map holds: each name's cookie.
pub uninterp spec fn cookie_entries(m: CookieMap) -> Map<Seq<char>, (Seq<char>, Seq<char>)>;

/// The contents of an empty cookie map.
pub open spec fn no_cookies() -> Map<Seq<char>, (Seq<char>, Seq<char>)> {
    Map::empty()
}

/// `n` is the number of names in `m` (and there are finitely many).
pub open spec fn counts_cookies(m: CookieMap, n: usize) -> bool {
    &&& cookie_entries(m).dom().finite()
    &&& cookie_entries(m).dom().len() == n
}

impl CookieMap {
    /// `HashMap::new`: an empty map.
    #[verifier::external_body]
    pub fn new() -> (r: CookieMap)
        ensures
            cookie_entries(r) == no_cookies(),
    {
        CookieMap { map: hashbrown::HashMap::new() }
    }

    /// `HashMap::insert`: the name now maps to the cookie.
    #[verifier::external_body]
    pub fn insert(&mut self, name: String, cookie: DeboaCookie)
        ensures
            cookie_entries(*final(self)) == cookie_entries(*old(self)).insert(name@, cookie@),
    {
        self.map.insert(name, cookie);
    }

    /// `HashMap::get`: the cookie of a name.
    #[verifier::external_body]
    pub fn get(&self, name: &str) -> (r: Option<DeboaCookie>)
        ensures
            r matches Some(c) ==> cookie_entries(*self).contains_key(name@) && cookie_entries(*self)[name@] == c@,
            r is None ==> !cookie_entries(*self).contains_key(name@),
    {
        self.map.get(name).cloned()
    }

    /// `HashMap::len`: the number of names.
    #[verifier::external_body]
    pub fn len(&self) -> (r: usize)
        ensures
            counts_cookies(*self, r),
    {
        self.map.len()
    }

    /// `HashMap::iter`: every (name, cookie value) pair once, in the map's own
    /// (unspecified) order.
    #[verifier::external_body]
    pub fn pairs(&self) -> (r: Vec<(String, String)>)
        ensures
            forall|i: int| 0 <= i < r@.len() ==> cookie_entries(*self).contains_key((#[trigger] r@[i]).0@)
                && cookie_entries(*self)[r@[i].0@].1 == r@[i].1@,
            forall|k: Seq<char>| cookie_entries(*self).contains_key(k) ==> exists|i: int| 0 <= i < r@.len() && (#[trigger] r@[i]).0@ == k,
            forall|i: int, j: int| 0 <= i < j < r@.len() ==> (#[trigger] r@[i]).0@ != (#[trigger] r@[j]).0@,
    {
        self.map.iter().map(|(k, c)| (k.clone(), c.value.clone())).collect()
    }
}

} // verus!

verus! {

/// The text of one cookie pair: `name=value`.
pub open spec fn cookie_pair_text(p: (Seq<char>, Seq<char>)) -> Seq<char> {
    p.0 + seq!['='] + p.1
}

/// Cookie pairs joined by `; `.
pub open spec fn join_cookies(ps: Seq<(Seq<char>, Seq<char>)>) -> Seq<char>
    decreases ps.len(),
{
    if ps.len() == 0 {
        Seq::empty()
    } else if ps.len() == 1 {
        cookie_pair_text(ps[0])
    } else {
        join_cookies(ps.drop_last()) + seq![';', ' '] + cookie_pair_text(ps.last())
    }
}

/// `ps` lists every cookie of `m` exactly once, as (name, value) pairs, in some order.
pub open spec fn lists_cookies(m: Map<Seq<char>, (Seq<char>, Seq<char>)>, ps: Seq<(Seq<char>, Seq<char>)>) -> bool {
    &&& forall|i: int| 0 <= i < ps.len() ==> m.contains_key((#[trigger] ps[i]).0) && m[ps[i].0].1 == ps[i].1
    &&& forall|k: Seq<char>| m.contains_key(k) ==> exists|i: int| 0 <= i < ps.len() && (#[trigger] ps[i]).0 == k
    &&& forall|i: int, j: int| 0 <= i < j < ps.len() ==> (#[trigger] ps[i]).0 != (#[trigger] ps[j]).0
}

/// The pieces of `s[start..]` between occurrences of `c` (at least one piece).
pub open spec fn segments_from(s: Seq<char>, c: char, start: int) -> Seq<Seq<char>>
    decreases s.len() - start,
{
    if start < 0 || start > s.len() {
        Seq::empty()
    } else {
        let i = index_of(s, c, start);
        if i >= s.len() {
            seq![s.subrange(start, s.len() as int)]
        } else {
            proof {
                lemma_index_of(s, c, start);
            }
            seq![s.subrange(start, i)] + segments_from(s, c, i + 1)
        }
    }
}

/// `str::split(c)`: the pieces of `s` between occurrences of `c`.
pub open spec fn split_on(s: Seq<char>, c: char) -> Seq<Seq<char>> {
    segments_from(s, c, 0)
}

/// The cookies that `name=value` pieces give: each piece is trimmed; a piece
/// with a `=` gives the cookie named by the text before it, holding the text
/// after it; a later piece with the same name wins; pieces without `=` are skipped.
pub open spec fn cookies_from_segments(segs: Seq<Seq<char>>) -> Map<Seq<char>, (Seq<char>, Seq<char>)>
    decreases segs.len(),
{
    if segs.len() == 0 {
        no_cookies()
    } else {
        let m = cookies_from_segments(segs.drop_last());
        let t = trim(segs.last());
        let eq = index_of(t, '=', 0);
        if eq < t.len() {
            m.insert(t.take(eq), (t.take(eq), t.skip(eq + 1)))
        } else {
            m
        }
    }
}

/// The cookies of a `Cookie` header's text.
pub open spec fn cookies_of_text(s: Seq<char>) -> Map<Seq<char>, (Seq<char>, Seq<char>)> {
    cookies_from_segments(split_on(s, ';'))
}

} // verus!
