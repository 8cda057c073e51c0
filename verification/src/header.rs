//! Header names and values: which byte strings are valid, and how names are normalized.
use vstd::prelude::*;

verus! {

/// A `tchar` of RFC 9110: the bytes that may appear in a header name.
pub open spec fn is_tchar(b: u8) -> bool {
    ||| (('0' as u8) <= b && b <= ('9' as u8)) || (('a' as u8) <= b && b <= ('z' as u8)) || (('A' as u8) <= b && b <= ('Z' as u8))
    ||| b == ('!' as u8) || b == ('#' as u8) || b == ('$' as u8) || b == ('%' as u8) || b == ('&' as u8) || b == ('\'' as u8)
    ||| b == ('*' as u8) || b == ('+' as u8) || b == ('-' as u8) || b == ('.' as u8) || b == ('^' as u8) || b == ('_' as u8)
    ||| b == ('`' as u8) || b == ('|' as u8) || b == ('~' as u8)
}

/// ASCII lower-casing of one byte.
pub open spec fn lower_byte(b: u8) -> u8 {
    if ('A' as u8) <= b && b <= ('Z' as u8) { (b + 32) as u8 } else { b }
}

/// The longest header name that is accepted.
pub const MAX_NAME_LEN: usize = 65535;

/// Which byte strings are valid header names (before normalization).
pub open spec fn valid_name_bytes(s: Seq<u8>) -> bool {
    &&& 1 <= s.len() <= MAX_NAME_LEN
    &&& forall|i: int| 0 <= i < s.len() ==> is_tchar(#[trigger] s[i])
}

/// The normalized form of a header name: its bytes lower-cased, as characters.
pub open spec fn normalize_name(s: Seq<u8>) -> Seq<char> {
    Seq::new(s.len(), |i: int| lower_byte(s[i]) as char)
}

/// A normalized header name: a non-empty run of lower-case `tchar`s.
pub open spec fn is_name(n: Seq<char>) -> bool {
    &&& 1 <= n.len() <= MAX_NAME_LEN
    &&& forall|i: int| 0 <= i < n.len() ==> is_name_char(#[trigger] n[i])
}

/// A character of a normalized header name.
pub open spec fn is_name_char(c: char) -> bool {
    (c as u32) < 128 && is_tchar(c as u8) && !(('A' as u8) <= (c as u8) && (c as u8) <= ('Z' as u8))
}

/// Which byte strings are valid header values: no control byte but tab, and no DEL.
pub open spec fn valid_value_bytes(s: Seq<u8>) -> bool {
    forall|i: int| 0 <= i < s.len() ==> is_value_byte(#[trigger] s[i])
}

/// A byte that may appear in a header value.
pub open spec fn is_value_byte(b: u8) -> bool {
    (b >= 32 && b != 127) || b == 9
}

/// A byte that a header value may hold and still be read as text.
pub open spec fn is_visible_byte(b: u8) -> bool {
    (b >= 32 && b < 127) || b == 9
}

/// Whether every byte of a value is visible ASCII (or tab), so that it reads as text.
pub open spec fn visible_bytes(s: Seq<u8>) -> bool {
    forall|i: int| 0 <= i < s.len() ==> is_visible_byte(#[trigger] s[i])
}

/// Decides `is_tchar`.
pub fn tchar(b: u8) -> (r: bool)
    ensures
        r == is_tchar(b),
{
    (('0' as u8) <= b && b <= ('9' as u8)) || (('a' as u8) <= b && b <= ('z' as u8)) || (('A' as u8) <= b && b <= ('Z' as u8)) || b == ('!' as u8)
        || b == ('#' as u8) || b == ('$' as u8) || b == ('%' as u8) || b == ('&' as u8) || b == ('\'' as u8) || b == ('*' as u8) || b == ('+' as u8)
        || b == ('-' as u8) || b == ('.' as u8) || b == ('^' as u8) || b == ('_' as u8) || b == ('`' as u8) || b == ('|' as u8) || b == ('~' as u8)
}

/// Decides `valid_value_bytes`.
pub fn is_valid_value(s: &[u8]) -> (r: bool)
    ensures
        r == valid_value_bytes(s@),
{
    let mut i: usize = 0;
    while i < s.len()
        invariant
            i <= s@.len(),
            forall|j: int| 0 <= j < i ==> is_value_byte(#[trigger] s@[j]),
        decreases s@.len() - i,
    {
        let b = s[i];
        if !((b >= 32 && b != 127) || b == 9) {
            return false;
        }
        i = i + 1;
    }
    true
}

/// Decides `visible_bytes`.
pub fn is_visible(s: &[u8]) -> (r: bool)
    ensures
        r == visible_bytes(s@),
{
    let mut i: usize = 0;
    while i < s.len()
        invariant
            i <= s@.len(),
            forall|j: int| 0 <= j < i ==> is_visible_byte(#[trigger] s@[j]),
        decreases s@.len() - i,
    {
        let b = s[i];
        if !((b >= 32 && b < 127) || b == 9) {
            return false;
        }
        i = i + 1;
    }
    true
}

/// Normalizing a valid name gives a name.
pub proof fn lemma_normalize_is_name(s: Seq<u8>)
    requires
        valid_name_bytes(s),
    ensures
        is_name(normalize_name(s)),
{
    assert forall|i: int| 0 <= i < s.len() implies is_name_char(#[trigger] normalize_name(s)[i]) by {
        let b = s[i];
        assert(is_tchar(b));
        let l = lower_byte(b);
        assert(l as char as u32 == l as u32);
        assert((l as char) as u8 == l);
    }
}

} // verus!

verus! {

/// `HeaderName::from_bytes`: the normalized name, where the bytes form a valid one.
pub fn parse_name(src: &[u8]) -> (r: Option<String>)
    ensures
        r is Some <==> valid_name_bytes(src@),
        r matches Some(n) ==> n@ == normalize_name(src@) && is_name(n@),
{
    let n = src.len();
    if n == 0 || n > MAX_NAME_LEN {
        return None;
    }
    let mut cs: Vec<char> = Vec::new();
    let mut i: usize = 0;
    while i < n
        invariant
            n == src@.len(),
            i <= n,
            forall|j: int| 0 <= j < i ==> is_tchar(#[trigger] src@[j]),
            cs@ == normalize_name(src@.take(i as int)),
        decreases n - i,
    {
        let b = src[i];
        if !tchar(b) {
            return None;
        }
        let l: u8 = if 65 <= b && b <= 90 { b + 32 } else { b };
        cs.push(l as char);
        assert(normalize_name(src@.take(i + 1)) =~= normalize_name(src@.take(i as int)).push(l as char));
        i = i + 1;
    }
    assert(src@.take(n as int) == src@);
    proof {
        lemma_normalize_is_name(src@);
    }
    Some(crate::text::string_of(cs.as_slice()))
}

} // verus!

verus! {

/// A normalized header name.
#[derive(Debug, PartialEq, Eq)]
pub struct HeaderName {
    name: String,
}

impl View for HeaderName {
    type V = Seq<char>;

    closed spec fn view(&self) -> Seq<char> {
        self.name@
    }
}

impl Clone for HeaderName {
    fn clone(&self) -> (r: HeaderName)
        ensures
            r@ == self@,
    {
        proof {
            use_type_invariant(self);
        }
        HeaderName { name: self.name.clone() }
    }
}

impl HeaderName {
    #[verifier::type_invariant]
    spec fn inv(self) -> bool {
        is_name(self.name@)
    }

    /// A header name from bytes (normalized to lower case); `None` where they are not a valid name.
    pub fn from_bytes(src: &[u8]) -> (r: Option<HeaderName>)
        ensures
            r is Some <==> valid_name_bytes(src@),
            r matches Some(n) ==> n@ == normalize_name(src@),
    {
        match parse_name(src) {
            Some(name) => Some(HeaderName { name }),
            None => None,
        }
    }

    /// A header name from text (normalized to lower case); `None` where it is not a valid name.
    pub fn from_text(s: &str) -> (r: Option<HeaderName>)
        ensures
            r is Some <==> valid_name_bytes(vstd::utf8::encode_utf8(s@)),
            r matches Some(n) ==> n@ == normalize_name(vstd::utf8::encode_utf8(s@)),
    {
        HeaderName::from_bytes(s.as_bytes())
    }

    /// The name as text.
    pub fn as_str(&self) -> (r: &str)
        ensures
            r@ == self@,
            is_name(r@),
    {
        proof {
            use_type_invariant(self);
        }
        self.name.as_str()
    }

    fn known(name: &str) -> (r: HeaderName)
        requires
            is_name(name@),
        ensures
            r@ == name@,
    {
        HeaderName { name: String::from_str(name) }
    }

    /// `content-type`
    pub fn content_type() -> (r: HeaderName)
        ensures
            r@ == "content-type"@,
    {
        proof {
            reveal_strlit("content-type");
        }
        HeaderName::known("content-type")
    }

    /// `content-length`
    pub fn content_length() -> (r: HeaderName)
        ensures
            r@ == "content-length"@,
    {
        proof {
            reveal_strlit("content-length");
        }
        HeaderName::known("content-length")
    }

    /// `accept`
    pub fn accept() -> (r: HeaderName)
        ensures
            r@ == "accept"@,
    {
        proof {
            reveal_strlit("accept");
        }
        HeaderName::known("accept")
    }

    /// `accept-language`
    pub fn accept_language() -> (r: HeaderName)
        ensures
            r@ == "accept-language"@,
    {
        proof {
            reveal_strlit("accept-language");
        }
        HeaderName::known("accept-language")
    }

    /// `authorization`
    pub fn authorization() -> (r: HeaderName)
        ensures
            r@ == "authorization"@,
    {
        proof {
            reveal_strlit("authorization");
        }
        HeaderName::known("authorization")
    }

    /// `cookie`
    pub fn cookie() -> (r: HeaderName)
        ensures
            r@ == "cookie"@,
    {
        proof {
            reveal_strlit("cookie");
        }
        HeaderName::known("cookie")
    }

    /// `set-cookie`
    pub fn set_cookie() -> (r: HeaderName)
        ensures
            r@ == "set-cookie"@,
    {
        proof {
            reveal_strlit("set-cookie");
        }
        HeaderName::known("set-cookie")
    }

    /// `host`
    pub fn host() -> (r: HeaderName)
        ensures
            r@ == "host"@,
    {
        proof {
            reveal_strlit("host");
        }
        HeaderName::known("host")
    }
}

} // verus!
