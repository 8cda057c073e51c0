//! HTTP methods and protocol versions.
use vstd::prelude::*;

verus! {

/// An HTTP request method.
#[allow(non_camel_case_types, clippy::upper_case_acronyms)]
#[derive(Clone, Copy, Debug, PartialEq, Eq, Structural)]
pub enum Method {
    GET,
    POST,
    PUT,
    DELETE,
    HEAD,
    OPTIONS,
    CONNECT,
    PATCH,
    TRACE,
    QUERY,
}

/// An HTTP protocol version.
#[allow(non_camel_case_types)]
#[derive(Clone, Copy, Debug, PartialEq, Eq, Structural)]
pub enum Version {
    HTTP_09,
    HTTP_10,
    HTTP_11,
    HTTP_2,
    HTTP_3,
}

/// The name of a method, as it is written on a request line.
pub open spec fn method_name(m: Method) -> Seq<char> {
    match m {
        Method::GET => seq!['G', 'E', 'T'],
        Method::POST => seq!['P', 'O', 'S', 'T'],
        Method::PUT => seq!['P', 'U', 'T'],
        Method::DELETE => seq!['D', 'E', 'L', 'E', 'T', 'E'],
        Method::HEAD => seq!['H', 'E', 'A', 'D'],
        Method::OPTIONS => seq!['O', 'P', 'T', 'I', 'O', 'N', 'S'],
        Method::CONNECT => seq!['C', 'O', 'N', 'N', 'E', 'C', 'T'],
        Method::PATCH => seq!['P', 'A', 'T', 'C', 'H'],
        Method::TRACE => seq!['T', 'R', 'A', 'C', 'E'],
        Method::QUERY => seq!['Q', 'U', 'E', 'R', 'Y'],
    }
}

/// The method a name stands for, if it names one.
pub open spec fn method_of_name(s: Seq<char>) -> Option<Method> {
    if s == method_name(Method::GET) { Some(Method::GET) }
    else if s == method_name(Method::POST) { Some(Method::POST) }
    else if s == method_name(Method::PUT) { Some(Method::PUT) }
    else if s == method_name(Method::DELETE) { Some(Method::DELETE) }
    else if s == method_name(Method::HEAD) { Some(Method::HEAD) }
    else if s == method_name(Method::OPTIONS) { Some(Method::OPTIONS) }
    else if s == method_name(Method::CONNECT) { Some(Method::CONNECT) }
    else if s == method_name(Method::PATCH) { Some(Method::PATCH) }
    else if s == method_name(Method::TRACE) { Some(Method::TRACE) }
    else if s == method_name(Method::QUERY) { Some(Method::QUERY) }
    else { None }
}

impl Method {
    /// The method's name.
    pub fn as_chars(&self) -> (r: Vec<char>)
        ensures
            r@ == method_name(*self),
    {
        match self {
            Method::GET => vec!['G', 'E', 'T'],
            Method::POST => vec!['P', 'O', 'S', 'T'],
            Method::PUT => vec!['P', 'U', 'T'],
            Method::DELETE => vec!['D', 'E', 'L', 'E', 'T', 'E'],
            Method::HEAD => vec!['H', 'E', 'A', 'D'],
            Method::OPTIONS => vec!['O', 'P', 'T', 'I', 'O', 'N', 'S'],
            Method::CONNECT => vec!['C', 'O', 'N', 'N', 'E', 'C', 'T'],
            Method::PATCH => vec!['P', 'A', 'T', 'C', 'H'],
            Method::TRACE => vec!['T', 'R', 'A', 'C', 'E'],
            Method::QUERY => vec!['Q', 'U', 'E', 'R', 'Y'],
        }
    }

    /// The method's name as a string.
    pub fn as_str(&self) -> (r: String)
        ensures
            r@ == method_name(*self),
    {
        let cs = self.as_chars();
        crate::text::string_of(cs.as_slice())
    }

    /// The method that a name stands for (names are case-sensitive, as on a request line).
    pub fn from_chars(s: &[char]) -> (r: Option<Method>)
        ensures
            r == method_of_name(s@),
    {
        let all = [Method::GET, Method::POST, Method::PUT, Method::DELETE, Method::HEAD,
            Method::OPTIONS, Method::CONNECT, Method::PATCH, Method::TRACE, Method::QUERY];
        let mut k: usize = 0;
        while k < 10
            invariant
                all@ == seq![Method::GET, Method::POST, Method::PUT, Method::DELETE, Method::HEAD,
                    Method::OPTIONS, Method::CONNECT, Method::PATCH, Method::TRACE, Method::QUERY],
                0 <= k <= 10,
                forall|j: int| 0 <= j < k ==> s@ != method_name(#[trigger] all@[j]),
            decreases 10 - k,
        {
            let m = all[k];
            let name = m.as_chars();
            if crate::text::chars_eq(s, name.as_slice()) {
                return Some(m);
            }
            k = k + 1;
        }
        assert(s@ != method_name(all@[0]) && s@ != method_name(all@[1]) && s@ != method_name(all@[2])
            && s@ != method_name(all@[3]) && s@ != method_name(all@[4]) && s@ != method_name(all@[5])
            && s@ != method_name(all@[6]) && s@ != method_name(all@[7]) && s@ != method_name(all@[8])
            && s@ != method_name(all@[9]));
        None
    }
}

} // verus!
