//! Recognizes the request line of a textual request: a method name, white
//! space, then an `http://` or `https://` URL, anywhere in a line. This is the
//! grammar `(GET|POST|QUERY|PUT|DELETE|PATCH|HEAD|OPTIONS)\s+(https?://[^\s]+)`
//! searched leftmost-first, as a regular-expression engine would.
use vstd::prelude::*;
use crate::method::{Method, method_name};
use crate::text::{is_ws, is_whitespace};

verus! {

/// Whether `w` occurs in `s` at position `i`.
pub open spec fn occurs_at(s: Seq<char>, i: int, w: Seq<char>) -> bool {
    0 <= i && i + w.len() <= s.len() && s.subrange(i, i + w.len()) == w
}

/// The method whose name occurs at `i`, trying the names in the grammar's order.
pub open spec fn method_at(s: Seq<char>, i: int) -> Option<Method> {
    if occurs_at(s, i, method_name(Method::GET)) { Some(Method::GET) }
    else if occurs_at(s, i, method_name(Method::POST)) { Some(Method::POST) }
    else if occurs_at(s, i, method_name(Method::QUERY)) { Some(Method::QUERY) }
    else if occurs_at(s, i, method_name(Method::PUT)) { Some(Method::PUT) }
    else if occurs_at(s, i, method_name(Method::DELETE)) { Some(Method::DELETE) }
    else if occurs_at(s, i, method_name(Method::PATCH)) { Some(Method::PATCH) }
    else if occurs_at(s, i, method_name(Method::HEAD)) { Some(Method::HEAD) }
    else if occurs_at(s, i, method_name(Method::OPTIONS)) { Some(Method::OPTIONS) }
    else { None }
}

/// The end of the run of white space that starts at `j`.
pub open spec fn ws_end(s: Seq<char>, j: int) -> int
    decreases s.len() - j,
{
    if j < 0 || j >= s.len() || !is_ws(s[j]) { j } else { ws_end(s, j + 1) }
}

/// The end of the run of non-white-space characters that starts at `j`.
pub open spec fn word_end(s: Seq<char>, j: int) -> int
    decreases s.len() - j,
{
    if j < 0 || j >= s.len() || is_ws(s[j]) { j } else { word_end(s, j + 1) }
}

/// `https://`
pub open spec fn https_prefix() -> Seq<char> {
    seq!['h', 't', 't', 'p', 's', ':', '/', '/']
}

/// `http://`
pub open spec fn http_prefix() -> Seq<char> {
    seq!['h', 't', 't', 'p', ':', '/', '/']
}

/// The length of the scheme prefix at `k`, `https://` tried first; 0 where there is none.
pub open spec fn scheme_len_at(s: Seq<char>, k: int) -> int {
    if occurs_at(s, k, https_prefix()) { 8 } else if occurs_at(s, k, http_prefix()) { 7 } else { 0 }
}

/// A match of the grammar that starts at `i`: the method, and the bounds of the URL.
pub open spec fn match_at(s: Seq<char>, i: int) -> Option<(Method, int, int)> {
    match method_at(s, i) {
        None => None,
        Some(m) => {
            let j = i + method_name(m).len();
            let k = ws_end(s, j);
            let p = k + scheme_len_at(s, k);
            if k == j || p == k || p >= s.len() || is_ws(s[p]) {
                None
            } else {
                Some((m, k, word_end(s, p)))
            }
        },
    }
}

/// The leftmost match at or after `i`.
pub open spec fn find_match(s: Seq<char>, i: int) -> Option<(Method, int, int)>
    decreases s.len() + 1 - i,
{
    if i < 0 || i > s.len() {
        None
    } else {
        match match_at(s, i) {
            Some(r) => Some(r),
            None => find_match(s, i + 1),
        }
    }
}

/// The method and URL that a line's request line names, if it has one.
pub open spec fn request_line(s: Seq<char>) -> Option<(Method, Seq<char>)> {
    match find_match(s, 0) {
        Some((m, a, b)) => Some((m, s.subrange(a, b))),
        None => None,
    }
}

fn occurs(s: &[char], i: usize, w: &[char]) -> (r: bool)
    ensures
        r == occurs_at(s@, i as int, w@),
{
    let n = s.len();
    if i > n || w.len() > n - i {
        return false;
    }
    let mut k: usize = 0;
    while k < w.len()
        invariant
            i + w@.len() <= s@.len(),
            i <= s@.len(),
            n == s@.len(),
            k <= w@.len(),
            forall|j: int| 0 <= j < k ==> s@[i + j] == w@[j],
        decreases w@.len() - k,
    {
        if s[i + k] != w[k] {
            assert(s@.subrange(i as int, i + w@.len())[k as int] != w@[k as int]);
            return false;
        }
        k = k + 1;
    }
    assert(s@.subrange(i as int, i + w@.len()) =~= w@);
    true
}

fn method_at_exec(s: &[char], i: usize) -> (r: Option<Method>)
    ensures
        r == method_at(s@, i as int),
{
    let order = [Method::GET, Method::POST, Method::QUERY, Method::PUT, Method::DELETE,
        Method::PATCH, Method::HEAD, Method::OPTIONS];
    let mut k: usize = 0;
    while k < 8
        invariant
            order@ == seq![Method::GET, Method::POST, Method::QUERY, Method::PUT, Method::DELETE,
                Method::PATCH, Method::HEAD, Method::OPTIONS],
            k <= 8,
            forall|j: int| 0 <= j < k ==> !occurs_at(s@, i as int, method_name(#[trigger] order@[j])),
        decreases 8 - k,
    {
        let m = order[k];
        let name = m.as_chars();
        if occurs(s, i, name.as_slice()) {
            assert(forall|j: int| 0 <= j < k ==> !occurs_at(s@, i as int, method_name(#[trigger] order@[j])));
            return Some(m);
        }
        k = k + 1;
    }
    assert(!occurs_at(s@, i as int, method_name(order@[0])));
    assert(!occurs_at(s@, i as int, method_name(order@[1])));
    assert(!occurs_at(s@, i as int, method_name(order@[2])));
    assert(!occurs_at(s@, i as int, method_name(order@[3])));
    assert(!occurs_at(s@, i as int, method_name(order@[4])));
    assert(!occurs_at(s@, i as int, method_name(order@[5])));
    assert(!occurs_at(s@, i as int, method_name(order@[6])));
    assert(!occurs_at(s@, i as int, method_name(order@[7])));
    None
}

fn ws_end_exec(s: &[char], j: usize) -> (r: usize)
    requires
        j <= s@.len(),
    ensures
        r == ws_end(s@, j as int),
        j <= r <= s@.len(),
{
    let mut k = j;
    while k < s.len() && is_whitespace(s[k])
        invariant
            j <= k <= s@.len(),
            ws_end(s@, j as int) == ws_end(s@, k as int),
        decreases s@.len() - k,
    {
        k = k + 1;
    }
    k
}

fn word_end_exec(s: &[char], j: usize) -> (r: usize)
    requires
        j <= s@.len(),
    ensures
        r == word_end(s@, j as int),
        j <= r <= s@.len(),
{
    let mut k = j;
    while k < s.len() && !is_whitespace(s[k])
        invariant
            j <= k <= s@.len(),
            word_end(s@, j as int) == word_end(s@, k as int),
        decreases s@.len() - k,
    {
        k = k + 1;
    }
    k
}

fn match_at_exec(s: &[char], i: usize) -> (r: Option<(Method, usize, usize)>)
    requires
        i <= s@.len(),
    ensures
        r matches Some((m, a, b)) ==> match_at(s@, i as int) == Some((m, a as int, b as int)) && a <= b <= s@.len(),
        r is None ==> match_at(s@, i as int) is None,
{
    match method_at_exec(s, i) {
        None => None,
        Some(m) => {
            let n = s.len();
            let name = m.as_chars();
            assert(occurs_at(s@, i as int, method_name(m)));
            let j = i + name.len();
            let k = ws_end_exec(s, j);
            let https = ['h', 't', 't', 'p', 's', ':', '/', '/'];
            let http = ['h', 't', 't', 'p', ':', '/', '/'];
            assert(https@ == https_prefix());
            assert(http@ == http_prefix());
            let sl: usize = if occurs(s, k, &https) { 8 } else if occurs(s, k, &http) { 7 } else { 0 };
            if k == j || sl == 0 {
                return None;
            }
            assert(occurs_at(s@, k as int, https_prefix()) || occurs_at(s@, k as int, http_prefix()));
            let p = k + sl;
            if p >= s.len() || is_whitespace(s[p]) {
                None
            } else {
                let e = word_end_exec(s, p);
                Some((m, k, e))
            }
        },
    }
}

/// Finds the request line in `s`: the method and the URL, leftmost first.
pub fn find_request_line(s: &[char]) -> (r: Option<(Method, Vec<char>)>)
    ensures
        r matches Some((m, u)) ==> request_line(s@) == Some((m, u@)),
        r is None ==> request_line(s@) is None,
{
    let mut i: usize = 0;
    while i < s.len()
        invariant
            i <= s@.len(),
            find_match(s@, 0) == find_match(s@, i as int),
        decreases s@.len() - i,
    {
        match match_at_exec(s, i) {
            Some((m, a, b)) => {
                let mut u: Vec<char> = Vec::new();
                let mut k = a;
                while k < b
                    invariant
                        a <= k <= b <= s@.len(),
                        u@ == s@.subrange(a as int, k as int),
                    decreases b - k,
                {
                    u.push(s[k]);
                    assert(s@.subrange(a as int, k + 1) == s@.subrange(a as int, k as int).push(s@[k as int]));
                    k = k + 1;
                }
                return Some((m, u));
            },
            None => {},
        }
        i = i + 1;
    }
    assert(match_at(s@, s@.len() as int) is None);
    assert(find_match(s@, s@.len() + 1int) is None);
    None
}

} // verus!
