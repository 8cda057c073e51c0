//! Laws that relate the operations of this crate to one another.
use vstd::prelude::*;
use vstd::utf8::encode_utf8;
use crate::conn::{Setting, apply_settings, default_settings, last_call, last_settings};
use crate::cookie::{cookie_of_header, cookie_pair_text, cookies_from_segments, join_cookies, lists_cookies, no_cookies, segments_from, split_on};
use crate::errors::DeboaError;
use crate::form::{FieldSource, Form, MultiPartForm, field_part, crlf, delimiter, insert_entry, key_position, keys_unique, lemma_key_position, multipart_body, multipart_upto};
use crate::header::{normalize_name, valid_value_bytes, visible_bytes};
use crate::header::HeaderName;
use crate::into_headers::{IntoHeaders, headers_from_pairs, named_pairs, text_pairs};
use crate::http_map::first_value;
use crate::request::{DeboaRequestBuilder, RequestView, form_set, cookie_added, cookie_header_set, header_set, request_cookies};
use crate::macros::{ArgKey, ArgsView, MacroName, Tok, VerdictsView, arg, expansion, is_given, output_of, parse_args, render, request_body_part, response_body_part, text_part, uses_request_body, uses_response_body, verb};
use crate::request_line::request_line;
use crate::request_text::{ParseFailure, ParseState, finish, initial_state, lines, parse_request, run, step};
use crate::response::{IntParseError, digits_value, header_text, is_digit, parse_u64};
use crate::text::{ascii_chars, index_of, is_ws, lemma_index_of, lemma_trim_end_is, lemma_trim_start_is, trim, trim_end_index, trim_start_index};

verus! {

/// Setting a header twice gives the same request as setting only the second
/// value: the last value wins.
pub proof fn law_header_last_wins(
    before: RequestView,
    name: Seq<char>,
    v1: Seq<u8>,
    v2: Seq<u8>,
    b1: DeboaRequestBuilder,
    r2: Result<DeboaRequestBuilder, DeboaError>,
    r3: Result<DeboaRequestBuilder, DeboaError>,
)
    requires
        header_set(before, name, v1, Ok(b1)),
        header_set(b1@, name, v2, r2),
        header_set(before, name, v2, r3),
    ensures
        r2 is Ok <==> r3 is Ok,
        r2 matches Ok(b2) ==> (r3 matches Ok(b3) && b2@ == b3@),
{
    if valid_value_bytes(v2) {
        assert(before.headers.insert(name, seq![v1]).insert(name, seq![v2]) =~= before.headers.insert(name, seq![v2]));
    }
}

/// Printable ASCII without space.
pub open spec fn is_token_char(c: char) -> bool {
    '!' <= c && c <= '~'
}

/// A cookie that a `cookie` header carries back unchanged: a non-empty name
/// and a value of printable ASCII without spaces or `;`, and no `=` in the name.
pub open spec fn clean_cookie(c: (Seq<char>, Seq<char>)) -> bool {
    &&& c.0.len() > 0
    &&& forall|i: int| 0 <= i < c.0.len() ==> is_token_char(#[trigger] c.0[i]) && c.0[i] != ';' && c.0[i] != '='
    &&& forall|i: int| 0 <= i < c.1.len() ==> is_token_char(#[trigger] c.1[i]) && c.1[i] != ';'
}

/// Printable ASCII text encodes to bytes that read back as the same text.
proof fn lemma_printable_round_trip(t: Seq<char>)
    requires
        forall|i: int| 0 <= i < t.len() ==> ' ' <= #[trigger] t[i] && t[i] <= '~',
    ensures
        encode_utf8(t).len() == t.len(),
        forall|i: int| 0 <= i < t.len() ==> #[trigger] encode_utf8(t)[i] == t[i] as u8,
        valid_value_bytes(encode_utf8(t)),
        visible_bytes(encode_utf8(t)),
        ascii_chars(encode_utf8(t)) == t,
{
    assert(vstd::utf8::is_ascii_chars(t));
    vstd::utf8::is_ascii_chars_encode_utf8(t);
    let e = encode_utf8(t);
    assert forall|i: int| 0 <= i < t.len() implies #[trigger] e[i] == t[i] as u8 by {
        assert(t[i] as u8 == e[i]);
    }
    assert forall|i: int| 0 <= i < e.len() implies 32 <= #[trigger] e[i] && e[i] < 127 by {
        assert(e[i] == t[i] as u8);
        assert(' ' <= t[i] && t[i] <= '~');
    }
    assert forall|i: int| 0 <= i < t.len() implies #[trigger] ascii_chars(e)[i] == t[i] by {
        assert(e[i] == t[i] as u8);
        assert(' ' <= t[i] && t[i] <= '~');
    }
    assert(ascii_chars(e) =~= t);
}

/// Text with no white space at either end is its own trim.
proof fn lemma_trim_unchanged(s: Seq<char>)
    requires
        s.len() > 0,
        !is_ws(s[0]),
        !is_ws(s.last()),
    ensures
        trim(s) == s,
{
    assert(trim_start_index(s) == 0);
    assert(trim_end_index(s) == s.len());
    assert(s.subrange(0, s.len() as int) =~= s);
}

/// A cookie added to a request that has no cookies is read back as the
/// request's only cookie.
pub proof fn law_cookie_round_trip(before: RequestView, c: (Seq<char>, Seq<char>), r: Result<DeboaRequestBuilder, DeboaError>)
    requires
        first_value(before.headers, "cookie"@) is None,
        clean_cookie(c),
        cookie_added(before, c, r),
    ensures
        r matches Ok(b) && request_cookies(b@.headers) == Some(no_cookies().insert(c.0, c)),
{
    let text = cookie_pair_text(c);
    let n: int = c.0.len() as int;
    assert forall|i: int| 0 <= i < text.len() implies is_token_char(#[trigger] text[i]) && text[i] != ';' by {
        if i < n {
            assert(text[i] == c.0[i]);
        } else if i > n {
            assert(text[i] == c.1[i - n - 1]);
        }
    }
    lemma_printable_round_trip(text);
    let v = encode_utf8(text);
    let b = r->Ok_0;
    assert(b@.headers == before.headers.insert("cookie"@, seq![v]));
    assert(first_value(b@.headers, "cookie"@) == Some(v));
    // the header's text is one piece, the pair itself
    lemma_index_of(text, ';', 0);
    assert(index_of(text, ';', 0) == text.len());
    assert(text.subrange(0, text.len() as int) =~= text);
    assert(split_on(text, ';') == seq![text]);
    assert(seq![text].drop_last() =~= Seq::<Seq<char>>::empty());
    lemma_trim_unchanged(text);
    // the `=` that splits it is the one after the name
    lemma_index_of(text, '=', 0);
    assert(text[n] == '=');
    if index_of(text, '=', 0) < n {
        assert(text[index_of(text, '=', 0)] == c.0[index_of(text, '=', 0)]);
    }
    assert(index_of(text, '=', 0) == n);
    assert(text.take(n) =~= c.0);
    assert(text.skip(n + 1) =~= c.1);
    assert(cookies_from_segments(Seq::<Seq<char>>::empty()) == no_cookies());
    assert(seq![text].last() == text);
    assert(cookies_from_segments(seq![text]) == no_cookies().insert(c.0, (c.0, c.1)));
}

/// A header value of printable ASCII reads back as the same text.
pub proof fn law_header_read_back(headers: Map<Seq<char>, Seq<Seq<u8>>>, name: Seq<char>, t: Seq<char>)
    requires
        forall|i: int| 0 <= i < t.len() ==> ' ' <= #[trigger] t[i] && t[i] <= '~',
    ensures
        valid_value_bytes(encode_utf8(t)),
        header_text(headers.insert(name, seq![encode_utf8(t)]), name) == Ok::<Seq<char>, Seq<char>>(t),
{
    lemma_printable_round_trip(t);
}

/// The character of a decimal digit.
pub open spec fn digit_char(d: nat) -> char {
    (48 + d) as char
}

/// The decimal form of a number, without sign or leading zeros.
pub open spec fn decimal(n: nat) -> Seq<char>
    decreases n,
{
    if n < 10 {
        seq![digit_char(n)]
    } else {
        decimal(n / 10).push(digit_char(n % 10))
    }
}

/// One more digit read onto the value of the digits before it.
pub open spec fn digit_step(r: Result<int, IntParseError>, c: char) -> Result<int, IntParseError> {
    match r {
        Err(e) => Err(e),
        Ok(v) => if !is_digit(c) {
            Err(IntParseError::InvalidDigit)
        } else if v * 10 + (c as int - '0' as int) > u64::MAX {
            Err(IntParseError::PosOverflow)
        } else {
            Ok(v * 10 + (c as int - '0' as int))
        },
    }
}

proof fn lemma_digits_push(s: Seq<char>, c: char, acc: int)
    ensures
        digits_value(s.push(c), acc) == digit_step(digits_value(s, acc), c),
    decreases s.len(),
{
    if s.len() == 0 {
        assert(s.push(c).skip(1) =~= Seq::<char>::empty());
        assert(s.push(c)[0] == c);
        assert(digits_value(s, acc) == Ok::<int, IntParseError>(acc));
        let next = acc * 10 + (c as int - '0' as int);
        assert(digits_value(Seq::<char>::empty(), next) == Ok::<int, IntParseError>(next));
    } else {
        assert(s.push(c)[0] == s[0]);
        assert(s.push(c).skip(1) =~= s.skip(1).push(c));
        if is_digit(s[0]) && acc * 10 + (s[0] as int - '0' as int) <= u64::MAX {
            lemma_digits_push(s.skip(1), c, acc * 10 + (s[0] as int - '0' as int));
        }
    }
}

proof fn lemma_decimal_digits(n: nat)
    requires
        n <= u64::MAX,
    ensures
        digits_value(decimal(n), 0) == Ok::<int, IntParseError>(n as int),
        decimal(n).len() > 0,
        is_digit(decimal(n)[0]),
    decreases n,
{
    if n < 10 {
        let d = decimal(n);
        assert(d == seq![digit_char(n)]);
        assert(d.skip(1) =~= Seq::<char>::empty());
        assert(digit_char(n) as int == 48 + n);
        assert(digits_value(Seq::<char>::empty(), n as int) == Ok::<int, IntParseError>(n as int));
        assert(digits_value(d, 0) == digits_value(d.skip(1), n as int));
    } else {
        lemma_decimal_digits(n / 10);
        lemma_digits_push(decimal(n / 10), digit_char(n % 10), 0);
        assert(digit_char(n % 10) as int == 48 + n % 10);
        assert((n / 10) * 10 + n % 10 == n);
        assert(decimal(n) == decimal(n / 10).push(digit_char(n % 10)));
        assert(decimal(n)[0] == decimal(n / 10)[0]);
    }
}

/// The decimal form of a `u64` parses back to the same number.
pub proof fn law_decimal_round_trip(n: u64)
    ensures
        parse_u64(decimal(n as nat)) == Ok::<int, IntParseError>(n as int),
{
    lemma_decimal_digits(n as nat);
    assert(decimal(n as nat)[0] != '+' && decimal(n as nat)[0] != '-');
}

/// A `content-length` header set to the decimal form of a number reads back
/// as that number: its text is the decimal form, and that parses to the number.
pub proof fn law_content_length_round_trip(headers: Map<Seq<char>, Seq<Seq<u8>>>, n: u64)
    ensures
        valid_value_bytes(encode_utf8(decimal(n as nat))),
        header_text(headers.insert("content-length"@, seq![encode_utf8(decimal(n as nat))]), "content-length"@)
            == Ok::<Seq<char>, Seq<char>>(decimal(n as nat)),
        parse_u64(decimal(n as nat)) == Ok::<int, IntParseError>(n as int),
{
    law_decimal_round_trip(n);
    lemma_decimal_printable(n as nat);
    law_header_read_back(headers, "content-length"@, decimal(n as nat));
}

proof fn lemma_decimal_printable(n: nat)
    ensures
        forall|i: int| 0 <= i < decimal(n).len() ==> ' ' <= #[trigger] decimal(n)[i] && decimal(n)[i] <= '~',
    decreases n,
{
    if n >= 10 {
        lemma_decimal_printable(n / 10);
        assert(digit_char(n % 10) as int == 48 + n % 10);
        let d = decimal(n);
        assert(d == decimal(n / 10).push(digit_char(n % 10)));
        assert forall|i: int| 0 <= i < d.len() implies ' ' <= #[trigger] d[i] && d[i] <= '~' by {
            if i < d.len() - 1 {
                assert(d[i] == decimal(n / 10)[i]);
            }
        }
    } else {
        assert(digit_char(n) as int == 48 + n);
        assert(decimal(n) == seq![digit_char(n)]);
    }
}

/// Setting a field that is already there keeps every field in its place and
/// only replaces that field's value; setting a new field appends it.
pub proof fn law_field_in_place(es: Seq<(Seq<char>, Seq<char>)>, k: Seq<char>, v: Seq<char>)
    requires
        keys_unique(es),
    ensures
        (exists|p: int| 0 <= p < es.len() && es[p].0 == k) ==> {
            &&& insert_entry(es, k, v).len() == es.len()
            &&& forall|p: int| 0 <= p < es.len() ==> #[trigger] insert_entry(es, k, v)[p] == if es[p].0 == k { (k, v) } else { es[p] }
        },
        !(exists|p: int| 0 <= p < es.len() && es[p].0 == k) ==> insert_entry(es, k, v) == es.push((k, v)),
        keys_unique(insert_entry(es, k, v)),
{
    lemma_key_position(es, k, 0);
    crate::form::lemma_insert_keeps_unique(es, k, v);
    let p = key_position(es, k, 0);
    if p < es.len() {
        assert forall|q: int| 0 <= q < es.len() implies #[trigger] insert_entry(es, k, v)[q] == if es[q].0 == k { (k, v) } else { es[q] } by {
            if q != p && es[q].0 == k {
                assert(es[p].0 == k);
            }
        }
    } else {
        assert forall|q: int| 0 <= q < es.len() implies es[q].0 != k by {}
    }
}


/// `index_of` in text after a prefix is `index_of` in the text, moved by the prefix.
proof fn lemma_index_of_shift(p: Seq<char>, t: Seq<char>, c: char, j: int)
    requires
        0 <= j <= t.len(),
    ensures
        index_of(p + t, c, p.len() + j) == p.len() + index_of(t, c, j),
    decreases t.len() - j,
{
    if j < t.len() {
        assert((p + t)[p.len() + j] == t[j]);
        if t[j] != c {
            lemma_index_of_shift(p, t, c, j + 1);
        }
    }
}

/// The pieces of text after a prefix are the pieces of the text.
proof fn lemma_segments_shift(p: Seq<char>, t: Seq<char>, c: char, j: int)
    requires
        0 <= j <= t.len(),
    ensures
        segments_from(p + t, c, p.len() + j) == segments_from(t, c, j),
    decreases t.len() - j,
{
    let x = p + t;
    lemma_index_of_shift(p, t, c, j);
    lemma_index_of(t, c, j);
    let i = index_of(t, c, j);
    if i >= t.len() {
        assert(x.subrange(p.len() + j, x.len() as int) =~= t.subrange(j, t.len() as int));
    } else {
        assert(x.subrange(p.len() + j, p.len() + i) =~= t.subrange(j, i));
        lemma_segments_shift(p, t, c, i + 1);
    }
}

/// Splitting `a`, a separator, and `b` gives the pieces of `a`, then those of `b`.
proof fn lemma_split_concat(a: Seq<char>, b: Seq<char>, c: char, st: int)
    requires
        0 <= st <= a.len(),
    ensures
        segments_from(a + seq![c] + b, c, st) == segments_from(a, c, st) + segments_from(b, c, 0),
    decreases a.len() - st,
{
    let x = a + seq![c] + b;
    lemma_index_of(a, c, st);
    lemma_index_of(x, c, st);
    let i = index_of(a, c, st);
    if i < a.len() {
        assert(x[i] == a[i]);
        assert forall|k: int| st <= k < i implies x[k] != c by {
            assert(x[k] == a[k]);
        }
        if index_of(x, c, st) < i {
            assert(x[index_of(x, c, st)] == a[index_of(x, c, st)]);
        }
        assert(index_of(x, c, st) == i);
        assert(x.subrange(st, i) =~= a.subrange(st, i));
        lemma_split_concat(a, b, c, i + 1);
    } else {
        assert(x[a.len() as int] == c);
        assert forall|k: int| st <= k < a.len() implies x[k] != c by {
            assert(x[k] == a[k]);
        }
        if index_of(x, c, st) < a.len() {
            assert(x[index_of(x, c, st)] == a[index_of(x, c, st)]);
        }
        assert(index_of(x, c, st) == a.len());
        assert(x.subrange(st, a.len() as int) =~= a.subrange(st, a.len() as int));
        assert(x =~= (a + seq![c]) + b);
        lemma_segments_shift(a + seq![c], b, c, 0);
    }
}

/// Text without the separator is one piece.
proof fn lemma_split_single(t: Seq<char>, c: char)
    requires
        forall|i: int| 0 <= i < t.len() ==> t[i] != c,
    ensures
        segments_from(t, c, 0) == seq![t],
{
    lemma_index_of(t, c, 0);
    assert(t.subrange(0, t.len() as int) =~= t);
}

/// The pieces that joined cookie pairs split into: the first pair, then
/// each later pair after the space that follows its `;`.
pub open spec fn joined_pieces(ps: Seq<(Seq<char>, Seq<char>)>) -> Seq<Seq<char>> {
    Seq::new(ps.len(), |i: int| if i == 0 { cookie_pair_text(ps[0]) } else { seq![' '] + cookie_pair_text(ps[i]) })
}

/// Every cookie of a list is clean.
pub open spec fn all_clean(ps: Seq<(Seq<char>, Seq<char>)>) -> bool {
    forall|i: int| 0 <= i < ps.len() ==> clean_cookie(#[trigger] ps[i])
}

proof fn lemma_pair_text_clean(c: (Seq<char>, Seq<char>))
    requires
        clean_cookie(c),
    ensures
        forall|i: int| 0 <= i < cookie_pair_text(c).len() ==> is_token_char(#[trigger] cookie_pair_text(c)[i]) && cookie_pair_text(c)[i] != ';',
        cookie_pair_text(c).len() > c.0.len(),
        cookie_pair_text(c)[c.0.len() as int] == '=',
        index_of(cookie_pair_text(c), '=', 0) == c.0.len(),
        cookie_pair_text(c).take(c.0.len() as int) == c.0,
        cookie_pair_text(c).skip(c.0.len() as int + 1) == c.1,
{
    let text = cookie_pair_text(c);
    let n: int = c.0.len() as int;
    assert forall|i: int| 0 <= i < text.len() implies is_token_char(#[trigger] text[i]) && text[i] != ';' by {
        if i < n {
            assert(text[i] == c.0[i]);
        } else if i > n {
            assert(text[i] == c.1[i - n - 1]);
        }
    }
    lemma_index_of(text, '=', 0);
    if index_of(text, '=', 0) < n {
        assert(text[index_of(text, '=', 0)] == c.0[index_of(text, '=', 0)]);
    }
    assert(text.take(n) =~= c.0);
    assert(text.skip(n + 1) =~= c.1);
}

proof fn lemma_split_joined(ps: Seq<(Seq<char>, Seq<char>)>)
    requires
        ps.len() > 0,
        all_clean(ps),
    ensures
        split_on(join_cookies(ps), ';') == joined_pieces(ps),
    decreases ps.len(),
{
    let last = cookie_pair_text(ps.last());
    assert(clean_cookie(ps[ps.len() - 1]));
    lemma_pair_text_clean(ps.last());
    if ps.len() == 1 {
        lemma_split_single(last, ';');
        assert(joined_pieces(ps) =~= seq![last]);
    } else {
        let init = ps.drop_last();
        assert forall|i: int| 0 <= i < init.len() implies clean_cookie(#[trigger] init[i]) by {
            assert(init[i] == ps[i]);
        }
        lemma_split_joined(init);
        let tail = seq![' '] + last;
        assert forall|i: int| 0 <= i < tail.len() implies tail[i] != ';' by {
            if i > 0 {
                assert(tail[i] == last[i - 1]);
            }
        }
        lemma_split_single(tail, ';');
        assert(join_cookies(ps) =~= join_cookies(init) + seq![';'] + tail);
        lemma_split_concat(join_cookies(init), tail, ';', 0);
        assert(joined_pieces(ps) =~= joined_pieces(init) + seq![tail]);
    }
}

/// The cookies that the pairs give, one per distinct name.
pub open spec fn pairs_as_cookies(ps: Seq<(Seq<char>, Seq<char>)>) -> Map<Seq<char>, (Seq<char>, Seq<char>)> {
    Map::new(|k: Seq<char>| exists|i: int| 0 <= i < ps.len() && (#[trigger] ps[i]).0 == k,
        |k: Seq<char>| { let i = choose|i: int| 0 <= i < ps.len() && (#[trigger] ps[i]).0 == k; ps[i] })
}

proof fn lemma_cookies_of_pieces(ps: Seq<(Seq<char>, Seq<char>)>)
    requires
        all_clean(ps),
        forall|i: int, j: int| 0 <= i < j < ps.len() ==> (#[trigger] ps[i]).0 != (#[trigger] ps[j]).0,
    ensures
        cookies_from_segments(joined_pieces(ps)) == pairs_as_cookies(ps),
    decreases ps.len(),
{
    if ps.len() == 0 {
        assert(joined_pieces(ps) =~= Seq::<Seq<char>>::empty());
        assert(pairs_as_cookies(ps) =~= no_cookies());
    } else {
        let init = ps.drop_last();
        let n = ps.len() - 1;
        assert forall|i: int| 0 <= i < init.len() implies clean_cookie(#[trigger] init[i]) by {
            assert(init[i] == ps[i]);
        }
        assert forall|i: int, j: int| 0 <= i < j < init.len() implies (#[trigger] init[i]).0 != (#[trigger] init[j]).0 by {
            assert(init[i] == ps[i]);
            assert(init[j] == ps[j]);
        }
        lemma_cookies_of_pieces(init);
        assert(joined_pieces(ps).drop_last() =~= joined_pieces(init));
        let c = ps[n];
        assert(clean_cookie(c));
        lemma_pair_text_clean(c);
        let text = cookie_pair_text(c);
        let piece = joined_pieces(ps).last();
        // the piece trims to the pair
        if n == 0 {
            assert(piece == text);
            lemma_trim_start_is(piece, 0);
            lemma_trim_end_is(piece, piece.len() as int);
            assert(piece.subrange(0, piece.len() as int) =~= piece);
        } else {
            assert(piece == seq![' '] + text);
            assert(piece[0] == ' ');
            assert(piece[1] == text[0]);
            lemma_trim_start_is(piece, 1);
            assert(piece[piece.len() - 1] == text[text.len() - 1]);
            lemma_trim_end_is(piece, piece.len() as int);
            assert(piece.subrange(1, piece.len() as int) =~= text);
        }
        assert(trim(piece) == text);
        let m0 = pairs_as_cookies(init);
        assert forall|k: Seq<char>| #[trigger] pairs_as_cookies(ps).contains_key(k) == m0.insert(c.0, c).contains_key(k) by {
            if k == c.0 {
                assert(ps[n].0 == k);
            } else if pairs_as_cookies(ps).contains_key(k) {
                let i = choose|i: int| 0 <= i < ps.len() && (#[trigger] ps[i]).0 == k;
                assert(i < n);
                assert(init[i] == ps[i]);
            } else if m0.contains_key(k) {
                let i = choose|i: int| 0 <= i < init.len() && (#[trigger] init[i]).0 == k;
                assert(ps[i] == init[i]);
            }
        }
        assert forall|k: Seq<char>| #[trigger] pairs_as_cookies(ps).contains_key(k) implies pairs_as_cookies(ps)[k] == m0.insert(c.0, c)[k] by {
            let i = choose|i: int| 0 <= i < ps.len() && (#[trigger] ps[i]).0 == k;
            if k == c.0 {
                assert(ps[n].0 == k);
                if i != n {
                    assert(ps[i].0 != ps[n].0);
                }
            } else {
                assert(i < n);
                assert(init[i] == ps[i]);
                let i0 = choose|i0: int| 0 <= i0 < init.len() && (#[trigger] init[i0]).0 == k;
                assert(ps[i0] == init[i0]);
                if i0 != i {
                    if i0 < i {
                        assert(ps[i0].0 != ps[i].0);
                    } else {
                        assert(ps[i].0 != ps[i0].0);
                    }
                }
            }
        }
        assert(pairs_as_cookies(ps) =~= m0.insert(c.0, (c.0, c.1)));
    }
}

/// Cookies given to a request as a map are read back as the same cookies:
/// each name with its value, where every name and value is clean.
pub proof fn law_cookies_round_trip(
    before: RequestView,
    m: Map<Seq<char>, (Seq<char>, Seq<char>)>,
    ps: Seq<(Seq<char>, Seq<char>)>,
    r: Result<DeboaRequestBuilder, DeboaError>,
)
    requires
        lists_cookies(m, ps),
        forall|k: Seq<char>| #[trigger] m.contains_key(k) ==> clean_cookie((k, m[k].1)),
        cookie_header_set(before, encode_utf8(join_cookies(ps)), r),
    ensures
        r matches Ok(b) && request_cookies(b@.headers) == Some(
            Map::new(|k: Seq<char>| m.contains_key(k), |k: Seq<char>| (k, m[k].1)),
        ),
{
    let keyed = Map::new(|k: Seq<char>| m.contains_key(k), |k: Seq<char>| (k, m[k].1));
    assert forall|i: int| 0 <= i < ps.len() implies clean_cookie(#[trigger] ps[i]) by {
        assert(m.contains_key(ps[i].0));
        assert(clean_cookie((ps[i].0, m[ps[i].0].1)));
    }
    let text = join_cookies(ps);
    if ps.len() == 0 {
        assert(text =~= Seq::<char>::empty());
        lemma_printable_round_trip(text);
        lemma_split_single(text, ';');
        assert(seq![text].drop_last() =~= Seq::<Seq<char>>::empty());
        assert(trim(text) =~= Seq::<char>::empty());
        assert(index_of(trim(text), '=', 0) == 0);
        assert(seq![text].last() == text);
        assert(cookies_from_segments(Seq::<Seq<char>>::empty()) == no_cookies());
        assert(cookies_from_segments(seq![text]) == no_cookies());
        assert forall|k: Seq<char>| !m.contains_key(k) by {
            if m.contains_key(k) {
                let j = choose|j: int| 0 <= j < ps.len() && (#[trigger] ps[j]).0 == k;
            }
        }
        assert(keyed =~= no_cookies());
    } else {
        lemma_split_joined(ps);
        assert forall|i: int| 0 <= i < text.len() implies ' ' <= #[trigger] text[i] && text[i] <= '~' by {
            lemma_join_printable(ps);
        }
        lemma_printable_round_trip(text);
        lemma_cookies_of_pieces(ps);
        assert forall|k: Seq<char>| #[trigger] pairs_as_cookies(ps).contains_key(k) == keyed.contains_key(k) by {
            if m.contains_key(k) {
                let j = choose|j: int| 0 <= j < ps.len() && (#[trigger] ps[j]).0 == k;
                assert(ps[j].0 == k);
            }
        }
        assert forall|k: Seq<char>| #[trigger] keyed.contains_key(k) implies pairs_as_cookies(ps)[k] == keyed[k] by {
            let j = choose|j: int| 0 <= j < ps.len() && (#[trigger] ps[j]).0 == k;
            assert(m[ps[j].0].1 == ps[j].1);
        }
        assert(pairs_as_cookies(ps) =~= keyed);
    }
}

proof fn lemma_join_printable(ps: Seq<(Seq<char>, Seq<char>)>)
    requires
        all_clean(ps),
    ensures
        forall|i: int| 0 <= i < join_cookies(ps).len() ==> ' ' <= #[trigger] join_cookies(ps)[i] && join_cookies(ps)[i] <= '~',
    decreases ps.len(),
{
    if ps.len() > 0 {
        let init = ps.drop_last();
        assert forall|i: int| 0 <= i < init.len() implies clean_cookie(#[trigger] init[i]) by {
            assert(init[i] == ps[i]);
        }
        lemma_join_printable(init);
        assert(clean_cookie(ps[ps.len() - 1]));
        lemma_pair_text_clean(ps.last());
        if ps.len() == 1 {
            assert(clean_cookie(ps[0]));
            lemma_pair_text_clean(ps[0]);
        } else {
            let a = join_cookies(init);
            let t = cookie_pair_text(ps.last());
            assert(join_cookies(ps) == a + seq![';', ' '] + t);
            assert forall|i: int| 0 <= i < join_cookies(ps).len() implies ' ' <= #[trigger] join_cookies(ps)[i] && join_cookies(ps)[i] <= '~' by {
                if i < a.len() {
                    assert(join_cookies(ps)[i] == a[i]);
                } else if i >= a.len() + 2 {
                    assert(join_cookies(ps)[i] == t[i - a.len() - 2]);
                }
            }
        }
    }
}


/// A clean cookie written as `name=value` is read back as the same cookie.
pub proof fn law_cookie_text_round_trip(c: (Seq<char>, Seq<char>))
    requires
        clean_cookie(c),
    ensures
        cookie_of_header(cookie_pair_text(c)) == Some(c),
{
    let text = cookie_pair_text(c);
    lemma_pair_text_clean(c);
    lemma_index_of(text, ';', 0);
    assert(index_of(text, ';', 0) == text.len());
    assert(text.take(text.len() as int) =~= text);
    assert(c.0[0] == text[0]);
    assert(!is_ws(c.0[0]));
    lemma_trim_start_is(c.0, 0);
    lemma_trim_end_is(c.0, c.0.len() as int);
    assert(c.0.subrange(0, c.0.len() as int) =~= c.0);
    if c.1.len() > 0 {
        lemma_trim_start_is(c.1, 0);
        lemma_trim_end_is(c.1, c.1.len() as int);
        assert(c.1.subrange(0, c.1.len() as int) =~= c.1);
    } else {
        assert(trim(c.1) =~= c.1);
    }
}

/// The opening line of a multipart body: `--boundary` and CRLF.
pub open spec fn multipart_opening(boundary: Seq<char>) -> Seq<u8> {
    seq![45u8, 45u8] + encode_utf8(boundary) + crlf()
}

proof fn lemma_upto_opening(boundary: Seq<char>, es: Seq<(Seq<char>, Seq<char>)>, srcs: Seq<FieldSource>, k: int)
    requires
        0 <= k,
        multipart_upto(boundary, es, srcs, k) is Some,
    ensures
        multipart_upto(boundary, es, srcs, k)->Some_0.len() >= multipart_opening(boundary).len(),
        multipart_upto(boundary, es, srcs, k)->Some_0.take(multipart_opening(boundary).len() as int) == multipart_opening(boundary),
    decreases k,
{
    let o = multipart_opening(boundary);
    if k == 0 {
        assert(multipart_upto(boundary, es, srcs, 0)->Some_0 == o);
        assert(o.take(o.len() as int) =~= o);
    } else {
        lemma_upto_opening(boundary, es, srcs, k - 1);
        let prev = multipart_upto(boundary, es, srcs, k - 1)->Some_0;
        let cur = multipart_upto(boundary, es, srcs, k)->Some_0;
        assert(cur.take(o.len() as int) =~= prev.take(o.len() as int));
    }
}

/// A multipart body opens with `--boundary` and CRLF, and, where it has
/// fields, closes with `--boundary--` and CRLF.
pub proof fn law_multipart_framing(boundary: Seq<char>, es: Seq<(Seq<char>, Seq<char>)>, srcs: Seq<FieldSource>)
    requires
        multipart_body(boundary, es, srcs) is Some,
    ensures
        multipart_body(boundary, es, srcs)->Some_0.take(multipart_opening(boundary).len() as int) == multipart_opening(boundary),
        es.len() > 0 ==> multipart_body(boundary, es, srcs)->Some_0.skip(
            multipart_body(boundary, es, srcs)->Some_0.len() - delimiter(boundary, true).len(),
        ) == delimiter(boundary, true),
{
    lemma_upto_opening(boundary, es, srcs, es.len() as int);
    if es.len() > 0 {
        let body = multipart_body(boundary, es, srcs)->Some_0;
        let d = delimiter(boundary, true);
        assert(body.skip(body.len() - d.len()) =~= d);
    }
}


/// Cookies added one by one: after each call the `cookie` header's first
/// value is the cookies so far, joined.
proof fn lemma_cookie_chain(
    before: RequestView,
    cs: Seq<(Seq<char>, Seq<char>)>,
    rs: Seq<Result<DeboaRequestBuilder, DeboaError>>,
    k: int,
)
    requires
        first_value(before.headers, "cookie"@) is None,
        1 <= k <= cs.len(),
        rs.len() == cs.len(),
        all_clean(cs),
        cookie_added(before, cs[0], rs[0]),
        forall|i: int| 1 <= i < cs.len() ==> (rs[i - 1] is Ok ==> cookie_added((#[trigger] rs[i - 1])->Ok_0@, cs[i], rs[i])),
    ensures
        forall|j: int| 0 <= j < k ==> #[trigger] rs[j] is Ok,
        first_value(rs[k - 1]->Ok_0@.headers, "cookie"@) == Some(encode_utf8(join_cookies(cs.take(k)))),
    decreases k,
{
    let t = cs.take(k);
    assert forall|i: int| 0 <= i < t.len() implies clean_cookie(#[trigger] t[i]) by {
        assert(t[i] == cs[i]);
    }
    lemma_join_printable(t);
    lemma_printable_round_trip(join_cookies(t));
    assert(clean_cookie(cs[k - 1]));
    lemma_pair_text_clean(cs[k - 1]);
    if k == 1 {
        assert(join_cookies(t) == cookie_pair_text(cs[0]));
    } else {
        lemma_cookie_chain(before, cs, rs, k - 1);
        let prev = cs.take(k - 1);
        assert(t.drop_last() =~= prev);
        assert(t.last() == cs[k - 1]);
        assert forall|i: int| 0 <= i < prev.len() implies clean_cookie(#[trigger] prev[i]) by {
            assert(prev[i] == cs[i]);
        }
        lemma_join_printable(prev);
        lemma_printable_round_trip(join_cookies(prev));
        assert(rs[k - 2] is Ok);
        assert(cookie_added(rs[k - 2]->Ok_0@, cs[k - 1], rs[k - 1]));
        assert(join_cookies(t) == join_cookies(prev) + seq![';', ' '] + cookie_pair_text(cs[k - 1]));
    }
}

/// Cookies added one by one with `cookie()` to a request without cookies,
/// each with its own name, are read back as exactly those cookies.
pub proof fn law_cookie_chain_round_trip(
    before: RequestView,
    cs: Seq<(Seq<char>, Seq<char>)>,
    rs: Seq<Result<DeboaRequestBuilder, DeboaError>>,
)
    requires
        first_value(before.headers, "cookie"@) is None,
        cs.len() >= 1,
        rs.len() == cs.len(),
        all_clean(cs),
        forall|i: int, j: int| 0 <= i < j < cs.len() ==> (#[trigger] cs[i]).0 != (#[trigger] cs[j]).0,
        cookie_added(before, cs[0], rs[0]),
        forall|i: int| 1 <= i < cs.len() ==> (rs[i - 1] is Ok ==> cookie_added((#[trigger] rs[i - 1])->Ok_0@, cs[i], rs[i])),
    ensures
        forall|j: int| 0 <= j < rs.len() ==> #[trigger] rs[j] is Ok,
        request_cookies(rs.last()->Ok_0@.headers) == Some(pairs_as_cookies(cs)),
{
    let n = cs.len() as int;
    lemma_cookie_chain(before, cs, rs, n);
    assert(cs.take(n) =~= cs);
    let text = join_cookies(cs);
    lemma_join_printable(cs);
    lemma_printable_round_trip(text);
    lemma_split_joined(cs);
    lemma_cookies_of_pieces(cs);
}

/// A connection-config builder made by `new` and then any sequence of setter
/// calls holds, for each setting, the value of the last call of that
/// setting's setter, or the default where there was no such call.
pub proof fn law_builder_last_setting<I, C>(xs: Seq<Setting<I, C>>)
    ensures
        apply_settings(default_settings::<I, C>(), xs) == last_settings(xs),
    decreases xs.len(),
{
    if xs.len() > 0 {
        let p = xs.drop_last();
        law_builder_last_setting(p);
        lemma_last_call_range(p, |x: Setting<I, C>| x is Scheme);
        lemma_last_call_range(p, |x: Setting<I, C>| x is Host);
        lemma_last_call_range(p, |x: Setting<I, C>| x is Port);
        lemma_last_call_range(p, |x: Setting<I, C>| x is ProtocolVersion);
        lemma_last_call_range(p, |x: Setting<I, C>| x is ConnectionTimeout);
        lemma_last_call_range(p, |x: Setting<I, C>| x is Identity);
        lemma_last_call_range(p, |x: Setting<I, C>| x is Certificate);
        lemma_last_call_range(p, |x: Setting<I, C>| x is SkipCertVerification);
        lemma_last_call_range(p, |x: Setting<I, C>| x is ClientBindAddr);
        lemma_last_call_range(p, |x: Setting<I, C>| x is PriorKnowledge);
        assert forall|k: int| 0 <= k < p.len() implies p[k] == xs[k] by {}
    }
}

proof fn lemma_last_call_range<I, C>(xs: Seq<Setting<I, C>>, f: spec_fn(Setting<I, C>) -> bool)
    ensures
        -1 <= last_call(xs, f) < xs.len(),
        last_call(xs, f) >= 0 ==> f(xs[last_call(xs, f)]),
    decreases xs.len(),
{
    if xs.len() > 0 {
        lemma_last_call_range(xs.drop_last(), f);
    }
}

/// `j` is the last position in `ps` that holds the name `k`.
pub open spec fn last_pair_with(ps: Seq<(Seq<char>, Seq<u8>)>, k: Seq<char>, j: int) -> bool {
    &&& 0 <= j < ps.len()
    &&& ps[j].0 == k
    &&& forall|l: int| j < l < ps.len() ==> (#[trigger] ps[l]).0 != k
}

/// The pair at `i` keeps its name among the headers that inserting the pairs
/// in order gives, with the value of the last pair that has that name.
pub proof fn lemma_pair_last_value(ps: Seq<(Seq<char>, Seq<u8>)>, i: int)
    requires
        0 <= i < ps.len(),
    ensures
        headers_from_pairs(ps).contains_key(ps[i].0),
        exists|j: int| last_pair_with(ps, ps[i].0, j) && headers_from_pairs(ps)[ps[i].0] == seq![#[trigger] ps[j].1],
    decreases ps.len(),
{
    let n = ps.len() - 1;
    let p = ps.drop_last();
    if ps[i].0 == ps[n].0 {
        assert(last_pair_with(ps, ps[i].0, n));
        assert(headers_from_pairs(ps)[ps[i].0] == seq![ps[n].1]);
    } else {
        assert(p[i] == ps[i]);
        lemma_pair_last_value(p, i);
        let j = choose|j: int| last_pair_with(p, p[i].0, j) && headers_from_pairs(p)[p[i].0] == seq![#[trigger] p[j].1];
        assert(p[j] == ps[j]);
        assert forall|l: int| j < l < ps.len() implies (#[trigger] ps[l]).0 != ps[i].0 by {
            if l < n {
                assert(p[l] == ps[l]);
            }
        }
        assert(last_pair_with(ps, ps[i].0, j));
        assert(headers_from_pairs(ps)[ps[i].0] == seq![ps[j].1]);
    }
}

/// Every name among the headers that inserting the pairs gives is the name of a pair.
pub proof fn lemma_pairs_names_come_from(ps: Seq<(Seq<char>, Seq<u8>)>, k: Seq<char>)
    requires
        headers_from_pairs(ps).contains_key(k),
    ensures
        exists|i: int| 0 <= i < ps.len() && (#[trigger] ps[i]).0 == k,
    decreases ps.len(),
{
    let n = ps.len() - 1;
    if k == ps[n].0 {
        assert(ps[n].0 == k);
    } else {
        let p = ps.drop_last();
        lemma_pairs_names_come_from(p, k);
        let i = choose|i: int| 0 <= i < p.len() && (#[trigger] p[i]).0 == k;
        assert(ps[i] == p[i]);
    }
}

/// The normalized name of the `i`-th (name, value) text pair.
pub open spec fn str_pair_name<'a>(v: Seq<(&'a str, &'a str)>, i: int) -> Seq<char> {
    normalize_name(encode_utf8(v[i].0@))
}

/// The value bytes of the `i`-th (name, value) text pair.
pub open spec fn str_pair_value<'a>(v: Seq<(&'a str, &'a str)>, i: int) -> Seq<u8> {
    encode_utf8(v[i].1@)
}

/// `j` is the last pair of `v` with the name of pair `i`.
pub open spec fn last_str_pair<'a>(v: Seq<(&'a str, &'a str)>, i: int, j: int) -> bool {
    &&& 0 <= j < v.len()
    &&& str_pair_name(v, j) == str_pair_name(v, i)
    &&& forall|l: int| j < l < v.len() ==> #[trigger] str_pair_name(v, l) != str_pair_name(v, i)
}

/// Turning a list of (name, value) text pairs into headers keeps every name
/// of the list (normalized), each with the value of the last pair that has
/// that name.
pub proof fn law_str_pairs_headers<'a>(v: Vec<(&'a str, &'a str)>, i: int)
    requires
        0 <= i < v@.len(),
    ensures
        v.headers_of().contains_key(str_pair_name(v@, i)),
        exists|j: int| last_str_pair(v@, i, j) && v.headers_of()[str_pair_name(v@, i)] == seq![#[trigger] str_pair_value(v@, j)],
{
    let tv = v@.map_values(|p: (&'a str, &'a str)| (p.0@, p.1@));
    let ps = text_pairs(tv);
    assert forall|x: int| 0 <= x < v@.len() implies #[trigger] ps[x] == (str_pair_name(v@, x), str_pair_value(v@, x)) by {
        assert(tv[x] == (v@[x].0@, v@[x].1@));
    }
    assert(ps[i] == (str_pair_name(v@, i), str_pair_value(v@, i)));
    lemma_pair_last_value(ps, i);
    let j = choose|j: int| last_pair_with(ps, ps[i].0, j) && headers_from_pairs(ps)[ps[i].0] == seq![#[trigger] ps[j].1];
    assert(ps[j] == (str_pair_name(v@, j), str_pair_value(v@, j)));
    assert forall|l: int| j < l < v@.len() implies #[trigger] str_pair_name(v@, l) != str_pair_name(v@, i) by {
        assert(ps[l] == (str_pair_name(v@, l), str_pair_value(v@, l)));
    }
    assert(last_str_pair(v@, i, j));
}

/// Every header name that a list of (name, value) text pairs gives is the
/// (normalized) name of one of its pairs.
pub proof fn law_str_pairs_names<'a>(v: Vec<(&'a str, &'a str)>, k: Seq<char>)
    requires
        v.headers_of().contains_key(k),
    ensures
        exists|i: int| 0 <= i < v@.len() && #[trigger] str_pair_name(v@, i) == k,
{
    let tv = v@.map_values(|p: (&'a str, &'a str)| (p.0@, p.1@));
    let ps = text_pairs(tv);
    lemma_pairs_names_come_from(ps, k);
    let i = choose|i: int| 0 <= i < ps.len() && (#[trigger] ps[i]).0 == k;
    assert(tv[i] == (v@[i].0@, v@[i].1@));
    assert(str_pair_name(v@, i) == k);
}

/// The normalized name of the `i`-th (name, value) string pair.
pub open spec fn string_pair_name(v: Seq<(String, String)>, i: int) -> Seq<char> {
    normalize_name(encode_utf8(v[i].0@))
}

/// The value bytes of the `i`-th (name, value) string pair.
pub open spec fn string_pair_value(v: Seq<(String, String)>, i: int) -> Seq<u8> {
    encode_utf8(v[i].1@)
}

/// `j` is the last pair of `v` with the name of pair `i`.
pub open spec fn last_string_pair(v: Seq<(String, String)>, i: int, j: int) -> bool {
    &&& 0 <= j < v.len()
    &&& string_pair_name(v, j) == string_pair_name(v, i)
    &&& forall|l: int| j < l < v.len() ==> #[trigger] string_pair_name(v, l) != string_pair_name(v, i)
}

/// Turning a list of (name, value) string pairs into headers keeps every name
/// of the list (normalized), each with the value of the last pair that has
/// that name.
pub proof fn law_string_pairs_headers(v: Vec<(String, String)>, i: int)
    requires
        0 <= i < v@.len(),
    ensures
        v.headers_of().contains_key(string_pair_name(v@, i)),
        exists|j: int| last_string_pair(v@, i, j) && v.headers_of()[string_pair_name(v@, i)] == seq![#[trigger] string_pair_value(v@, j)],
{
    let tv = v@.map_values(|p: (String, String)| (p.0@, p.1@));
    let ps = text_pairs(tv);
    assert forall|x: int| 0 <= x < v@.len() implies #[trigger] ps[x] == (string_pair_name(v@, x), string_pair_value(v@, x)) by {
        assert(tv[x] == (v@[x].0@, v@[x].1@));
    }
    assert(ps[i] == (string_pair_name(v@, i), string_pair_value(v@, i)));
    lemma_pair_last_value(ps, i);
    let j = choose|j: int| last_pair_with(ps, ps[i].0, j) && headers_from_pairs(ps)[ps[i].0] == seq![#[trigger] ps[j].1];
    assert(ps[j] == (string_pair_name(v@, j), string_pair_value(v@, j)));
    assert forall|l: int| j < l < v@.len() implies #[trigger] string_pair_name(v@, l) != string_pair_name(v@, i) by {
        assert(ps[l] == (string_pair_name(v@, l), string_pair_value(v@, l)));
    }
    assert(last_string_pair(v@, i, j));
}

/// Every header name that a list of (name, value) string pairs gives is the
/// (normalized) name of one of its pairs.
pub proof fn law_string_pairs_names(v: Vec<(String, String)>, k: Seq<char>)
    requires
        v.headers_of().contains_key(k),
    ensures
        exists|i: int| 0 <= i < v@.len() && #[trigger] string_pair_name(v@, i) == k,
{
    let tv = v@.map_values(|p: (String, String)| (p.0@, p.1@));
    let ps = text_pairs(tv);
    lemma_pairs_names_come_from(ps, k);
    let i = choose|i: int| 0 <= i < ps.len() && (#[trigger] ps[i]).0 == k;
    assert(tv[i] == (v@[i].0@, v@[i].1@));
    assert(string_pair_name(v@, i) == k);
}

/// The name of the `i`-th (header name, text) pair.
pub open spec fn named_pair_name(v: Seq<(HeaderName, String)>, i: int) -> Seq<char> {
    v[i].0@
}

/// The value bytes of the `i`-th (header name, text) pair.
pub open spec fn named_pair_value(v: Seq<(HeaderName, String)>, i: int) -> Seq<u8> {
    encode_utf8(v[i].1@)
}

/// `j` is the last pair of `v` with the name of pair `i`.
pub open spec fn last_named_pair(v: Seq<(HeaderName, String)>, i: int, j: int) -> bool {
    &&& 0 <= j < v.len()
    &&& named_pair_name(v, j) == named_pair_name(v, i)
    &&& forall|l: int| j < l < v.len() ==> #[trigger] named_pair_name(v, l) != named_pair_name(v, i)
}

/// Turning a list of (header name, text) pairs into headers keeps every name
/// of the list, each with the value of the last pair that has that name.
pub proof fn law_named_pairs_headers(v: Vec<(HeaderName, String)>, i: int)
    requires
        0 <= i < v@.len(),
    ensures
        v.headers_of().contains_key(named_pair_name(v@, i)),
        exists|j: int| last_named_pair(v@, i, j) && v.headers_of()[named_pair_name(v@, i)] == seq![#[trigger] named_pair_value(v@, j)],
{
    let ps = named_pairs(v@);
    assert forall|x: int| 0 <= x < v@.len() implies #[trigger] ps[x] == (named_pair_name(v@, x), named_pair_value(v@, x)) by {
    }
    assert(ps[i] == (named_pair_name(v@, i), named_pair_value(v@, i)));
    lemma_pair_last_value(ps, i);
    let j = choose|j: int| last_pair_with(ps, ps[i].0, j) && headers_from_pairs(ps)[ps[i].0] == seq![#[trigger] ps[j].1];
    assert(ps[j] == (named_pair_name(v@, j), named_pair_value(v@, j)));
    assert forall|l: int| j < l < v@.len() implies #[trigger] named_pair_name(v@, l) != named_pair_name(v@, i) by {
        assert(ps[l] == (named_pair_name(v@, l), named_pair_value(v@, l)));
    }
    assert(last_named_pair(v@, i, j));
}

/// Every header name that a list of (header name, text) pairs gives is the
/// name of one of its pairs.
pub proof fn law_named_pairs_names(v: Vec<(HeaderName, String)>, k: Seq<char>)
    requires
        v.headers_of().contains_key(k),
    ensures
        exists|i: int| 0 <= i < v@.len() && #[trigger] named_pair_name(v@, i) == k,
{
    let ps = named_pairs(v@);
    lemma_pairs_names_come_from(ps, k);
    let i = choose|i: int| 0 <= i < ps.len() && (#[trigger] ps[i]).0 == k;
    assert(named_pair_name(v@, i) == k);
}

/// The closing `--boundary--\r\n` of a multipart body.
pub open spec fn multipart_closing(boundary: Seq<char>) -> Seq<u8> {
    seq![45u8, 45u8] + encode_utf8(boundary) + seq![45u8, 45u8, 13u8, 10u8]
}

/// Sending a multipart form sets the `content-type` header to
/// `multipart/form-data; boundary=` and the form's boundary, and the body
/// opens with `--` and that boundary and, where the form has fields, closes
/// with `--`, that boundary and `--`.
pub proof fn law_multipart_form_content_type(
    before: RequestView,
    f: MultiPartForm,
    sources: Seq<FieldSource>,
    r: Result<DeboaRequestBuilder, DeboaError>,
)
    requires
        form_set(before, Form::MultiPartForm(f), sources, r),
        r is Ok,
    ensures
        r->Ok_0@.headers.contains_key("content-type"@),
        r->Ok_0@.headers["content-type"@] == seq![encode_utf8("multipart/form-data; boundary="@ + f.boundary_view())],
        r->Ok_0@.body.len() >= multipart_opening(f.boundary_view()).len(),
        r->Ok_0@.body.take(multipart_opening(f.boundary_view()).len() as int) == multipart_opening(f.boundary_view()),
        f.entries().len() > 0 ==> r->Ok_0@.body.len() >= multipart_closing(f.boundary_view()).len()
            && r->Ok_0@.body.skip(r->Ok_0@.body.len() - multipart_closing(f.boundary_view()).len()) == multipart_closing(f.boundary_view()),
{
    let bd = f.boundary_view();
    let es = f.entries();
    let b = multipart_body(bd, es, sources)->Some_0;
    lemma_upto_opening(bd, es, sources, es.len() as int);
    if es.len() > 0 {
        let k = es.len() as int;
        let acc = multipart_upto(bd, es, sources, k - 1)->Some_0;
        let p = field_part(es[k - 1].0, es[k - 1].1, sources[k - 1])->Some_0;
        assert(b == acc + p + delimiter(bd, true));
        assert(delimiter(bd, true) =~= multipart_closing(bd));
        assert(b.skip(b.len() - multipart_closing(bd).len()) =~= multipart_closing(bd));
    }
}

/// A prefix of the fields of a multipart body gives a prefix of the body.
proof fn lemma_upto_prefix(boundary: Seq<char>, es: Seq<(Seq<char>, Seq<char>)>, srcs: Seq<FieldSource>, k: int, n: int)
    requires
        0 <= k <= n,
        multipart_upto(boundary, es, srcs, n) is Some,
    ensures
        multipart_upto(boundary, es, srcs, k) is Some,
        multipart_upto(boundary, es, srcs, k)->Some_0.len() <= multipart_upto(boundary, es, srcs, n)->Some_0.len(),
        multipart_upto(boundary, es, srcs, n)->Some_0.take(multipart_upto(boundary, es, srcs, k)->Some_0.len() as int)
            == multipart_upto(boundary, es, srcs, k)->Some_0,
    decreases n - k,
{
    if k == n {
        let b = multipart_upto(boundary, es, srcs, n)->Some_0;
        assert(b.take(b.len() as int) =~= b);
    } else {
        lemma_upto_prefix(boundary, es, srcs, k + 1, n);
        let mid = multipart_upto(boundary, es, srcs, k + 1)->Some_0;
        let full = multipart_upto(boundary, es, srcs, n)->Some_0;
        let low = multipart_upto(boundary, es, srcs, k)->Some_0;
        assert(mid.take(low.len() as int) =~= low);
        assert(full.take(low.len() as int) =~= mid.take(low.len() as int));
    }
}

/// The bytes of a text field in a multipart body, from its disposition line
/// to the `--boundary` that follows it: the value's UTF-8 bytes stand, as
/// they are, between the empty line and the CRLF before the delimiter.
pub open spec fn text_field_bytes(boundary: Seq<char>, key: Seq<char>, value: Seq<char>) -> Seq<u8> {
    encode_utf8("Content-Disposition: form-data; name=\""@) + encode_utf8(key) + seq![34u8, 13u8, 10u8, 13u8, 10u8]
        + encode_utf8(value) + seq![13u8, 10u8, 45u8, 45u8] + encode_utf8(boundary)
}

/// A text field's part followed by a delimiter starts with the field's bytes.
proof fn lemma_text_part_opens(boundary: Seq<char>, key: Seq<char>, value: Seq<char>, last: bool)
    ensures
        (crate::form::text_part(key, value) + delimiter(boundary, last)).take(text_field_bytes(boundary, key, value).len() as int)
            == text_field_bytes(boundary, key, value),
{
    let t = text_field_bytes(boundary, key, value);
    assert((crate::form::text_part(key, value) + delimiter(boundary, last)).take(t.len() as int) =~= t);
}

/// In a multipart body, every field sent as text appears with its key and
/// exactly the UTF-8 bytes of its value, followed by the next delimiter.
pub proof fn law_multipart_text_value(
    boundary: Seq<char>,
    es: Seq<(Seq<char>, Seq<char>)>,
    srcs: Seq<FieldSource>,
    i: int,
)
    requires
        multipart_body(boundary, es, srcs) is Some,
        0 <= i < es.len(),
        srcs[i] is Text,
    ensures
        exists|p: int| 0 <= p && p + text_field_bytes(boundary, es[i].0, es[i].1).len() <= multipart_body(boundary, es, srcs)->Some_0.len()
            && #[trigger] multipart_body(boundary, es, srcs)->Some_0.subrange(p, p + text_field_bytes(boundary, es[i].0, es[i].1).len())
                == text_field_bytes(boundary, es[i].0, es[i].1),
{
    let n = es.len() as int;
    let b = multipart_body(boundary, es, srcs)->Some_0;
    lemma_upto_prefix(boundary, es, srcs, i + 1, n);
    lemma_upto_prefix(boundary, es, srcs, i, i + 1);
    let acc = multipart_upto(boundary, es, srcs, i)->Some_0;
    let cur = multipart_upto(boundary, es, srcs, i + 1)->Some_0;
    let part = field_part(es[i].0, es[i].1, srcs[i])->Some_0;
    let d = delimiter(boundary, i + 1 == n);
    let t = text_field_bytes(boundary, es[i].0, es[i].1);
    assert(cur == acc + part + d);
    let p = acc.len() as int;
    lemma_text_part_opens(boundary, es[i].0, es[i].1, i + 1 == n);
    assert(cur.subrange(p, p + t.len()) =~= (part + d).take(t.len() as int));
    assert(b.take(cur.len() as int) == cur);
    assert(b.subrange(p, p + t.len()) =~= cur.subrange(p, p + t.len()));
}

/// The request constructor call that a macro's expansion makes: the verb
/// with the URL (and, for `submit!`, `at` with the URL and the method).
pub open spec fn constructor_call(m: MacroName, a: ArgsView) -> Seq<char> {
    if m == MacroName::Submit {
        "at("@ + render(arg(a, ArgKey::Url)) + ", "@ + render(arg(a, ArgKey::Method)) + ")?"@
    } else {
        verb(m) + "("@ + render(arg(a, ArgKey::Url)) + ")?"@
    }
}

/// Where a macro call gives `headers => h` and expands, the request is built
/// with those headers: `.headers(h)` follows the constructor call at once.
pub proof fn law_macro_headers_kept(m: MacroName, ts: Seq<Tok>, vd: VerdictsView, a: ArgsView, r: Result<String, String>)
    requires
        output_of(m, ts, vd, r),
        parse_args(m, ts, vd) == Ok::<ArgsView, Seq<char>>(a),
        is_given(a, ArgKey::Headers),
        r is Ok,
    ensures
        exists|rest: Seq<char>| r->Ok_0@ == "deboa::HttpClient::execute("@ + render(arg(a, ArgKey::Client))
            + ", deboa::request::DeboaRequest::"@ + constructor_call(m, a)
            + ".headers("@ + render(arg(a, ArgKey::Headers)) + ")"@ + rest,
{
    let start = "deboa::HttpClient::execute("@ + render(arg(a, ArgKey::Client)) + ", deboa::request::DeboaRequest::"@;
    let head = start + constructor_call(m, a) + ".headers("@ + render(arg(a, ArgKey::Headers)) + ")"@;
    let c = expansion(m, a);
    assert(r->Ok_0@ == c);
    if m == MacroName::Submit {
        let rest = text_part(a) + ".build()?,).await?"@;
        assert(c =~= head + rest);
    } else {
        let rest = (if uses_request_body(m) { request_body_part(a) } else { Seq::empty() })
            + ".build()?,).await?"@
            + (if uses_response_body(m) { response_body_part(a) } else { Seq::empty() })
            + (if m == MacroName::Stream { ".stream()"@ } else { Seq::empty() });
        assert(c =~= head + rest);
    }
}

/// The body bytes that lines give once the body is being read: each line,
/// trimmed as every line is, without its line end, one after another.
pub open spec fn body_bytes(ls: Seq<Seq<char>>) -> Seq<u8>
    decreases ls.len(),
{
    if ls.len() == 0 {
        Seq::empty()
    } else {
        encode_utf8(trim(ls[0])) + body_bytes(ls.drop_first())
    }
}

/// Reading lines one after another is reading the first part, then the rest.
proof fn lemma_run_append(st: ParseState, a: Seq<Seq<char>>, b: Seq<Seq<char>>)
    ensures
        run(st, a + b) == match run(st, a) {
            Ok(st2) => run(st2, b),
            Err(f) => Err(f),
        },
    decreases a.len(),
{
    if a.len() > 0 {
        assert((a + b)[0] == a[0]);
        assert((a + b).drop_first() =~= a.drop_first() + b);
        if let Ok(st2) = step(st, trim(a[0])) {
            lemma_run_append(st2, a.drop_first(), b);
        }
    } else {
        assert(a + b =~= b);
    }
}

/// Once the body is being read, every line is appended to the body (without
/// its line end), whatever it holds: reading never fails, and the method,
/// URL and headers stay as they were.
pub proof fn law_request_body_lines(st: ParseState, ls: Seq<Seq<char>>)
    requires
        st.reading_body,
    ensures
        run(st, ls) == Ok::<ParseState, ParseFailure>(ParseState { body: st.body + body_bytes(ls), ..st }),
    decreases ls.len(),
{
    if ls.len() == 0 {
        assert(st.body + body_bytes(ls) =~= st.body);
    } else {
        let l = trim(ls[0]);
        let st2 = ParseState { body: st.body + encode_utf8(l), ..st };
        if l.len() == 0 {
            assert(encode_utf8(l) =~= Seq::<u8>::empty()) by {
                assert(l =~= Seq::<char>::empty());
            }
            assert(st2 == st) by {
                assert(st.body + encode_utf8(l) =~= st.body);
            }
        }
        assert(step(st, l) == Ok::<ParseState, ParseFailure>(st2));
        law_request_body_lines(st2, ls.drop_first());
        assert(st2.body + body_bytes(ls.drop_first()) =~= st.body + body_bytes(ls));
    }
}

/// A request text whose header part reads into a state with a URL and a
/// header, followed by an empty line, takes every later line into the body
/// as it stands, whatever characters it holds: a body line is never read
/// as a header and never makes the parse fail.
pub proof fn law_request_text_body(s: Seq<char>, hs: Seq<Seq<char>>, blank: Seq<char>, bs: Seq<Seq<char>>, st: ParseState)
    requires
        lines(s) == hs + seq![blank] + bs,
        trim(blank).len() == 0,
        run(initial_state(), hs) == Ok::<ParseState, ParseFailure>(st),
        !st.reading_body,
        st.url.len() > 0,
        st.headers.dom().len() > 0,
    ensures
        parse_request(s) == finish(ParseState { reading_body: true, body: st.body + body_bytes(bs), ..st }),
{
    lemma_run_append(initial_state(), hs, seq![blank] + bs);
    assert(hs + seq![blank] + bs =~= hs + (seq![blank] + bs));
    let open = ParseState { reading_body: true, ..st };
    assert(trim(blank) =~= Seq::<char>::empty());
    assert(request_line(Seq::<char>::empty()) is None) by {
        reveal_with_fuel(crate::request_line::find_match, 2);
    }
    assert(step(st, trim(blank)) == Ok::<ParseState, ParseFailure>(open));
    assert((seq![blank] + bs)[0] == blank);
    assert((seq![blank] + bs).drop_first() =~= bs);
    law_request_body_lines(open, bs);
}

/// The bytes of a file field in a multipart body, from its disposition line
/// to the `--boundary` that follows it: the file's name and content type in
/// the part's header lines, then the file's bytes as they are.
pub open spec fn file_field_bytes(boundary: Seq<char>, key: Seq<char>, name: Seq<char>, content_type: Seq<char>, content: Seq<u8>) -> Seq<u8> {
    encode_utf8("Content-Disposition: form-data; name=\""@) + encode_utf8(key) + encode_utf8("\"; filename=\""@)
        + encode_utf8(name) + seq![34u8, 13u8, 10u8] + encode_utf8("Content-Type: "@) + encode_utf8(content_type)
        + seq![13u8, 10u8, 13u8, 10u8] + content + seq![13u8, 10u8, 45u8, 45u8] + encode_utf8(boundary)
}

/// A file field's part followed by a delimiter starts with the field's bytes.
proof fn lemma_file_part_opens(boundary: Seq<char>, key: Seq<char>, name: Seq<char>, ct: Seq<char>, content: Seq<u8>, last: bool)
    ensures
        (crate::form::file_part(key, name, ct, content) + delimiter(boundary, last)).take(
            file_field_bytes(boundary, key, name, ct, content).len() as int,
        ) == file_field_bytes(boundary, key, name, ct, content),
{
    let t = file_field_bytes(boundary, key, name, ct, content);
    assert((crate::form::file_part(key, name, ct, content) + delimiter(boundary, last)).take(t.len() as int) =~= t);
}

/// In a multipart body, every file field whose file was read, whose path has
/// a file name and whose content type is known appears with its key, the
/// file's name, its content type and exactly the file's bytes, followed by
/// the next delimiter.
pub proof fn law_multipart_file_content(
    boundary: Seq<char>,
    es: Seq<(Seq<char>, Seq<char>)>,
    srcs: Seq<FieldSource>,
    i: int,
    content: Vec<u8>,
)
    requires
        multipart_body(boundary, es, srcs) is Some,
        0 <= i < es.len(),
        srcs[i] == FieldSource::File(Some(content)),
        crate::form::mime_type_of(es[i].1) is Some,
        crate::form::path_file_name(es[i].1) is Some,
    ensures
        exists|p: int| 0 <= p && p + file_field_bytes(boundary, es[i].0, crate::form::path_file_name(es[i].1)->Some_0,
                crate::form::mime_type_of(es[i].1)->Some_0, content@).len() <= multipart_body(boundary, es, srcs)->Some_0.len()
            && #[trigger] multipart_body(boundary, es, srcs)->Some_0.subrange(p, p + file_field_bytes(boundary, es[i].0,
                crate::form::path_file_name(es[i].1)->Some_0, crate::form::mime_type_of(es[i].1)->Some_0, content@).len())
                == file_field_bytes(boundary, es[i].0, crate::form::path_file_name(es[i].1)->Some_0,
                crate::form::mime_type_of(es[i].1)->Some_0, content@),
{
    let n = es.len() as int;
    let b = multipart_body(boundary, es, srcs)->Some_0;
    let name = crate::form::path_file_name(es[i].1)->Some_0;
    let ct = crate::form::mime_type_of(es[i].1)->Some_0;
    lemma_upto_prefix(boundary, es, srcs, i + 1, n);
    lemma_upto_prefix(boundary, es, srcs, i, i + 1);
    let acc = multipart_upto(boundary, es, srcs, i)->Some_0;
    let cur = multipart_upto(boundary, es, srcs, i + 1)->Some_0;
    let part = field_part(es[i].0, es[i].1, srcs[i])->Some_0;
    assert(part == crate::form::file_part(es[i].0, name, ct, content@));
    let d = delimiter(boundary, i + 1 == n);
    let t = file_field_bytes(boundary, es[i].0, name, ct, content@);
    assert(cur == acc + part + d);
    let p = acc.len() as int;
    lemma_file_part_opens(boundary, es[i].0, name, ct, content@, i + 1 == n);
    assert(cur.subrange(p, p + t.len()) =~= (part + d).take(t.len() as int));
    assert(b.take(cur.len() as int) == cur);
    assert(b.subrange(p, p + t.len()) =~= cur.subrange(p, p + t.len()));
}

/// Sending a URL-encoded form sets the `content-type` header to
/// `application/x-www-form-urlencoded`.
pub proof fn law_encoded_form_content_type(
    before: RequestView,
    f: crate::form::EncodedForm,
    sources: Seq<FieldSource>,
    r: Result<DeboaRequestBuilder, DeboaError>,
)
    requires
        form_set(before, Form::EncodedForm(f), sources, r),
        r is Ok,
    ensures
        r->Ok_0@.headers.contains_key("content-type"@),
        r->Ok_0@.headers["content-type"@] == seq![encode_utf8("application/x-www-form-urlencoded"@)],
{
}

/// Where a macro that sends a body is given `req_body_ty => f` and
/// `data => d` and expands, the request is built with the serialized body:
/// `.body_as(f, d)?` comes right before `.build()?`.
pub proof fn law_macro_request_body_kept(m: MacroName, ts: Seq<Tok>, vd: VerdictsView, a: ArgsView, r: Result<String, String>)
    requires
        output_of(m, ts, vd, r),
        parse_args(m, ts, vd) == Ok::<ArgsView, Seq<char>>(a),
        uses_request_body(m),
        is_given(a, ArgKey::ReqBodyTy),
        is_given(a, ArgKey::Data),
        r is Ok,
    ensures
        exists|pre: Seq<char>, post: Seq<char>| r->Ok_0@ == pre + ".body_as("@ + render(arg(a, ArgKey::ReqBodyTy)) + ", "@
            + render(arg(a, ArgKey::Data)) + ")?"@ + ".build()?,).await?"@ + post,
{
    let c = expansion(m, a);
    let start = "deboa::HttpClient::execute("@ + render(arg(a, ArgKey::Client)) + ", deboa::request::DeboaRequest::"@;
    let pre = start + verb(m) + "("@ + render(arg(a, ArgKey::Url)) + ")?"@ + crate::macros::headers_part(a);
    let post = if uses_response_body(m) { response_body_part(a) } else { Seq::empty() };
    assert(c =~= pre + ".body_as("@ + render(arg(a, ArgKey::ReqBodyTy)) + ", "@
        + render(arg(a, ArgKey::Data)) + ")?"@ + ".build()?,).await?"@ + post);
}

/// Where a macro that reads the response is given `res_body_ty => f` and
/// `res_ty => T` and expands, the response body is read as `T` in format
/// `f`: the expansion ends with `.body_as::<f, T>(f).await?`.
pub proof fn law_macro_response_body_kept(m: MacroName, ts: Seq<Tok>, vd: VerdictsView, a: ArgsView, r: Result<String, String>)
    requires
        output_of(m, ts, vd, r),
        parse_args(m, ts, vd) == Ok::<ArgsView, Seq<char>>(a),
        uses_response_body(m),
        is_given(a, ArgKey::ResBodyTy),
        is_given(a, ArgKey::ResTy),
        r is Ok,
    ensures
        exists|pre: Seq<char>| r->Ok_0@ == pre + ".build()?,).await?"@ + ".body_as::<"@ + render(arg(a, ArgKey::ResBodyTy)) + ", "@
            + render(arg(a, ArgKey::ResTy)) + ">("@ + render(arg(a, ArgKey::ResBodyTy)) + ").await?"@,
{
    let c = expansion(m, a);
    let start = "deboa::HttpClient::execute("@ + render(arg(a, ArgKey::Client)) + ", deboa::request::DeboaRequest::"@;
    let pre = start + verb(m) + "("@ + render(arg(a, ArgKey::Url)) + ")?"@ + crate::macros::headers_part(a)
        + (if uses_request_body(m) { request_body_part(a) } else { Seq::empty() });
    assert(c =~= pre + ".build()?,).await?"@ + ".body_as::<"@ + render(arg(a, ArgKey::ResBodyTy)) + ", "@
        + render(arg(a, ArgKey::ResTy)) + ">("@ + render(arg(a, ArgKey::ResBodyTy)) + ").await?"@);
}

/// Where `submit!` is given `data => d` and expands, the request is built
/// with `d` as its text body: `.text(d)` comes right before `.build()?`.
pub proof fn law_submit_text_kept(ts: Seq<Tok>, vd: VerdictsView, a: ArgsView, r: Result<String, String>)
    requires
        output_of(MacroName::Submit, ts, vd, r),
        parse_args(MacroName::Submit, ts, vd) == Ok::<ArgsView, Seq<char>>(a),
        is_given(a, ArgKey::Data),
        r is Ok,
    ensures
        exists|pre: Seq<char>| r->Ok_0@ == pre + ".text("@ + render(arg(a, ArgKey::Data)) + ")"@ + ".build()?,).await?"@,
{
    let c = expansion(MacroName::Submit, a);
    let pre = "deboa::HttpClient::execute("@ + render(arg(a, ArgKey::Client)) + ", deboa::request::DeboaRequest::"@
        + constructor_call(MacroName::Submit, a) + crate::macros::headers_part(a);
    assert(c =~= pre + ".text("@ + render(arg(a, ArgKey::Data)) + ")"@ + ".build()?,).await?"@);
}

/// Before the body, a line `name: value` that is not a request line sets
/// the header of the trimmed name (normalized) to the trimmed value, in place
/// of any earlier value, and changes nothing else.
pub proof fn law_request_header_line(st: ParseState, name: Seq<char>, value: Seq<char>)
    requires
        !st.reading_body,
        forall|i: int| 0 <= i < name.len() ==> name[i] != ':',
        request_line(name + seq![':'] + value) is None,
        crate::header::valid_name_bytes(encode_utf8(trim(name))),
        valid_value_bytes(encode_utf8(trim(value))),
    ensures
        step(st, name + seq![':'] + value) == Ok::<ParseState, ParseFailure>(ParseState {
            headers: st.headers.insert(normalize_name(encode_utf8(trim(name))), seq![encode_utf8(trim(value))]),
            ..st
        }),
{
    let line = name + seq![':'] + value;
    lemma_index_of(line, ':', 0);
    assert(line[name.len() as int] == ':');
    assert forall|i: int| 0 <= i < name.len() implies line[i] != ':' by {
        assert(line[i] == name[i]);
    }
    assert(index_of(line, ':', 0) == name.len());
    assert(line.subrange(0, name.len() as int) =~= name);
    assert(line.subrange(name.len() as int + 1, line.len() as int) =~= value);
}

} // verus!
