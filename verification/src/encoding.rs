//! Base64, as the `Authorization: Basic` scheme uses it.
use vstd::prelude::*;
use base64::Engine;

verus! {

/// The character of a base64 digit (standard alphabet).
pub open spec fn b64_digit(v: int) -> char {
    if v < 26 {
        (65 + v) as char
    } else if v < 52 {
        (97 + v - 26) as char
    } else if v < 62 {
        (48 + v - 52) as char
    } else if v == 62 {
        '+'
    } else {
        '/'
    }
}

/// Standard base64 with `=` padding: every three bytes become four digits of
/// six bits each; a last group of one or two bytes is padded to four characters.
pub open spec fn base64_standard(s: Seq<u8>) -> Seq<char>
    decreases s.len(),
{
    let a = s[0] as int;
    let b = s[1] as int;
    let c = s[2] as int;
    if s.len() == 0 {
        Seq::empty()
    } else if s.len() == 1 {
        seq![b64_digit(a / 4), b64_digit((a % 4) * 16), '=', '=']
    } else if s.len() == 2 {
        seq![b64_digit(a / 4), b64_digit((a % 4) * 16 + b / 16), b64_digit((b % 16) * 4), '=']
    } else {
        seq![
            b64_digit(a / 4),
            b64_digit((a % 4) * 16 + b / 16),
            b64_digit((b % 16) * 4 + c / 64),
            b64_digit(c % 64),
        ] + base64_standard(s.skip(3))
    }
}

/// The longest input that is encoded without the output length overflowing
/// a 32-bit `usize`.
pub const MAX_BASE64_INPUT: usize = 0x3fff_ffff;

/// `base64::engine::general_purpose::STANDARD.encode`: standard alphabet,
/// with padding. It panics only where the output length overflows `usize`.
#[verifier::external_body]
pub(crate) fn base64_encode(input: &[u8]) -> (r: String)
    requires
        input@.len() <= MAX_BASE64_INPUT,
    ensures
        r@ == base64_standard(input@),
{
    base64::engine::general_purpose::STANDARD.encode(input)
}

} // verus!
