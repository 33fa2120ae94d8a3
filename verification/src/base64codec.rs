//! Base64 text of bytes.

use vstd::prelude::*;

verus! {

/// The Base64 digit of a value below sixty-four.
pub open spec fn base64_digit(n: int) -> char {
    if n < 26 {
        (65 + n) as char
    } else if n < 52 {
        (71 + n) as char
    } else if n < 62 {
        (n - 4) as char
    } else if n == 62 {
        '+'
    } else {
        '/'
    }
}

/// The byte at a place, or zero behind the end.
pub open spec fn byte_or_zero(b: Seq<u8>, i: int) -> int {
    if i < b.len() {
        b[i] as int
    } else {
        0
    }
}

/// The standard Base64 text of some bytes: four digits for each three bytes,
/// most significant first, with `=` for the digits that only hold what is behind
/// the end.
pub open spec fn base64_of(b: Seq<u8>) -> Seq<char> {
    Seq::new(
        ((b.len() + 2) / 3 * 4) as nat,
        |i: int|
            {
                let at = i / 4 * 3;
                let three = byte_or_zero(b, at) * 65536 + byte_or_zero(b, at + 1) * 256
                    + byte_or_zero(b, at + 2);
                if i % 4 == 0 {
                    base64_digit(three / 262144)
                } else if i % 4 == 1 {
                    base64_digit(three / 4096 % 64)
                } else if i % 4 == 2 {
                    if at + 1 < b.len() {
                        base64_digit(three / 64 % 64)
                    } else {
                        '='
                    }
                } else {
                    if at + 2 < b.len() {
                        base64_digit(three % 64)
                    } else {
                        '='
                    }
                }
            },
    )
}

/// `base64`'s `STANDARD.encode`: the Base64 text of the bytes, in the standard
/// alphabet and with padding.
#[verifier::external_body]
pub(crate) fn encode(bytes: &[u8]) -> (r: String)
    ensures
        r@ == base64_of(bytes@),
{
    base64::Engine::encode(&base64::engine::general_purpose::STANDARD, bytes)
}

} // verus!
