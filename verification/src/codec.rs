use vstd::prelude::*;

verus! {

/// Every byte fits in 7 bits.
pub open spec fn all_7bit(d: Seq<u8>) -> bool {
    forall|i: int| 0 <= i < d.len() ==> d[i] < 128
}

/// The characters that a 7-bit byte sequence denotes.
pub open spec fn ascii_chars_of(d: Seq<u8>) -> Seq<char> {
    d.map_values(|b: u8| b as char)
}

/// An ASCII letter or digit.
pub open spec fn is_alnum_char(c: char) -> bool {
    ('a' <= c && c <= 'z') || ('A' <= c && c <= 'Z') || ('0' <= c && c <= '9')
}

/// Every character is an ASCII letter or digit.
pub open spec fn is_alnum_seq(s: Seq<char>) -> bool {
    forall|i: int| 0 <= i < s.len() ==> is_alnum_char(s[i])
}

/// A character of the standard base64 output alphabet, padding included.
pub open spec fn is_base64_char(c: char) -> bool {
    is_alnum_char(c) || c == '+' || c == '/' || c == '='
}

/// An ASCII character that lowercasing leaves in place.
pub open spec fn ascii_no_upper(c: char) -> bool {
    c < 128 as char && !('A' <= c && c <= 'Z')
}

/// The standard, padded base64 text of a byte sequence, as base64's
/// `STANDARD` engine produces it.
pub uninterp spec fn base64_of(d: Seq<u8>) -> Seq<char>;

/// The bytes that a character sequence decodes to under the same standard
/// base64 engine, when it is valid base64 text.
pub uninterp spec fn base64_decode_of(s: Seq<char>) -> Option<Seq<u8>>;

/// The Unicode lowercase text of a character sequence, as
/// `str::to_lowercase` computes it.
pub uninterp spec fn lower_of(s: Seq<char>) -> Seq<char>;

/// Whether every byte is 7-bit.
pub fn check_7bit(d: &Vec<u8>) -> (r: bool)
    ensures
        r == all_7bit(d@),
{
    let n = d.len();
    let mut i: usize = 0;
    while i < n
        invariant
            n == d@.len(),
            i <= n,
            forall|j: int| 0 <= j < i ==> d@[j] < 128,
        decreases n - i,
    {
        if d[i] >= 128 {
            return false;
        }
        i += 1;
    }
    true
}

/// Relies on `String::from_utf8`: 7-bit bytes are single-byte UTF-8
/// sequences, so the string's characters are exactly the bytes' values.
#[verifier::external_body]
pub(crate) fn ascii_string_of(d: &Vec<u8>) -> (r: String)
    requires
        all_7bit(d@),
    ensures
        r@ == ascii_chars_of(d@),
{
    String::from_utf8(d.clone()).unwrap()
}

/// Relies on base64's `STANDARD` engine (`Engine::encode`): padded base64
/// text of the input; decoding that text with the same engine yields the
/// input bytes again; the output's length and alphabet are as RFC 4648
/// fixes them. The engine's only panic is an overflow computing the output
/// length, which needs an input over a quarter of `usize::MAX`; a slice
/// never exceeds `isize::MAX` bytes, so no input reaches it.
#[verifier::external_body]
pub(crate) fn base64_encode(d: &Vec<u8>) -> (r: String)
    ensures
        r@ == base64_of(d@),
        base64_decode_of(r@) == Some(d@),
        r@.len() == 4 * ((d@.len() + 2) / 3),
        forall|i: int| 0 <= i < r@.len() ==> is_base64_char(r@[i]),
{
    base64::Engine::encode(&base64::engine::general_purpose::STANDARD, d.as_slice())
}

/// Relies on `str::to_lowercase`: the result is a function of the
/// characters alone, and a string whose characters all lack an uppercase
/// form (here: ASCII without `A`-`Z`) comes back unchanged.
#[verifier::external_body]
pub(crate) fn lowercase(s: &str) -> (r: String)
    ensures
        r@ == lower_of(s@),
        (forall|i: int| 0 <= i < s@.len() ==> ascii_no_upper(s@[i])) ==> r@ == s@,
{
    s.to_lowercase()
}

} // verus!
