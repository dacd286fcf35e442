//! UTF-8 text from and to bytes.
use vstd::prelude::*;
use vstd::utf8::*;
use vstd::slice::slice_to_vec;

verus! {

/// Calls `std::str::from_utf8`, which accepts exactly the valid UTF-8 byte sequences;
/// the string it gives holds the characters those bytes encode. Trusted, not proved.
#[verifier::external_body]
pub(crate) fn utf8_to_string(bytes: &[u8]) -> (r: Option<String>)
    ensures
        r is Some <==> valid_utf8(bytes@),
        r matches Some(s) ==> s@ == decode_utf8(bytes@),
{
    match std::str::from_utf8(bytes) {
        Ok(s) => Some(s.to_string()),
        Err(_) => None,
    }
}

/// The UTF-8 bytes of `s`.
pub fn string_bytes(s: &String) -> (r: Vec<u8>)
    ensures
        r@ == encode_utf8(s@),
{
    slice_to_vec(s.as_str().as_bytes())
}

/// The number of characters of `s`.
pub fn char_count(s: &String) -> (r: usize)
    ensures
        r == s@.len(),
{
    s.as_str().unicode_len()
}

} // verus!
