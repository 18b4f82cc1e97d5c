//! Building `String`s out of ASCII bytes.

use vstd::prelude::*;

verus! {

/// The characters that a sequence of ASCII bytes spells.
pub open spec fn chars_of_bytes(bytes: Seq<u8>) -> Seq<char> {
    bytes.map_values(|b: u8| b as char)
}

/// Every byte of the sequence is ASCII.
pub open spec fn all_ascii(bytes: Seq<u8>) -> bool {
    forall|i: int| 0 <= i < bytes.len() ==> bytes[i] < 128
}

/// Relies on `String::from_utf8`: bytes below 128 decode to one character
/// each, in order and unchanged.
#[verifier::external_body]
pub fn ascii_string(bytes: &Vec<u8>) -> (r: String)
    requires
        all_ascii(bytes@),
    ensures
        r@ == chars_of_bytes(bytes@),
{
    String::from_utf8(bytes.clone()).unwrap_or_default()
}

} // verus!
