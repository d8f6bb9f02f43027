//! Text decoding shared by the manifest reader and the BLE scanner.
use vstd::prelude::*;

verus! {

/// What `String::from_utf8_lossy` makes of a byte sequence.
pub uninterp spec fn utf8_lossy(bytes: Seq<u8>) -> Seq<char>;

/// The chars of a byte sequence that is all ASCII.
pub open spec fn ascii_chars(bytes: Seq<u8>) -> Seq<char> {
    bytes.map_values(|b: u8| b as char)
}

/// Calls `String::from_utf8_lossy` and takes ownership of the result.
/// Trusted: the result is the name `utf8_lossy` of the bytes and, as the
/// std documentation states for valid UTF-8 input, all-ASCII bytes decode
/// to the same characters. What it makes of other byte sequences (U+FFFD
/// replacement) is left to the name.
#[verifier::external_body]
pub(crate) fn string_from_utf8_lossy(bytes: &[u8]) -> (s: String)
    ensures
        s@ == utf8_lossy(bytes@),
        (forall|i: int| 0 <= i < bytes@.len() ==> bytes@[i] < 128) ==> s@ == ascii_chars(bytes@),
{
    String::from_utf8_lossy(bytes).into_owned()
}

} // verus!
