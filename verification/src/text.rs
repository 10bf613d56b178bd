//! The text view of looked-up content: bytes are handed back as text
//! exactly when they are valid UTF-8; anything else is absent, never an
//! error.

use vstd::prelude::*;
use vstd::utf8::decode_utf8;
use vstd::utf8::valid_utf8;

verus! {

/// What the text operation yields for one lookup outcome: the decoded
/// characters when the content is present and valid UTF-8, absent when the
/// content is absent or not valid UTF-8.
pub open spec fn spec_text_of(content: Option<Seq<u8>>) -> Option<Seq<char>> {
    match content {
        Some(bytes) => if valid_utf8(bytes) {
            Some(decode_utf8(bytes))
        } else {
            None
        },
        None => None,
    }
}

/// Relies on std::str::from_utf8: it accepts exactly the valid UTF-8 byte
/// sequences, and the accepted text decodes to the characters the bytes
/// encode.
#[verifier::external_body]
pub(crate) fn decode_text(bytes: &Vec<u8>) -> (r: Option<String>)
    ensures
        r is Some <==> valid_utf8(bytes@),
        r matches Some(text) ==> text@ == decode_utf8(bytes@),
{
    std::str::from_utf8(bytes.as_slice()).ok().map(|text| text.to_string())
}

} // verus!
