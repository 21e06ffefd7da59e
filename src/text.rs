//! ASCII text, as bytes and as strings.

use vstd::prelude::*;
use vstd::utf8::{encode_utf8, is_ascii_chars, is_ascii_chars_encode_utf8};

verus! {

pub open spec fn is_ascii_bytes(b: Seq<u8>) -> bool {
    forall|i: int| 0 <= i < b.len() ==> #[trigger] b[i] < 128
}

/// The characters that ASCII bytes spell, one for each byte.
pub open spec fn ascii_text(b: Seq<u8>) -> Seq<char> {
    b.map_values(|c: u8| c as char)
}

/// Relies on `String::from_utf8`: ASCII bytes are valid UTF-8 and decode to one
/// character each, so the call succeeds and keeps every byte as a character.
#[verifier::external_body]
pub(crate) fn string_from_ascii(b: Vec<u8>) -> (r: String)
    requires
        is_ascii_bytes(b@),
    ensures
        r@ == ascii_text(b@),
{
    match String::from_utf8(b) {
        Ok(s) => s,
        Err(_) => String::new(),
    }
}


/// The UTF-8 bytes of ASCII text are the bytes it was made from.
pub proof fn lemma_ascii_text_bytes(b: Seq<u8>)
    requires
        is_ascii_bytes(b),
    ensures
        encode_utf8(ascii_text(b)) == b,
{
    let c = ascii_text(b);
    assert(is_ascii_chars(c));
    is_ascii_chars_encode_utf8(c);
    assert(encode_utf8(c) =~= b);
}

} // verus!
