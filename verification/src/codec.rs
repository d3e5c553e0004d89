//! Shift_JIS, the encoding in which the host sends its request and expects
//! the response.
//!
//! The conversion itself is the work of the `encoding_rs` crate. What it
//! computes is named here, not spelled out: the two names below stand for
//! its results. All that is said of them beyond that is what becomes of
//! ASCII, which both conversions hand through as it is.

use vstd::prelude::*;
use vstd::utf8::{encode_utf8, is_ascii_chars};

verus! {

/// The text that `encoding_rs::SHIFT_JIS.decode` makes of `bytes`.
pub uninterp spec fn shift_jis_decoded(bytes: Seq<u8>) -> Seq<char>;

/// The bytes that `encoding_rs::SHIFT_JIS.encode` makes of `text`.
pub uninterp spec fn shift_jis_encoded(text: Seq<char>) -> Seq<u8>;

/// A length, in bytes, that the conversions take. They size their buffers
/// as a small multiple of the input's length, at most twelve times, and
/// give up where such a size cannot be had; under this bound it always can.
pub open spec fn convertible(len: nat) -> bool {
    len <= usize::MAX / 32
}

/// Every byte is an ASCII code.
pub open spec fn is_ascii_bytes(bytes: Seq<u8>) -> bool {
    forall|i: int| 0 <= i < bytes.len() ==> #[trigger] bytes[i] <= 0x7f
}

/// The text whose characters have the codes `bytes`, one for one.
pub open spec fn ascii_text(bytes: Seq<u8>) -> Seq<char> {
    Seq::new(bytes.len(), |i: int| bytes[i] as char)
}

/// The codes of the characters of `text`, one for one.
pub open spec fn ascii_codes(text: Seq<char>) -> Seq<u8> {
    Seq::new(text.len(), |i: int| text[i] as u8)
}

/// Calls `encoding_rs::SHIFT_JIS.decode`, an `Encoding::decode`, and keeps
/// the text it returns. The contract claims that this text depends on the
/// bytes alone, and that bytes which are all ASCII come back as the text
/// with those codes: there the call finds no byte order mark and borrows
/// its input. The call panics where it cannot size its buffer, which the
/// bound on the length rules out.
#[verifier::external_body]
fn decode(bytes: &[u8]) -> (text: String)
    requires
        convertible(bytes@.len()),
    ensures
        text@ == shift_jis_decoded(bytes@),
        is_ascii_bytes(bytes@) ==> text@ == ascii_text(bytes@),
{
    encoding_rs::SHIFT_JIS.decode(bytes).0.into_owned()
}

/// Calls `encoding_rs::SHIFT_JIS.encode`, an `Encoding::encode`, and keeps
/// the bytes it returns. The contract claims that these bytes depend on the
/// text alone, and that a text which is all ASCII comes back as the codes
/// of its characters: there the call borrows its input. The call panics
/// where it cannot size its buffer, which the bound on the length of the
/// text in UTF-8 rules out.
#[verifier::external_body]
fn encode(text: &str) -> (bytes: Vec<u8>)
    requires
        convertible(encode_utf8(text@).len()),
    ensures
        bytes@ == shift_jis_encoded(text@),
        is_ascii_chars(text@) ==> bytes@ == ascii_codes(text@),
{
    encoding_rs::SHIFT_JIS.encode(text).0.into_owned()
}

/// Decodes the bytes of a request. `None` says that they are too many to
/// convert.
pub fn decode_request(bytes: &[u8]) -> (text: Option<String>)
    ensures
        match text {
            Some(text) => {
                &&& convertible(bytes@.len())
                &&& text@ == shift_jis_decoded(bytes@)
                &&& is_ascii_bytes(bytes@) ==> text@ == ascii_text(bytes@)
            },
            None => !convertible(bytes@.len()),
        },
{
    if bytes.len() <= usize::MAX / 32 {
        Some(decode(bytes))
    } else {
        None
    }
}

/// Encodes a response for the host: the bytes of the text, and a zero byte
/// that ends them. `None` says that the text is too long to convert.
pub fn encode_response(text: &str) -> (bytes: Option<Vec<u8>>)
    ensures
        match bytes {
            Some(bytes) => {
                &&& convertible(encode_utf8(text@).len())
                &&& bytes@ == shift_jis_encoded(text@).push(0u8)
                &&& is_ascii_chars(text@) ==> bytes@ == ascii_codes(text@).push(0u8)
            },
            None => !convertible(encode_utf8(text@).len()),
        },
{
    if text.as_bytes().len() <= usize::MAX / 32 {
        let mut bytes = encode(text);
        bytes.push(0u8);
        Some(bytes)
    } else {
        None
    }
}

} // verus!
