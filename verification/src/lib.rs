//! A SAORI module: the protocol engine that turns a host's request text into
//! a response text, and the byte-level entry that carries both in Shift_JIS.
//!
//! - [`saori`] is the engine: it parses a request text, answers the request
//!   and writes the answer out. It works on text alone.
//! - [`codec`] converts between that text and the bytes of the host.
//! - [`text`] holds what both share: lines, prefixes and decimal numerals.
//!
//! [`request`] puts them together for a host that speaks in bytes.

use vstd::prelude::*;
use vstd::utf8::{encode_utf8, is_ascii_chars_encode_utf8};

pub mod codec;
pub mod saori;
pub mod text;

verus! {

/// The bytes that answer the request bytes `input`: the request decoded,
/// answered by [`saori::request`], and the answer encoded, with a zero byte
/// at the end.
pub open spec fn reply_bytes(input: Seq<u8>) -> Seq<u8> {
    codec::shift_jis_encoded(saori::reply(codec::shift_jis_decoded(input))).push(0u8)
}

/// The bytes that answer a request made of ASCII alone: the request and
/// the answer stay as they are, code for character.
pub open spec fn ascii_reply_bytes(input: Seq<u8>) -> Seq<u8> {
    codec::ascii_codes(saori::reply(codec::ascii_text(input))).push(0u8)
}

/// Both the request bytes `input` and the text that answers them are of a
/// length that can be converted.
pub open spec fn answerable(input: Seq<u8>) -> bool {
    &&& codec::convertible(input.len())
    &&& codec::convertible(encode_utf8(saori::reply(codec::shift_jis_decoded(input))).len())
}

/// Answers a request as the host hands it over, in bytes.
///
/// `None` says that the request, or the answer to it, is too long to
/// convert. A request in ASCII is answered in ASCII, and is answered in any
/// case where there is room for [`saori::REPLY_OVERHEAD`] characters more.
pub fn request(input: &[u8]) -> (output: Option<Vec<u8>>)
    ensures
        match output {
            Some(bytes) => answerable(input@) && bytes@ == reply_bytes(input@),
            None => !answerable(input@),
        },
        codec::is_ascii_bytes(input@) ==> match output {
            Some(bytes) => bytes@ == ascii_reply_bytes(input@),
            None => !codec::convertible(input@.len() + saori::REPLY_OVERHEAD as nat),
        },
{
    match codec::decode_request(input) {
        Some(text) => {
            let answer = saori::request(text.as_str());
            proof {
                if codec::is_ascii_bytes(input@) {
                    saori::laws::lemma_reply_is_bounded(text@);
                    is_ascii_chars_encode_utf8(answer@);
                }
            }
            codec::encode_response(answer.as_str())
        },
        None => None,
    }
}

} // verus!
