//! Length-prefixed text: a 32-bit little-endian byte count, then that many
//! bytes of UTF-8.

use crate::error::{DecodeError, Fault, Field};
use crate::wire::{le_u32_at, read_bytes, read_u32};
use vstd::prelude::*;
use vstd::utf8::{decode_utf8, encode_utf8, valid_utf8};

verus! {

/// What the text field that begins at `at` decodes to: the position behind
/// its last byte, and its characters.
pub open spec fn text_at(s: Seq<u8>, at: int, field: Field) -> Result<(int, Seq<char>), Fault> {
    if s.len() < at + 4 {
        Err(Fault::Incomplete)
    } else {
        let end = at + 4 + le_u32_at(s, at);
        if s.len() < end {
            Err(Fault::Incomplete)
        } else if valid_utf8(s.subrange(at + 4, end)) {
            Ok((end, decode_utf8(s.subrange(at + 4, end))))
        } else {
            Err(Fault::InvalidText { offset: at, field })
        }
    }
}

/// The number of bytes that a text field takes: the count and the text.
pub open spec fn text_len(text: Seq<char>) -> int {
    4 + encode_utf8(text).len() as int
}

/// `String::from_utf8`: the bytes become a string exactly when they are
/// well-formed UTF-8, and the string then holds the characters that they
/// encode.
#[verifier::external_body]
fn string_from_utf8(bytes: Vec<u8>) -> (r: Option<String>)
    ensures
        match r {
            Some(text) => valid_utf8(bytes@) && text@ == decode_utf8(bytes@),
            None => !valid_utf8(bytes@),
        },
{
    match String::from_utf8(bytes) {
        Ok(text) => Some(text),
        Err(_) => None,
    }
}

/// Decodes the text field that begins at `at`.
pub(crate) fn read_text(input: &[u8], at: usize, field: Field) -> (r: Result<
    (usize, String),
    DecodeError,
>)
    requires
        at <= input@.len(),
    ensures
        match r {
            Ok((end, text)) => text_at(input@, at as int, field) == Ok::<(int, Seq<char>), Fault>(
                (end as int, text@),
            ),
            Err(e) => text_at(input@, at as int, field) == Err::<(int, Seq<char>), Fault>(e@),
        },
{
    let (start, count) = match read_u32(input, at) {
        Some(prefix) => prefix,
        None => return Err(DecodeError::Incomplete),
    };
    let (end, bytes) = match read_bytes(input, start, count as usize) {
        Some(body) => body,
        None => return Err(DecodeError::Incomplete),
    };
    match string_from_utf8(bytes) {
        Some(text) => Ok((end, text)),
        None => Err(DecodeError::InvalidText { offset: at, field }),
    }
}

} // verus!
