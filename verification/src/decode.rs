//! From the markup of an editor pane back to the source text.

use vstd::prelude::*;
use vstd::utf8::{decode_utf8, encode_utf8, valid_utf8};
use crate::failure::Failure;

verus! {

/// The bytes that `marksman_escape::Unescape` yields for the bytes of a text
/// in which characters are written as HTML character references.
pub uninterp spec fn unescaped(bytes: Seq<u8>) -> Seq<u8>;

/// The text that a sequence of bytes encodes, where it encodes one.
pub open spec fn text_of_bytes(bytes: Seq<u8>) -> Option<Seq<char>> {
    if valid_utf8(bytes) {
        Some(decode_utf8(bytes))
    } else {
        None
    }
}

/// The source text that a piece of markup stands for: its character
/// references replaced by the characters that they name.
pub open spec fn decoded(markup: Seq<char>) -> Option<Seq<char>> {
    text_of_bytes(unescaped(encode_utf8(markup)))
}

/// Runs `marksman_escape::Unescape` over the bytes and collects what it
/// yields. The bytes that come back depend on the bytes given alone.
#[verifier::external_body]
fn unescape(bytes: Vec<u8>) -> (plain: Vec<u8>)
    ensures
        plain@ == unescaped(bytes@),
{
    marksman_escape::Unescape::new(bytes.into_iter()).collect()
}

/// Calls `String::from_utf8`, which accepts the bytes exactly when they are
/// well-formed UTF-8 and then gives the string that has them as its bytes.
#[verifier::external_body]
fn string_from_utf8(bytes: Vec<u8>) -> (text: Option<String>)
    ensures
        text is Some <==> valid_utf8(bytes@),
        text is Some ==> encode_utf8(text->0@) == bytes@,
{
    match String::from_utf8(bytes) {
        Ok(text) => Some(text),
        Err(_) => None,
    }
}

/// The text that `bytes` encodes; `Failure::Shape` where they encode none.
pub fn text_from_bytes(bytes: Vec<u8>) -> (text: Result<String, Failure>)
    ensures
        match text {
            Ok(text) => text_of_bytes(bytes@) == Some(text@),
            Err(failure) => failure == Failure::Shape && text_of_bytes(bytes@) is None,
        },
{
    match string_from_utf8(bytes) {
        Some(text) => {
            proof {
                vstd::utf8::encode_utf8_decode_utf8(text@);
            }
            Ok(text)
        },
        None => Err(Failure::Shape),
    }
}

/// The source text that `markup` stands for; `Failure::Shape` where what is
/// left after the character references are replaced is no text.
pub fn decode_entities(markup: &str) -> (text: Result<String, Failure>)
    ensures
        match text {
            Ok(text) => decoded(markup@) == Some(text@),
            Err(failure) => failure == Failure::Shape && decoded(markup@) is None,
        },
{
    text_from_bytes(unescape(markup.as_bytes_vec()))
}

} // verus!
