//! Decoding of response bytes into typed records.

use crate::json::{content, given, json_of_text, parse_text, Json};
use vstd::prelude::*;
use vstd::utf8::{decode_utf8, valid_utf8};

verus! {

/// Why a byte string is no record.
#[derive(Clone, Copy, Debug, PartialEq, Eq, Structural)]
pub enum DecodeError {
    /// The bytes are no JSON document.
    Syntax,
    /// The bytes are a JSON document of another shape than the record's.
    Schema,
}

/// The text that std's lossy UTF-8 decoding makes of bytes that are not
/// valid UTF-8.
pub uninterp spec fn repaired_text(bytes: Seq<u8>) -> Seq<char>;

/// The text of a byte string: what it encodes where it is valid UTF-8, and
/// otherwise what lossy decoding makes of it.
pub open spec fn lossy_text(bytes: Seq<u8>) -> Seq<char> {
    if valid_utf8(bytes) {
        decode_utf8(bytes)
    } else {
        repaired_text(bytes)
    }
}

/// `String::from_utf8_lossy`, made an owned `String`. Trusted: valid UTF-8
/// is decoded as it stands, and for other bytes the result is the text that
/// `repaired_text` names.
#[verifier::external_body]
pub(crate) fn decode_lossy(bytes: &[u8]) -> (text: String)
    ensures
        text@ == if valid_utf8(bytes@) {
            decode_utf8(bytes@)
        } else {
            repaired_text(bytes@)
        },
{
    String::from_utf8_lossy(bytes).into_owned()
}

/// A typed record that the server sends as a JSON object.
pub trait Record: View + Sized {
    /// The record that a JSON document denotes, if it denotes one.
    spec fn of_json(json: Json) -> Option<Self::V>;

    /// Whether a record is the last one of its stream.
    spec fn terminal(record: Self::V) -> bool;

    /// Reads the record from a parsed document.
    fn from_json(value: &serde_json::Value) -> (r: Option<Self>)
        ensures
            match r {
                Some(record) => Self::of_json(content(*value)) == Some(record@),
                None => Self::of_json(content(*value)) is None,
            },
    ;

    /// Tells whether the record is the last one of its stream.
    fn is_terminal(&self) -> (b: bool)
        ensures
            b == Self::terminal(self@),
    ;
}

/// Whether a document gives one of the numeric counters that the server
/// sends with the last record of a stream.
pub open spec fn gives_counters(json: Json) -> bool {
    ||| given(json, "total_duration"@) is Some
    ||| given(json, "load_duration"@) is Some
    ||| given(json, "prompt_eval_count"@) is Some
    ||| given(json, "prompt_eval_duration"@) is Some
    ||| given(json, "eval_count"@) is Some
    ||| given(json, "eval_duration"@) is Some
}

/// A decoded item, by the view of its record.
pub open spec fn item_view<T: Record>(item: Result<T, DecodeError>) -> Result<T::V, DecodeError> {
    match item {
        Ok(record) => Ok(record@),
        Err(error) => Err(error),
    }
}

/// The views of a sequence of decoded items.
pub open spec fn item_views<T: Record>(items: Seq<Result<T, DecodeError>>) -> Seq<
    Result<T::V, DecodeError>,
> {
    items.map_values(|item: Result<T, DecodeError>| item_view(item))
}

/// What a parsed document, or the lack of one, decodes to.
pub open spec fn record_of_json<T: Record>(json: Option<Json>) -> Result<T::V, DecodeError> {
    match json {
        None => Err(DecodeError::Syntax),
        Some(json) => match T::of_json(json) {
            Some(record) => Ok(record),
            None => Err(DecodeError::Schema),
        },
    }
}

/// What a record's text decodes to.
pub open spec fn record_of_text<T: Record>(text: Seq<char>) -> Result<T::V, DecodeError> {
    record_of_json::<T>(json_of_text(text))
}

/// Decodes the outcome of parsing a record's text: the record, `Schema`
/// where the document has another shape, `Syntax` where there is no
/// document.
pub fn decode_parsed<T: Record>(parsed: Result<serde_json::Value, serde_json::Error>) -> (r: Result<
    T,
    DecodeError,
>)
    ensures
        item_view(r) == record_of_json::<T>(
            match parsed {
                Ok(value) => Some(content(value)),
                Err(_) => None,
            },
        ),
{
    match parsed {
        Ok(value) => match T::from_json(&value) {
            Some(record) => Ok(record),
            None => Err(DecodeError::Schema),
        },
        Err(_) => Err(DecodeError::Syntax),
    }
}

/// Decodes the text of one record.
pub fn decode_text<T: Record>(text: &str) -> (r: Result<T, DecodeError>)
    ensures
        item_view(r) == record_of_text::<T>(text@),
{
    decode_parsed(parse_text(text))
}

/// What the bytes of one record decode to.
pub open spec fn record_of_line<T: Record>(line: Seq<u8>) -> Result<T::V, DecodeError> {
    record_of_text::<T>(lossy_text(line))
}

/// Decodes the bytes of one record.
pub fn decode_line<T: Record>(line: &[u8]) -> (r: Result<T, DecodeError>)
    ensures
        item_view(r) == record_of_line::<T>(line@),
{
    let text = decode_lossy(line);
    decode_text(text.as_str())
}

} // verus!
