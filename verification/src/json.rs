//! JSON documents as the decoders see them.
//!
//! Parsing is done by `serde_json`; this module gives a parsed document a
//! mathematical content ([`Json`]) and offers verified readers for the members
//! of a JSON object. Everything the rest of the crate knows about
//! `serde_json` is stated in the contracts of the small trusted functions
//! below.

use vstd::prelude::*;

verus! {

/// The mathematical content of a JSON document.
///
/// A number is kept as the integer it denotes when it is an integer that fits
/// in 64 signed bits, and as `None` otherwise: the records of this crate hold
/// no other kind of number.
pub enum Json {
    Null,
    Bool(bool),
    Number(Option<i64>),
    Text(Seq<char>),
    Array(Seq<Json>),
    Object(Map<Seq<char>, Json>),
}

#[verifier::external_type_specification]
#[verifier::external_body]
pub struct ExValue(serde_json::Value);

#[verifier::external_type_specification]
#[verifier::external_body]
pub struct ExJsonError(serde_json::Error);

/// What a parsed `serde_json::Value` holds.
pub uninterp spec fn content(value: serde_json::Value) -> Json;

/// The document that `serde_json::from_str` reads from a text, or `None`
/// where it reports an error.
pub uninterp spec fn json_of_text(text: Seq<char>) -> Option<Json>;

/// The document that `serde_json::from_slice` reads from bytes, or `None`
/// where it reports an error.
pub uninterp spec fn json_of_bytes(bytes: Seq<u8>) -> Option<Json>;

/// The JSON string literal, quotes and escapes included, that `serde_json`
/// prints for a text.
pub uninterp spec fn json_literal(text: Seq<char>) -> Seq<char>;

/// The contents of a sequence of parsed values, one by one.
pub open spec fn contents(values: Seq<serde_json::Value>) -> Seq<Json> {
    values.map_values(|value: serde_json::Value| content(value))
}

/// `serde_json::from_str` at `serde_json::Value`. Trusted: it succeeds exactly
/// on the texts that `json_of_text` maps to a document, and the value it
/// returns holds that document.
#[verifier::external_body]
pub(crate) fn parse_text(text: &str) -> (r: Result<serde_json::Value, serde_json::Error>)
    ensures
        match r {
            Ok(value) => json_of_text(text@) == Some(content(value)),
            Err(_) => json_of_text(text@) is None,
        },
{
    serde_json::from_str::<serde_json::Value>(text)
}

/// `serde_json::from_slice` at `serde_json::Value`. Trusted: it succeeds
/// exactly on the bytes that `json_of_bytes` maps to a document, and the
/// value it returns holds that document.
#[verifier::external_body]
pub(crate) fn parse_bytes(bytes: &[u8]) -> (r: Result<serde_json::Value, serde_json::Error>)
    ensures
        match r {
            Ok(value) => json_of_bytes(bytes@) == Some(content(value)),
            Err(_) => json_of_bytes(bytes@) is None,
        },
{
    serde_json::from_slice::<serde_json::Value>(bytes)
}

/// `serde_json::Value::get` with a string index. Trusted: it returns the
/// member of that name when the value is an object that has one, and `None`
/// for every other value.
#[verifier::external_body]
pub(crate) fn get_member<'a>(value: &'a serde_json::Value, key: &str) -> (r: Option<
    &'a serde_json::Value,
>)
    ensures
        match r {
            Some(inner) => member(content(*value), key@) == Some(content(*inner)),
            None => member(content(*value), key@) is None,
        },
{
    value.get(key)
}

/// `serde_json::Value::as_str`. Trusted: it returns the text of a JSON
/// string and `None` for every other value.
#[verifier::external_body]
pub(crate) fn get_text<'a>(value: &'a serde_json::Value) -> (r: Option<&'a str>)
    ensures
        match r {
            Some(text) => content(*value) == Json::Text(text@),
            None => !(content(*value) is Text),
        },
{
    value.as_str()
}

/// `serde_json::Value::as_i64`. Trusted: it returns the integer of a JSON
/// number that is an integer within the range of `i64`, and `None` for every
/// other value.
#[verifier::external_body]
pub(crate) fn get_integer(value: &serde_json::Value) -> (r: Option<i64>)
    ensures
        match r {
            Some(n) => content(*value) == Json::Number(Some(n)),
            None => !(content(*value) matches Json::Number(Some(_))),
        },
{
    value.as_i64()
}

/// `serde_json::Value::as_bool`. Trusted: it returns the truth value of a
/// JSON boolean and `None` for every other value.
#[verifier::external_body]
pub(crate) fn get_flag(value: &serde_json::Value) -> (r: Option<bool>)
    ensures
        match r {
            Some(b) => content(*value) == Json::Bool(b),
            None => !(content(*value) is Bool),
        },
{
    value.as_bool()
}

/// `serde_json::Value::as_array`. Trusted: it returns the elements of a JSON
/// array, in order, and `None` for every other value.
#[verifier::external_body]
pub(crate) fn get_items<'a>(value: &'a serde_json::Value) -> (r: Option<
    &'a Vec<serde_json::Value>,
>)
    ensures
        match r {
            Some(items) => content(*value) == Json::Array(contents(items@)),
            None => !(content(*value) is Array),
        },
{
    value.as_array()
}

/// `serde_json::Value::is_null`. Trusted: it tells whether the value is the
/// JSON `null`.
#[verifier::external_body]
pub(crate) fn is_null(value: &serde_json::Value) -> (b: bool)
    ensures
        b == (content(*value) is Null),
{
    value.is_null()
}

/// Prints a text as a JSON string literal, by the `Display` impl of
/// `serde_json::Value` on `Value::String`. Trusted: the result is the literal
/// that `json_literal` names.
#[verifier::external_body]
pub(crate) fn quote(text: &str) -> (r: String)
    ensures
        r@ == json_literal(text@),
{
    serde_json::Value::from(text).to_string()
}

/// The member `key` of a JSON object; `None` for a document that is no
/// object or has no such member.
pub open spec fn member(json: Json, key: Seq<char>) -> Option<Json> {
    match json {
        Json::Object(members) => if members.contains_key(key) {
            Some(members[key])
        } else {
            None
        },
        _ => None,
    }
}

/// A member that is absent or `null` counts as not given.
pub open spec fn given(json: Json, key: Seq<char>) -> Option<Json> {
    match member(json, key) {
        Some(Json::Null) => None,
        other => other,
    }
}

/// The text of a document that is a JSON string.
pub open spec fn text_of(json: Json) -> Option<Seq<char>> {
    match json {
        Json::Text(text) => Some(text),
        _ => None,
    }
}

/// The integer of a document that is a JSON integer within `i64`.
pub open spec fn integer_of(json: Json) -> Option<i64> {
    match json {
        Json::Number(Some(n)) => Some(n),
        _ => None,
    }
}

/// The truth value of a document that is a JSON boolean.
pub open spec fn flag_of(json: Json) -> Option<bool> {
    match json {
        Json::Bool(b) => Some(b),
        _ => None,
    }
}

/// The texts of a document that is an array of JSON strings.
pub open spec fn texts_of(json: Json) -> Option<Seq<Seq<char>>> {
    match json {
        Json::Array(items) => if forall|i: int| 0 <= i < items.len() ==> #[trigger] items[i] is Text {
            Some(Seq::new(items.len(), |i: int| items[i]->Text_0))
        } else {
            None
        },
        _ => None,
    }
}

/// The integers of a document that is an array of JSON integers within `i64`.
pub open spec fn integers_of(json: Json) -> Option<Seq<i64>> {
    match json {
        Json::Array(items) => if forall|i: int|
            0 <= i < items.len() ==> integer_of(#[trigger] items[i]) is Some {
            Some(Seq::new(items.len(), |i: int| integer_of(items[i])->Some_0))
        } else {
            None
        },
        _ => None,
    }
}

/// A required member, read by `read`: `None` when the member is missing or
/// `read` rejects it.
pub open spec fn required<A>(json: Json, key: Seq<char>, read: spec_fn(Json) -> Option<A>) -> Option<
    A,
> {
    match member(json, key) {
        Some(inner) => read(inner),
        None => None,
    }
}

/// An optional member, read by `read`: `Some(None)` when the member is
/// absent or `null`, `Some(Some(a))` when `read` accepts it, and `None` when
/// it is present and `read` rejects it.
pub open spec fn optional<A>(json: Json, key: Seq<char>, read: spec_fn(Json) -> Option<A>) -> Option<
    Option<A>,
> {
    match given(json, key) {
        Some(inner) => match read(inner) {
            Some(a) => Some(Some(a)),
            None => None,
        },
        None => Some(None),
    }
}

/// The views of a vector of strings.
pub open spec fn text_views(texts: Seq<String>) -> Seq<Seq<char>> {
    texts.map_values(|text: String| text@)
}

/// Reads an array of JSON strings.
pub fn read_texts(value: &serde_json::Value) -> (r: Option<Vec<String>>)
    ensures
        match r {
            Some(texts) => texts_of(content(*value)) == Some(text_views(texts@)),
            None => texts_of(content(*value)) is None,
        },
{
    let items = match get_items(value) {
        Some(items) => items,
        None => {
            return None;
        },
    };
    let ghost models = contents(items@);
    let mut texts: Vec<String> = Vec::new();
    let mut i: usize = 0;
    while i < items.len()
        invariant
            0 <= i <= items.len(),
            models == contents(items@),
            content(*value) == Json::Array(models),
            texts@.len() == i,
            forall|k: int| 0 <= k < i ==> #[trigger] models[k] == Json::Text(texts@[k]@),
        decreases items.len() - i,
    {
        match get_text(&items[i]) {
            Some(text) => {
                texts.push(text.to_owned());
            },
            None => {
                assert(!(models[i as int] is Text));
                return None;
            },
        }
        i += 1;
    }
    assert(texts_of(content(*value))->Some_0 =~= text_views(texts@));
    Some(texts)
}

/// Reads an array of JSON integers that fit in `i64`.
pub fn read_integers(value: &serde_json::Value) -> (r: Option<Vec<i64>>)
    ensures
        match r {
            Some(numbers) => integers_of(content(*value)) == Some(numbers@),
            None => integers_of(content(*value)) is None,
        },
{
    let items = match get_items(value) {
        Some(items) => items,
        None => {
            return None;
        },
    };
    let ghost models = contents(items@);
    let mut numbers: Vec<i64> = Vec::new();
    let mut i: usize = 0;
    while i < items.len()
        invariant
            0 <= i <= items.len(),
            models == contents(items@),
            content(*value) == Json::Array(models),
            numbers@.len() == i,
            forall|k: int| 0 <= k < i ==> integer_of(#[trigger] models[k]) == Some(numbers@[k]),
        decreases items.len() - i,
    {
        match get_integer(&items[i]) {
            Some(n) => {
                numbers.push(n);
            },
            None => {
                assert(integer_of(models[i as int]) is None);
                return None;
            },
        }
        i += 1;
    }
    assert(integers_of(content(*value))->Some_0 =~= numbers@);
    Some(numbers)
}

/// Looks up a member that counts as given: present and not `null`.
pub fn find_given<'a>(record: &'a serde_json::Value, key: &str) -> (r: Option<
    &'a serde_json::Value,
>)
    ensures
        match r {
            Some(inner) => given(content(*record), key@) == Some(content(*inner)),
            None => given(content(*record), key@) is None,
        },
{
    match get_member(record, key) {
        Some(inner) => if is_null(inner) {
            None
        } else {
            Some(inner)
        },
        None => None,
    }
}

/// Reads a required text member.
pub fn required_text(record: &serde_json::Value, key: &str) -> (r: Option<String>)
    ensures
        match r {
            Some(text) => required(content(*record), key@, |j: Json| text_of(j)) == Some(text@),
            None => required(content(*record), key@, |j: Json| text_of(j)) is None,
        },
{
    match get_member(record, key) {
        Some(inner) => match get_text(inner) {
            Some(text) => Some(text.to_owned()),
            None => None,
        },
        None => None,
    }
}

/// Reads a required integer member.
pub fn required_integer(record: &serde_json::Value, key: &str) -> (r: Option<i64>)
    ensures
        r == required(content(*record), key@, |j: Json| integer_of(j)),
{
    match get_member(record, key) {
        Some(inner) => get_integer(inner),
        None => None,
    }
}

/// Reads a required boolean member.
pub fn required_flag(record: &serde_json::Value, key: &str) -> (r: Option<bool>)
    ensures
        r == required(content(*record), key@, |j: Json| flag_of(j)),
{
    match get_member(record, key) {
        Some(inner) => get_flag(inner),
        None => None,
    }
}

/// Reads a required member that is an array of texts.
pub fn required_texts(record: &serde_json::Value, key: &str) -> (r: Option<Vec<String>>)
    ensures
        match r {
            Some(texts) => required(content(*record), key@, |j: Json| texts_of(j)) == Some(
                text_views(texts@),
            ),
            None => required(content(*record), key@, |j: Json| texts_of(j)) is None,
        },
{
    match get_member(record, key) {
        Some(inner) => read_texts(inner),
        None => None,
    }
}

/// Reads an optional text member. The outer `None` reports a member that is
/// given and is no text.
pub fn optional_text(record: &serde_json::Value, key: &str) -> (r: Option<Option<String>>)
    ensures
        match r {
            Some(Some(text)) => optional(content(*record), key@, |j: Json| text_of(j)) == Some(
                Some(text@),
            ),
            Some(None) => optional(content(*record), key@, |j: Json| text_of(j)) == Some(
                None::<Seq<char>>,
            ),
            None => optional(content(*record), key@, |j: Json| text_of(j)) is None,
        },
{
    match find_given(record, key) {
        Some(inner) => match get_text(inner) {
            Some(text) => Some(Some(text.to_owned())),
            None => None,
        },
        None => Some(None),
    }
}

/// Reads an optional integer member. The outer `None` reports a member that
/// is given and is no integer within `i64`.
pub fn optional_integer(record: &serde_json::Value, key: &str) -> (r: Option<Option<i64>>)
    ensures
        r == optional(content(*record), key@, |j: Json| integer_of(j)),
{
    match find_given(record, key) {
        Some(inner) => match get_integer(inner) {
            Some(n) => Some(Some(n)),
            None => None,
        },
        None => Some(None),
    }
}

/// Reads an optional member that is an array of integers.
pub fn optional_integers(record: &serde_json::Value, key: &str) -> (r: Option<Option<Vec<i64>>>)
    ensures
        match r {
            Some(Some(numbers)) => optional(content(*record), key@, |j: Json| integers_of(j))
                == Some(Some(numbers@)),
            Some(None) => optional(content(*record), key@, |j: Json| integers_of(j)) == Some(
                None::<Seq<i64>>,
            ),
            None => optional(content(*record), key@, |j: Json| integers_of(j)) is None,
        },
{
    match find_given(record, key) {
        Some(inner) => match read_integers(inner) {
            Some(numbers) => Some(Some(numbers)),
            None => None,
        },
        None => Some(None),
    }
}

/// Reads an optional member that is an array of texts.
pub fn optional_texts(record: &serde_json::Value, key: &str) -> (r: Option<Option<Vec<String>>>)
    ensures
        match r {
            Some(Some(texts)) => optional(content(*record), key@, |j: Json| texts_of(j)) == Some(
                Some(text_views(texts@)),
            ),
            Some(None) => optional(content(*record), key@, |j: Json| texts_of(j)) == Some(
                None::<Seq<Seq<char>>>,
            ),
            None => optional(content(*record), key@, |j: Json| texts_of(j)) is None,
        },
{
    match find_given(record, key) {
        Some(inner) => match read_texts(inner) {
            Some(texts) => Some(Some(texts)),
            None => None,
        },
        None => Some(None),
    }
}

} // verus!
