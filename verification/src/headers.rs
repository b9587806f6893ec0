//! HTTP header maps: what they hold, and the operations the gateway uses.

use http::HeaderMap;
use vstd::prelude::*;
use vstd::utf8::encode_utf8;

use crate::text::texts;
use crate::tokens::{is_token_byte, lower};

verus! {

/// A header value: its bytes, and whether it is marked as sensitive.
pub type Field = (Seq<u8>, bool);

/// What a header map holds: for each header name, in lower case, its values in
/// the order in which they were added.
pub type Contents = Map<Seq<char>, Seq<(Seq<u8>, bool)>>;

/// Declares `http::HeaderMap`.
#[verifier::external_type_specification]
#[verifier::external_body]
#[verifier::reject_recursive_types(T)]
pub struct ExHeaderMap<T>(http::HeaderMap<T>);

/// Declares `http::HeaderValue`, the value type of a header map.
#[verifier::external_type_specification]
#[verifier::external_body]
pub struct ExHeaderValue(http::HeaderValue);

/// What the header map `headers` holds.
pub uninterp spec fn header_contents(headers: http::HeaderMap) -> Map<
    Seq<char>,
    Seq<(Seq<u8>, bool)>,
>;

/// The values under `name`, none when there is no such header.
pub open spec fn fields(contents: Contents, name: Seq<char>) -> Seq<Field> {
    if contents.contains_key(name) {
        contents[name]
    } else {
        Seq::empty()
    }
}

/// The bytes of the values under `name`.
pub open spec fn values(contents: Contents, name: Seq<char>) -> Seq<Seq<u8>> {
    Seq::new(fields(contents, name).len(), |i: int| fields(contents, name)[i].0)
}

/// The first value under `name`.
pub open spec fn first_field(contents: Contents, name: Seq<char>) -> Option<Field> {
    if contents.contains_key(name) {
        Some(contents[name].first())
    } else {
        None
    }
}

/// `contents` with the one value `field` under `name`, whatever was there.
pub open spec fn with_field(contents: Contents, name: Seq<char>, field: Field) -> Contents {
    contents.insert(name, seq![field])
}

/// `contents` with `field` under `name` where `name` was absent.
pub open spec fn with_default(contents: Contents, name: Seq<char>, field: Field) -> Contents {
    if contents.contains_key(name) {
        contents
    } else {
        with_field(contents, name, field)
    }
}

/// A header value: its bytes, and whether it is marked as sensitive.
pub struct FieldValue {
    pub bytes: Vec<u8>,
    pub sensitive: bool,
}

impl View for FieldValue {
    type V = Field;

    open spec fn view(&self) -> Field {
        (self.bytes@, self.sensitive)
    }
}

/// The header name that `bytes` spell: a token of at most 65535 bytes, in
/// lower case.
pub open spec fn header_name(bytes: Seq<u8>) -> Option<Seq<char>> {
    if 0 < bytes.len() <= 65535 && (forall|i: int|
        0 <= i < bytes.len() ==> is_token_byte(#[trigger] bytes[i])) {
        Some(Seq::new(bytes.len(), |i: int| lower(bytes[i]) as char))
    } else {
        None
    }
}

/// A character of a header name in lower case.
pub open spec fn is_name_char(c: char) -> bool {
    &&& (c as u32) < 128
    &&& is_token_byte(c as u8)
    &&& lower(c as u8) == c as u8
}

/// Whether `name` is a header name in lower case.
pub open spec fn is_header_name(name: Seq<char>) -> bool {
    &&& 0 < name.len() <= 65535
    &&& forall|i: int| 0 <= i < name.len() ==> is_name_char(#[trigger] name[i])
}

/// A byte that a header value may hold: no control character but the tab.
pub open spec fn is_value_byte(byte: u8) -> bool {
    (byte >= 32 && byte != 127) || byte == 9
}

/// Whether `bytes` can be a header value.
pub open spec fn is_header_value(bytes: Seq<u8>) -> bool {
    forall|i: int| 0 <= i < bytes.len() ==> is_value_byte(#[trigger] bytes[i])
}

/// Whether `bytes` holds visible ASCII characters, spaces and tabs only.
pub open spec fn is_visible(bytes: Seq<u8>) -> bool {
    forall|i: int|
        0 <= i < bytes.len() ==> {
            let byte = #[trigger] bytes[i];
            32 <= byte < 127 || byte == 9
        }
}

/// Whether a map that holds `contents` is sure to take `count` more names, one
/// after the other. A map of at most 6553 names never refuses another one.
pub open spec fn has_room(contents: Contents, count: nat) -> bool {
    contents.dom().finite() && contents.dom().len() + count <= 6554
}

/// Calls `http::HeaderMap::keys` and walks the iterator that it gives: every
/// name once, in no order that is relied on.
#[verifier::external_body]
pub(crate) fn keys(headers: &HeaderMap) -> (names: Vec<String>)
    ensures
        texts(names@) == header_contents(*headers).dom(),
        forall|i: int, j: int|
            0 <= i < j < names@.len() ==> (#[trigger] names@[i])@ != (#[trigger] names@[j])@,
{
    headers.keys().map(|name| name.as_str().to_owned()).collect()
}

/// Calls `http::HeaderMap::contains_key`: whether the name has a value.
#[verifier::external_body]
pub(crate) fn contains_key(headers: &HeaderMap, name: &str) -> (found: bool)
    requires
        is_header_name(name@),
    ensures
        found == header_contents(*headers).contains_key(name@),
{
    headers.contains_key(name)
}

/// Calls `http::HeaderMap::get`, which gives the first value under the name, and
/// reads its bytes and its mark. Every value in a header map consists of value
/// bytes.
#[verifier::external_body]
pub(crate) fn get(headers: &HeaderMap, name: &str) -> (value: Option<FieldValue>)
    requires
        is_header_name(name@),
    ensures
        match value {
            Some(value) => first_field(header_contents(*headers), name@) == Some(value@)
                && is_header_value(value.bytes@),
            None => first_field(header_contents(*headers), name@) is None,
        },
{
    headers.get(name).map(|value| FieldValue {
        bytes: value.as_bytes().to_vec(),
        sensitive: value.is_sensitive(),
    })
}

/// Calls `http::HeaderMap::get_all` and walks the view that it gives: the bytes of
/// all values under the name, in order.
#[verifier::external_body]
pub(crate) fn get_all(headers: &HeaderMap, name: &str) -> (all: Vec<Vec<u8>>)
    requires
        is_header_name(name@),
    ensures
        all@.len() == values(header_contents(*headers), name@).len(),
        forall|i: int|
            0 <= i < all@.len() ==> (#[trigger] all@[i])@ == values(
                header_contents(*headers),
                name@,
            )[i],
{
    headers.get_all(name).iter().map(|value| value.as_bytes().to_vec()).collect()
}

/// Calls `http::HeaderMap::remove`, which takes out every value under the name
/// and leaves the other names as they are.
#[verifier::external_body]
pub(crate) fn remove(headers: &mut HeaderMap, name: &str)
    requires
        is_header_name(name@),
    ensures
        header_contents(*final(headers)) == header_contents(*old(headers)).remove(name@),
{
    headers.remove(name);
}

/// Calls `http::HeaderMap::try_insert`, the form of `insert` that reports a
/// full map instead of panicking. It puts one value, with its mark, under the
/// name in place of what was there, or leaves the map as it is. When a map counts
/// as full depends on its allocation; one with room for another name never does.
#[verifier::external_body]
pub(crate) fn try_insert(headers: &mut HeaderMap, name: &str, field: &FieldValue) -> (done: bool)
    requires
        is_header_name(name@),
        is_header_value(field.bytes@),
    ensures
        done ==> header_contents(*final(headers)) == with_field(
            header_contents(*old(headers)),
            name@,
            field@,
        ),
        !done ==> header_contents(*final(headers)) == header_contents(*old(headers)),
        !done ==> !has_room(header_contents(*old(headers)), 1),
{
    let name = http::HeaderName::from_bytes(name.as_bytes()).unwrap();
    let mut value = http::HeaderValue::from_bytes(&field.bytes).unwrap();
    value.set_sensitive(field.sensitive);
    headers.try_insert(name, value).is_ok()
}

/// Calls `http::HeaderMap::try_entry` and `http::header::Entry::or_try_insert`,
/// the forms of `entry` and `or_insert` that report a full map instead of
/// panicking. They put the value, with its mark, under the name only where the
/// name was absent.
#[verifier::external_body]
pub(crate) fn try_insert_default(
    headers: &mut HeaderMap,
    name: &str,
    field: &FieldValue,
) -> (done: bool)
    requires
        is_header_name(name@),
        is_header_value(field.bytes@),
    ensures
        done ==> header_contents(*final(headers)) == with_default(
            header_contents(*old(headers)),
            name@,
            field@,
        ),
        !done ==> header_contents(*final(headers)) == header_contents(*old(headers)),
        !done ==> !has_room(header_contents(*old(headers)), 1),
{
    let mut value = http::HeaderValue::from_bytes(&field.bytes).unwrap();
    value.set_sensitive(field.sensitive);
    match headers.try_entry(name) {
        Ok(entry) => entry.or_try_insert(value).is_ok(),
        Err(_) => false,
    }
}

/// Calls `http::HeaderName::from_bytes`, which accepts tokens of at most 65535
/// bytes and gives them in lower case.
#[verifier::external_body]
pub(crate) fn parse_header_name(bytes: &[u8]) -> (name: Option<String>)
    ensures
        match name {
            Some(text) => header_name(bytes@) == Some(text@),
            None => header_name(bytes@) is None,
        },
{
    http::HeaderName::from_bytes(bytes).ok().map(|name| name.as_str().to_owned())
}

/// Calls `http::HeaderValue::from_str`, which accepts a text whose UTF-8 bytes
/// are all value bytes, and gives a value of those bytes that is not marked.
#[verifier::external_body]
pub(crate) fn header_value_from_str(text: &str) -> (value: Option<FieldValue>)
    ensures
        match value {
            Some(value) => is_header_value(encode_utf8(text@)) && value@ == (
                encode_utf8(text@),
                false,
            ),
            None => !is_header_value(encode_utf8(text@)),
        },
{
    http::HeaderValue::from_str(text).ok().map(|value| FieldValue {
        bytes: value.as_bytes().to_vec(),
        sensitive: value.is_sensitive(),
    })
}

/// Calls `http::HeaderValue::to_str`, which gives the value as text when it
/// holds visible ASCII characters, spaces and tabs only.
#[verifier::external_body]
pub(crate) fn header_value_to_str(value: &[u8]) -> (text: Option<String>)
    ensures
        match text {
            Some(text) => is_visible(value@) && encode_utf8(text@) == value@,
            None => !is_visible(value@),
        },
{
    let value = http::HeaderValue::from_bytes(value).ok()?;
    value.to_str().ok().map(|text| text.to_owned())
}

/// A name that `header_name` gives is a header name in lower case.
pub proof fn lemma_header_name_is_lower(bytes: Seq<u8>)
    ensures
        header_name(bytes) matches Some(name) ==> is_header_name(name),
{
    if let Some(name) = header_name(bytes) {
        assert forall|i: int| 0 <= i < name.len() implies is_name_char(#[trigger] name[i]) by {
            assert(is_token_byte(bytes[i]));
        }
    }
}

/// Removing names leaves the room that there was.
pub proof fn lemma_room_after_removal(contents: Contents, names: Set<Seq<char>>, count: nat)
    requires
        has_room(contents, count),
    ensures
        has_room(contents.remove_keys(names), count),
{
    let rest = contents.remove_keys(names).dom();
    assert(rest.subset_of(contents.dom()));
    vstd::set_lib::lemma_len_subset(rest, contents.dom());
}

/// One name more takes one place.
pub proof fn lemma_room_after_insert(
    contents: Contents,
    name: Seq<char>,
    field: Field,
    count: nat,
)
    requires
        has_room(contents, count + 1),
    ensures
        has_room(with_field(contents, name, field), count),
        has_room(with_default(contents, name, field), count),
{
}

} // verus!
