//! HTTP header values.

use reqwest::header::{HeaderMap, HeaderValue};
use vstd::prelude::*;

verus! {

/// `HeaderMap` of the `http` crate, as `reqwest` hands it out.
#[verifier::external_type_specification]
#[verifier::external_body]
#[verifier::reject_recursive_types(T)]
pub struct ExHeaderMap<T>(HeaderMap<T>);

/// `HeaderValue` of the `http` crate.
#[verifier::external_type_specification]
#[verifier::external_body]
pub struct ExHeaderValue(HeaderValue);

/// What a header map holds: for each name, in lower case, the bytes of its
/// values, in the order in which they were added.
pub uninterp spec fn header_values(headers: HeaderMap<HeaderValue>) -> Map<Seq<char>, Seq<Seq<u8>>>;

/// Whether a byte of a header value is a character: printable ASCII or a tab.
pub open spec fn is_text_byte(b: u8) -> bool {
    0x20 <= b < 0x7F || b == 0x09
}

/// A header value as text, where each of its bytes is a character.
pub open spec fn value_text(bytes: Seq<u8>) -> Option<Seq<char>> {
    if forall|i: int| 0 <= i < bytes.len() ==> is_text_byte(#[trigger] bytes[i]) {
        Some(bytes.map_values(|b: u8| b as char))
    } else {
        None
    }
}

/// Whether a header name is written in lower case.
pub open spec fn is_lower(name: Seq<char>) -> bool {
    forall|i: int| 0 <= i < name.len() ==> !('A' <= #[trigger] name[i] <= 'Z')
}

/// The values of a name among `values`, as text.
pub open spec fn texts_for(values: Map<Seq<char>, Seq<Seq<u8>>>, name: Seq<char>) -> Seq<
    Option<Seq<char>>,
> {
    if values.dom().contains(name) {
        values[name].map_values(|bytes: Seq<u8>| value_text(bytes))
    } else {
        Seq::empty()
    }
}

/// The first value of a name among `values`, as text.
pub open spec fn first_text_for(values: Map<Seq<char>, Seq<Seq<u8>>>, name: Seq<char>) -> Option<
    Seq<char>,
> {
    if values.dom().contains(name) && values[name].len() > 0 {
        value_text(values[name][0])
    } else {
        None
    }
}

/// A string that may be missing, as characters.
pub open spec fn text_of(value: Option<String>) -> Option<Seq<char>> {
    match value {
        Some(s) => Some(s@),
        None => None,
    }
}

/// Strings that may be missing, as characters.
pub open spec fn texts_of(values: Seq<Option<String>>) -> Seq<Option<Seq<char>>> {
    values.map_values(|v: Option<String>| text_of(v))
}

/// `HeaderMap::get_all`, with each value as `HeaderValue::to_str` gives it:
/// the values of a name in the order in which they were added, and `None` for
/// a value that has a byte which is neither printable ASCII nor a tab. A name
/// that the map does not hold has no values.
#[verifier::external_body]
pub(crate) fn all_texts(headers: &HeaderMap<HeaderValue>, name: &str) -> (r: Vec<Option<String>>)
    requires
        is_lower(name@),
    ensures
        texts_of(r@) == texts_for(header_values(*headers), name@),
{
    headers.get_all(name).iter().map(|v| v.to_str().ok().map(String::from)).collect()
}

/// `HeaderMap::get`, with the value as `HeaderValue::to_str` gives it: the
/// first value of a name, where the map holds one and each of its bytes is
/// printable ASCII or a tab.
#[verifier::external_body]
pub(crate) fn first_text(headers: &HeaderMap<HeaderValue>, name: &str) -> (r: Option<String>)
    requires
        is_lower(name@),
    ensures
        text_of(r) == first_text_for(header_values(*headers), name@),
{
    headers.get(name).and_then(|v| v.to_str().ok()).map(String::from)
}

/// A header value is text exactly where each of its bytes is printable ASCII or a
/// tab, and then it is those characters, one for each byte.
pub proof fn printable_values_are_text(bytes: Seq<u8>, i: int)
    requires
        0 <= i < bytes.len(),
    ensures
        bytes[i] >= 0x7F || (bytes[i] < 0x20 && bytes[i] != 0x09) ==> value_text(bytes) is None,
        (forall|j: int|
            0 <= j < bytes.len() ==> 0x20 <= #[trigger] bytes[j] <= 0x7E || bytes[j] == 0x09) ==> {
            &&& value_text(bytes) is Some
            &&& value_text(bytes)->0.len() == bytes.len()
            &&& value_text(bytes)->0[i] as int == bytes[i]
        },
{
    if bytes[i] >= 0x7F || (bytes[i] < 0x20 && bytes[i] != 0x09) {
        assert(!is_text_byte(bytes[i]));
    }
}

} // verus!
