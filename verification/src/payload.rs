//! Payload codec: turns the body of a write request into what is stored.

use crate::config::WriteMode;
use crate::json::{json_text, text_member};
use crate::json_scan::{is_json_text, text_member_of};
use crate::json_utf8::lemma_text_member_valid;
use crate::record::payload_attribute;
use vstd::prelude::*;
use vstd::string::*;
use vstd::utf8::*;

verus! {

/// `std::str::from_utf8`: succeeds exactly on the byte sequences that are valid
/// UTF-8, and then yields the text that those bytes encode.
#[verifier::external_body]
fn utf8_text<'a>(bytes: &'a [u8]) -> (text: Option<&'a str>)
    ensures
        text.is_some() == valid_utf8(bytes@),
        text matches Some(t) ==> t@ == decode_utf8(bytes@),
{
    std::str::from_utf8(bytes).ok()
}

/// True when a free-form body can be stored as it stands: it is text, and the
/// text is a JSON text. A body that is missing is empty, and cannot.
pub open spec fn storable(body: Seq<u8>) -> bool {
    valid_utf8(body) && json_text(body)
}

/// The payload that is stored for a free-form body: the body itself where it
/// can be stored, and the empty object where it cannot.
pub open spec fn free_form_payload(body: Seq<u8>) -> Seq<char> {
    if storable(body) {
        decode_utf8(body)
    } else {
        "{}"@
    }
}

/// Decodes a free-form body. A body that is stored is stored unchanged, white
/// space and all.
pub fn payload_text<'a>(body: &'a [u8]) -> (payload: &'a str)
    ensures
        payload@ == free_form_payload(body@),
{
    match utf8_text(body) {
        Some(text) => if is_json_text(body) {
            text
        } else {
            "{}"
        },
        None => "{}",
    }
}

/// The text that a body of fixed shape yields: the body must be text, and the
/// text a JSON document that consists of an object in which exactly one member
/// is called `field`, with a string for its value. That string is the result.
pub open spec fn shaped_text(body: Seq<u8>, field: Seq<char>) -> Option<Seq<char>> {
    if !valid_utf8(body) {
        None
    } else {
        match text_member(body, encode_utf8(field)) {
            Some(bytes) => Some(decode_utf8(bytes)),
            None => None,
        }
    }
}

/// Decodes a body of fixed shape, and takes out the string of its member
/// `field`.
pub fn shaped_payload(body: &[u8], field: &str) -> (text: Option<String>)
    ensures
        match text {
            Some(found) => shaped_text(body@, field@) == Some(found@),
            None => shaped_text(body@, field@).is_none(),
        },
{
    if utf8_text(body).is_none() {
        return None;
    }
    match text_member_of(body, field.as_bytes()) {
        Some(bytes) => {
            proof {
                lemma_text_member_valid(body@, field.spec_bytes());
            }
            let found = utf8_text(bytes.as_slice()).unwrap();
            Some(String::from_str(found))
        },
        None => None,
    }
}

/// What a write stores of a body: the name of the attribute and its text, or
/// nothing where the body fails validation.
pub open spec fn decoded_body(mode: WriteMode, body: Seq<u8>) -> Option<(Seq<char>, Seq<char>)> {
    match mode {
        WriteMode::FreeForm => Some((payload_attribute(), free_form_payload(body))),
        WriteMode::Shaped { field } => match shaped_text(body, field@) {
            Some(text) => Some((field@, text)),
            None => None,
        },
    }
}

/// Decodes the body of a write request as `mode` asks.
pub fn decode_body(mode: &WriteMode, body: &[u8]) -> (decoded: Option<(String, String)>)
    ensures
        match decoded {
            Some((field, content)) => decoded_body(*mode, body@) == Some((field@, content@)),
            None => decoded_body(*mode, body@).is_none(),
        },
{
    match mode {
        WriteMode::FreeForm => Some(
            (String::from_str("payload"), String::from_str(payload_text(body))),
        ),
        WriteMode::Shaped { field } => match shaped_payload(body, field.as_str()) {
            Some(text) => Some((field.clone(), text)),
            None => None,
        },
    }
}

} // verus!
