//! Routing: the method selects the operation, and the path, without its prefix,
//! is the key of the record.

use crate::request::Method;
use vstd::prelude::*;
use vstd::string::*;
use vstd::utf8::*;

verus! {

/// What a request asks for.
#[derive(Clone, Copy, Debug, PartialEq, Eq, Structural)]
pub enum Operation {
    /// Store a record.
    Write,
    /// Fetch a record, or count records.
    Read,
}

/// The operation that `method` selects: `POST` writes, `GET` reads, and no other
/// method is served.
pub open spec fn operation_for(method: Method) -> Option<Operation> {
    match method {
        Method::Post => Some(Operation::Write),
        Method::Get => Some(Operation::Read),
        Method::Other => None,
    }
}

/// Selects the operation for `method`.
pub fn route(method: Method) -> (operation: Option<Operation>)
    ensures
        operation == operation_for(method),
{
    match method {
        Method::Post => Some(Operation::Write),
        Method::Get => Some(Operation::Read),
        Method::Other => None,
    }
}

/// What is left of `path` once its first `prefix_len` bytes are taken away, where
/// the path can be cut there: `prefix_len` must not exceed the length of the path
/// in bytes nor fall inside the encoding of a character.
pub open spec fn key_after(path: Seq<char>, prefix_len: int) -> Option<Seq<char>> {
    let bytes = encode_utf8(path);
    if is_char_boundary(bytes, prefix_len) {
        Some(decode_utf8(bytes.subrange(prefix_len, bytes.len() as int)))
    } else {
        None
    }
}

/// Extracts the key of the record from the path of the request: the path without
/// its first `prefix_len` bytes, taken as it stands.
pub fn resource_key<'a>(path: &'a str, prefix_len: usize) -> (key: Option<&'a str>)
    ensures
        match key {
            Some(k) => key_after(path@, prefix_len as int) == Some(k@),
            None => key_after(path@, prefix_len as int).is_none(),
        },
{
    if path.is_char_boundary(prefix_len) {
        let (_, key) = path.split_at(prefix_len);
        proof {
            encode_utf8_decode_utf8(key@);
        }
        Some(key)
    } else {
        None
    }
}

/// The encoding of a text is the encoding of its front followed by the
/// encoding of its rest.
pub proof fn lemma_encode_concat(front: Seq<char>, rest: Seq<char>)
    ensures
        encode_utf8(front + rest) == encode_utf8(front) + encode_utf8(rest),
    decreases front.len(),
{
    if front.len() == 0 {
        assert(front + rest =~= rest);
        assert(encode_utf8(front) + encode_utf8(rest) =~= encode_utf8(rest));
    } else {
        lemma_encode_concat(front.drop_first(), rest);
        assert((front + rest).drop_first() =~= front.drop_first() + rest);
        assert(encode_utf8(front + rest) =~= encode_utf8(front) + encode_utf8(rest));
    }
}

/// A text can be cut behind the encoding of its front.
proof fn lemma_boundary_after_front(front: Seq<char>, rest: Seq<char>)
    ensures
        is_char_boundary(encode_utf8(front + rest), encode_utf8(front).len() as int),
    decreases front.len(),
{
    let whole = front + rest;
    encode_utf8_valid_utf8(whole);
    if front.len() > 0 {
        let bytes = encode_utf8(whole);
        encode_utf8_first_scalar(whole);
        assert(whole.drop_first() =~= front.drop_first() + rest);
        assert(pop_first_scalar(bytes) =~= encode_utf8(whole.drop_first()));
        lemma_boundary_after_front(front.drop_first(), rest);
        lemma_encode_concat(front, rest);
    }
}

/// Stripping the prefix: where the path is a prefix followed by a key, cutting
/// the path behind the bytes of the prefix leaves the key, unchanged.
pub proof fn law_key_follows_prefix(prefix: Seq<char>, key: Seq<char>)
    ensures
        key_after(prefix + key, encode_utf8(prefix).len() as int) == Some(key),
{
    let bytes = encode_utf8(prefix + key);
    let cut = encode_utf8(prefix).len() as int;
    lemma_boundary_after_front(prefix, key);
    lemma_encode_concat(prefix, key);
    assert(bytes.subrange(cut, bytes.len() as int) =~= encode_utf8(key));
    encode_utf8_decode_utf8(key);
}

/// A prefix of plain ASCII takes as many bytes as it has characters.
pub proof fn law_ascii_prefix_length(prefix: Seq<char>)
    requires
        is_ascii_chars(prefix),
    ensures
        encode_utf8(prefix).len() == prefix.len(),
{
    is_ascii_chars_encode_utf8(prefix);
}

} // verus!
