//! JSON and UTF-8: the strings of a document that is valid UTF-8 are valid
//! UTF-8 themselves, once their escapes are resolved.

use crate::json::{
    after_bytes, document, escape, hex4, lemma_skip_space_bounds, member_at, members_from,
    pair_scalar, pick, skip_space,
    string_at, string_tail, text_member, Member, Pick, BACKSLASH, CLOSE_BRACE, COMMA, MAX_DEPTH,
    QUOTE,
};
use vstd::prelude::*;
use vstd::utf8::*;

verus! {

/// The bytes of `s` from `pos` on.
pub open spec fn suffix(s: Seq<u8>, pos: int) -> Seq<u8> {
    s.subrange(pos, s.len() as int)
}

/// One ASCII byte is valid UTF-8.
proof fn lemma_ascii_byte_valid(b: u8)
    requires
        b < 0x80,
    ensures
        valid_utf8(seq![b]),
{
    let chars = seq![b as char];
    assert(is_ascii_chars(chars));
    is_ascii_chars_encode_utf8(chars);
    encode_utf8_valid_utf8(chars);
    assert(encode_utf8(chars) =~= seq![b]);
}

/// The encoding of a scalar is valid UTF-8.
proof fn lemma_scalar_valid(scalar: u32)
    requires
        is_scalar(scalar),
    ensures
        valid_utf8(encode_scalar(scalar)),
{
    let c = scalar as char;
    let chars = seq![c];
    assert(c as u32 == scalar);
    encode_utf8_valid_utf8(chars);
    assert(encode_utf8(chars) =~= encode_scalar(scalar)) by {
        reveal_with_fuel(encode_utf8, 2);
        assert(chars.drop_first() =~= Seq::<char>::empty());
    }
}

/// Behind an ASCII byte, the rest of a valid UTF-8 sequence is valid UTF-8.
proof fn lemma_valid_behind_ascii(s: Seq<u8>, i: int)
    requires
        valid_utf8(s),
        0 <= i < s.len(),
        s[i] < 0x80,
    ensures
        valid_utf8(suffix(s, i + 1)),
{
    is_char_boundary_iff_not_is_continuation_byte(s, i);
    valid_utf8_split(s, i);
    let rest = suffix(s, i);
    assert(rest[0] == s[i]);
    assert(pop_first_scalar(rest) =~= suffix(s, i + 1));
}

/// The same, for a sequence of which only the part from `from` on is known to
/// be valid.
proof fn lemma_suffix_behind_ascii(s: Seq<u8>, from: int, i: int)
    requires
        0 <= from <= i < s.len(),
        valid_utf8(suffix(s, from)),
        s[i] < 0x80,
    ensures
        valid_utf8(suffix(s, i + 1)),
{
    let part = suffix(s, from);
    assert(part[i - from] == s[i]);
    lemma_valid_behind_ascii(part, i - from);
    assert(suffix(part, i - from + 1) =~= suffix(s, i + 1));
}

/// Four hexadecimal digits are four ASCII bytes, and write a number below
/// 65536.
proof fn lemma_hex4(s: Seq<u8>, pos: int)
    requires
        hex4(s, pos).is_some(),
    ensures
        0 <= pos && pos + 4 <= s.len(),
        s[pos + 3] < 0x80,
        hex4(s, pos).unwrap() <= 0xFFFF,
{
}

/// An escape stands for valid UTF-8, and ends behind an ASCII byte.
proof fn lemma_escape_valid(s: Seq<u8>, pos: int)
    requires
        escape(s, pos).is_some(),
    ensures
        valid_utf8(escape(s, pos).unwrap().0),
        pos < escape(s, pos).unwrap().1 <= s.len(),
        s[escape(s, pos).unwrap().1 - 1] < 0x80,
{
    if s[pos] == 0x75 {
        let unit = hex4(s, pos + 1).unwrap();
        lemma_hex4(s, pos + 1);
        if 0xD800 <= unit <= 0xDBFF {
            let low = hex4(s, pos + 7).unwrap();
            lemma_hex4(s, pos + 7);
            lemma_scalar_valid(pair_scalar(unit, low));
        } else {
            lemma_scalar_valid(unit);
        }
    } else {
        let bytes = escape(s, pos).unwrap().0;
        lemma_ascii_byte_valid(bytes[0]);
        assert(bytes =~= seq![bytes[0]]);
    }
}

/// A character of more than one byte stands in a string as it is.
proof fn lemma_string_tail_wide(s: Seq<u8>, pos: int)
    requires
        0 <= pos < s.len(),
        valid_utf8(suffix(s, pos)),
        s[pos] >= 0x80,
    ensures
        ({
            let width = length_of_first_scalar(suffix(s, pos));
            &&& 2 <= width <= 4
            &&& pos + width <= s.len()
            &&& valid_utf8(s.subrange(pos, pos + width))
            &&& valid_utf8(suffix(s, pos + width))
            &&& string_tail(s, pos) == after_bytes(
                s.subrange(pos, pos + width),
                string_tail(s, pos + width),
            )
        }),
{
    let part = suffix(s, pos);
    let width = length_of_first_scalar(part);
    assert(part[0] == s[pos]);
    assert(valid_first_scalar(part));
    assert(pop_first_scalar(part) =~= suffix(s, pos + width));
    let first = s.subrange(pos, pos + width);
    assert(first =~= take_first_scalar(part));
    assert(valid_utf8(first)) by {
        reveal_with_fuel(valid_utf8, 2);
        assert(valid_first_scalar(first)) by {
            assert(forall|i: int| 0 <= i < width ==> first[i] == part[i]);
        }
        assert(pop_first_scalar(first) =~= Seq::<u8>::empty());
    }
    assert(forall|i: int| 1 <= i < width ==> part[i] == s[pos + i]);
    lemma_raw_bytes(s, pos, width);
}

/// Bytes from 0x80 on stand in a string as they are.
proof fn lemma_raw_bytes(s: Seq<u8>, pos: int, count: int)
    requires
        0 <= pos,
        0 <= count,
        pos + count <= s.len(),
        forall|i: int| pos <= i < pos + count ==> s[i] >= 0x80,
    ensures
        string_tail(s, pos) == after_bytes(
            s.subrange(pos, pos + count),
            string_tail(s, pos + count),
        ),
    decreases count,
{
    if count == 0 {
        match string_tail(s, pos) {
            Some((rest, end)) => {
                assert(s.subrange(pos, pos) + rest =~= rest);
            },
            None => {},
        }
    } else {
        lemma_raw_bytes(s, pos + 1, count - 1);
        match string_tail(s, pos + count) {
            Some((rest, end)) => {
                assert(seq![s[pos]] + (s.subrange(pos + 1, pos + count) + rest) =~= s.subrange(
                    pos,
                    pos + count,
                ) + rest);
            },
            None => {},
        }
    }
}

/// The bytes of a string are valid UTF-8, where the string stands in bytes
/// that are valid UTF-8 from its start on.
proof fn lemma_string_tail_valid(s: Seq<u8>, pos: int)
    requires
        0 <= pos <= s.len(),
        valid_utf8(suffix(s, pos)),
        string_tail(s, pos).is_some(),
    ensures
        valid_utf8(string_tail(s, pos).unwrap().0),
    decreases s.len() - pos,
{
    let b = s[pos];
    if b == QUOTE {
    } else if b == BACKSLASH {
        let (bytes, next) = escape(s, pos + 1).unwrap();
        lemma_escape_valid(s, pos + 1);
        lemma_suffix_behind_ascii(s, pos, next - 1);
        lemma_string_tail_valid(s, next);
        valid_utf8_concat(bytes, string_tail(s, next).unwrap().0);
    } else if b < 0x80 {
        lemma_ascii_byte_valid(b);
        lemma_suffix_behind_ascii(s, pos, pos);
        lemma_string_tail_valid(s, pos + 1);
        valid_utf8_concat(seq![b], string_tail(s, pos + 1).unwrap().0);
    } else {
        lemma_string_tail_wide(s, pos);
        let width = length_of_first_scalar(suffix(s, pos));
        lemma_string_tail_valid(s, pos + width);
        valid_utf8_concat(s.subrange(pos, pos + width), string_tail(s, pos + width).unwrap().0);
    }
}

/// The bytes of a string that stands in a valid UTF-8 sequence are valid
/// UTF-8.
pub proof fn lemma_string_valid(s: Seq<u8>, pos: int)
    requires
        valid_utf8(s),
        string_at(s, pos).is_some(),
    ensures
        valid_utf8(string_at(s, pos).unwrap().0),
{
    lemma_valid_behind_ascii(s, pos);
    lemma_string_tail_valid(s, pos + 1);
}

/// True when the text of each member is valid UTF-8.
pub open spec fn texts_valid(members: Seq<Member>) -> bool {
    forall|i: int|
        0 <= i < members.len() ==> (#[trigger] members[i].text matches Some(text) ==> valid_utf8(
            text,
        ))
}

/// The text of each member of an object in a valid UTF-8 sequence is valid
/// UTF-8.
proof fn lemma_members_valid(s: Seq<u8>, pos: int, depth: nat)
    requires
        valid_utf8(s),
        members_from(s, pos, depth).is_some(),
    ensures
        texts_valid(members_from(s, pos, depth).unwrap().0),
    decreases s.len() - pos,
{
    let (member, end) = member_at(s, pos, depth).unwrap();
    let name_end = string_at(s, pos).unwrap().1;
    let start = skip_space(s, skip_space(s, name_end) + 1);
    if member.text.is_some() {
        lemma_string_valid(s, start);
    }
    let mark = skip_space(s, end);
    lemma_skip_space_bounds(s, end);
    lemma_skip_space_bounds(s, mark + 1);
    if s[mark] == COMMA {
        let next = skip_space(s, mark + 1);
        lemma_members_valid(s, next, depth);
        let rest = members_from(s, next, depth).unwrap().0;
        let all = seq![member] + rest;
        assert forall|i: int| 0 <= i < all.len() implies (#[trigger] all[i].text matches Some(
            text,
        ) ==> valid_utf8(text)) by {
            if i > 0 {
                assert(all[i] == rest[i - 1]);
            }
        }
    }
}

/// A text that is picked from members with valid texts is valid.
proof fn lemma_pick_valid(members: Seq<Member>, name: Seq<u8>)
    requires
        texts_valid(members),
    ensures
        pick(members, name) matches Pick::One(Some(text)) ==> valid_utf8(text),
    decreases members.len(),
{
    if members.len() > 0 {
        let front = members.drop_last();
        assert forall|i: int| 0 <= i < front.len() implies (#[trigger] front[i].text matches Some(
            text,
        ) ==> valid_utf8(text)) by {
            assert(front[i] == members[i]);
        }
        lemma_pick_valid(front, name);
        assert(members.last() == members[members.len() - 1]);
    }
}

/// The text of a member of a document that is valid UTF-8 is valid UTF-8.
pub proof fn lemma_text_member_valid(s: Seq<u8>, name: Seq<u8>)
    requires
        valid_utf8(s),
    ensures
        text_member(s, name) matches Some(text) ==> valid_utf8(text),
{
    if document(s).is_some() {
        let start = skip_space(s, 0);
        let first = skip_space(s, start + 1);
        let members = document(s).unwrap();
        if s[first] != CLOSE_BRACE {
            lemma_members_valid(s, first, (MAX_DEPTH - 1) as nat);
        }
        lemma_pick_valid(members, name);
    }
}

} // verus!
