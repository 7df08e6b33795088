//! JSON, as far as the payload codec needs it: the grammar over bytes, and the
//! members of the object that a document consists of.
//!
//! The functions that follow a list of elements or a list of members test,
//! before they go on, that the element or member ends behind its start and
//! inside the input. That holds of every input, as [`lemma_value_bounds`] and
//! [`lemma_member_bounds`] show; the test is there so that the definitions can
//! be seen to end.

use vstd::prelude::*;
use vstd::utf8::*;

verus! {

/// How deep arrays and objects may nest, the outermost object counted.
pub const MAX_DEPTH: usize = 128;

/// The byte `"`.
pub const QUOTE: u8 = 0x22;

/// The byte `\`.
pub const BACKSLASH: u8 = 0x5C;

/// The byte `,`.
pub const COMMA: u8 = 0x2C;

/// The byte `:`.
pub const COLON: u8 = 0x3A;

/// The byte `{`.
pub const OPEN_BRACE: u8 = 0x7B;

/// The byte `}`.
pub const CLOSE_BRACE: u8 = 0x7D;

/// The byte `[`.
pub const OPEN_BRACKET: u8 = 0x5B;

/// The byte `]`.
pub const CLOSE_BRACKET: u8 = 0x5D;

/// True when `b` is one of the four bytes that count as white space.
pub open spec fn is_space(b: u8) -> bool {
    b == 0x20 || b == 0x09 || b == 0x0A || b == 0x0D
}

/// True when `b` is a decimal digit.
pub open spec fn is_digit(b: u8) -> bool {
    0x30 <= b <= 0x39
}

/// True when the byte at `pos` is `b`.
pub open spec fn byte_is(s: Seq<u8>, pos: int, b: u8) -> bool {
    0 <= pos < s.len() && s[pos] == b
}

/// The first position at or behind `pos` that holds no white space.
pub open spec fn skip_space(s: Seq<u8>, pos: int) -> int
    decreases s.len() - pos,
{
    if 0 <= pos < s.len() && is_space(s[pos]) {
        skip_space(s, pos + 1)
    } else {
        pos
    }
}

/// The first position at or behind `pos` that holds no digit.
pub open spec fn digits_end(s: Seq<u8>, pos: int) -> int
    decreases s.len() - pos,
{
    if 0 <= pos < s.len() && is_digit(s[pos]) {
        digits_end(s, pos + 1)
    } else {
        pos
    }
}

/// Skipping white space goes forward, and stays inside the input.
pub proof fn lemma_skip_space_bounds(s: Seq<u8>, pos: int)
    ensures
        0 <= pos <= s.len() ==> pos <= skip_space(s, pos) <= s.len(),
    decreases s.len() - pos,
{
    if 0 <= pos < s.len() && is_space(s[pos]) {
        lemma_skip_space_bounds(s, pos + 1);
    }
}

/// The value of the hexadecimal digit `b`.
pub open spec fn hex_digit(b: u8) -> Option<u32> {
    if 0x30 <= b <= 0x39 {
        Some((b - 0x30) as u32)
    } else if 0x41 <= b <= 0x46 {
        Some((b - 0x41 + 10) as u32)
    } else if 0x61 <= b <= 0x66 {
        Some((b - 0x61 + 10) as u32)
    } else {
        None
    }
}

/// The number that the four hexadecimal digits at `pos` write.
pub open spec fn hex4(s: Seq<u8>, pos: int) -> Option<u32> {
    if 0 <= pos && pos + 4 <= s.len() {
        match (
            hex_digit(s[pos]),
            hex_digit(s[pos + 1]),
            hex_digit(s[pos + 2]),
            hex_digit(s[pos + 3]),
        ) {
            (Some(a), Some(b), Some(c), Some(d)) => Some((a * 4096 + b * 256 + c * 16 + d) as u32),
            _ => None,
        }
    } else {
        None
    }
}

/// The character that a pair of surrogates stands for.
pub open spec fn pair_scalar(high: u32, low: u32) -> u32
    recommends
        0xD800 <= high <= 0xDBFF,
        0xDC00 <= low <= 0xDFFF,
{
    (0x10000 + (high - 0xD800) * 0x400 + (low - 0xDC00)) as u32
}

/// A `\u` escape whose four digits start at `pos`: the bytes of the character
/// that it stands for, and the position behind it. A high surrogate takes a
/// second escape with a low surrogate; a surrogate alone stands for nothing.
pub open spec fn unicode_escape(s: Seq<u8>, pos: int) -> Option<(Seq<u8>, int)> {
    match hex4(s, pos) {
        None => None,
        Some(unit) => if 0xD800 <= unit <= 0xDBFF {
            if byte_is(s, pos + 4, BACKSLASH) && byte_is(s, pos + 5, 0x75) {
                match hex4(s, pos + 6) {
                    Some(low) => if 0xDC00 <= low <= 0xDFFF {
                        Some((encode_scalar(pair_scalar(unit, low)), pos + 10))
                    } else {
                        None
                    },
                    None => None,
                }
            } else {
                None
            }
        } else if 0xDC00 <= unit <= 0xDFFF {
            None
        } else {
            Some((encode_scalar(unit), pos + 4))
        },
    }
}

/// An escape whose letter stands at `pos`, behind the backslash: the bytes
/// that it stands for, and the position behind it.
pub open spec fn escape(s: Seq<u8>, pos: int) -> Option<(Seq<u8>, int)> {
    if !(0 <= pos < s.len()) {
        None
    } else if s[pos] == QUOTE || s[pos] == BACKSLASH || s[pos] == 0x2F {
        Some((seq![s[pos]], pos + 1))
    } else if s[pos] == 0x62 {
        Some((seq![0x08u8], pos + 1))
    } else if s[pos] == 0x66 {
        Some((seq![0x0Cu8], pos + 1))
    } else if s[pos] == 0x6E {
        Some((seq![0x0Au8], pos + 1))
    } else if s[pos] == 0x72 {
        Some((seq![0x0Du8], pos + 1))
    } else if s[pos] == 0x74 {
        Some((seq![0x09u8], pos + 1))
    } else if s[pos] == 0x75 {
        unicode_escape(s, pos + 1)
    } else {
        None
    }
}

/// `found` with `front` put before the bytes that it holds.
pub open spec fn after_bytes(front: Seq<u8>, found: Option<(Seq<u8>, int)>) -> Option<
    (Seq<u8>, int),
> {
    match found {
        Some((rest, end)) => Some((front + rest, end)),
        None => None,
    }
}

/// The rest of a string from `pos` on: the bytes that it holds up to the
/// closing quote, escapes resolved, and the position behind that quote. No
/// control character may stand in a string.
pub open spec fn string_tail(s: Seq<u8>, pos: int) -> Option<(Seq<u8>, int)>
    decreases s.len() - pos,
{
    if !(0 <= pos < s.len()) {
        None
    } else if s[pos] == QUOTE {
        Some((Seq::<u8>::empty(), pos + 1))
    } else if s[pos] < 0x20 {
        None
    } else if s[pos] == BACKSLASH {
        match escape(s, pos + 1) {
            Some((bytes, next)) => if next > pos {
                after_bytes(bytes, string_tail(s, next))
            } else {
                None
            },
            None => None,
        }
    } else {
        after_bytes(seq![s[pos]], string_tail(s, pos + 1))
    }
}

/// The string that starts at `pos`: the bytes that it holds and the position
/// behind it.
pub open spec fn string_at(s: Seq<u8>, pos: int) -> Option<(Seq<u8>, int)> {
    if byte_is(s, pos, QUOTE) {
        string_tail(s, pos + 1)
    } else {
        None
    }
}

/// An escape ends behind its start, inside the input.
pub proof fn lemma_escape_bounds(s: Seq<u8>, pos: int)
    ensures
        escape(s, pos) matches Some((_, end)) ==> pos < end <= s.len(),
{
}

/// The rest of a string ends behind its start, inside the input.
pub proof fn lemma_string_tail_bounds(s: Seq<u8>, pos: int)
    ensures
        string_tail(s, pos) matches Some((_, end)) ==> pos < end <= s.len(),
    decreases s.len() - pos,
{
    if 0 <= pos < s.len() && s[pos] != QUOTE && s[pos] >= 0x20 {
        if s[pos] == BACKSLASH {
            lemma_escape_bounds(s, pos + 1);
            match escape(s, pos + 1) {
                Some((_, next)) => {
                    lemma_string_tail_bounds(s, next);
                },
                None => {},
            }
        } else {
            lemma_string_tail_bounds(s, pos + 1);
        }
    }
}

/// A string ends behind its start, inside the input.
pub proof fn lemma_string_bounds(s: Seq<u8>, pos: int)
    ensures
        string_at(s, pos) matches Some((_, end)) ==> pos < end <= s.len(),
{
    lemma_string_tail_bounds(s, pos + 1);
}

/// The position behind the number that starts at `pos`: an optional minus, a
/// zero or digits that start with none, an optional fraction and an optional
/// exponent.
pub open spec fn number_end(s: Seq<u8>, pos: int) -> Option<int> {
    let whole = if byte_is(s, pos, 0x2D) {
        pos + 1
    } else {
        pos
    };
    if !(0 <= whole < s.len() && is_digit(s[whole])) {
        None
    } else {
        let point = if s[whole] == 0x30 {
            whole + 1
        } else {
            digits_end(s, whole)
        };
        if byte_is(s, point, 0x2E) && !(0 <= point + 1 < s.len() && is_digit(s[point + 1])) {
            None
        } else {
            let mark = if byte_is(s, point, 0x2E) {
                digits_end(s, point + 1)
            } else {
                point
            };
            if byte_is(s, mark, 0x65) || byte_is(s, mark, 0x45) {
                let power = if byte_is(s, mark + 1, 0x2B) || byte_is(s, mark + 1, 0x2D) {
                    mark + 2
                } else {
                    mark + 1
                };
                if 0 <= power < s.len() && is_digit(s[power]) {
                    Some(digits_end(s, power))
                } else {
                    None
                }
            } else {
                Some(mark)
            }
        }
    }
}

/// The position behind `word`, where `word` stands at `pos`.
pub open spec fn word_end(s: Seq<u8>, pos: int, word: Seq<u8>) -> Option<int> {
    if 0 <= pos && pos + word.len() <= s.len() && s.subrange(pos, pos + word.len()) == word {
        Some(pos + word.len())
    } else {
        None
    }
}

/// The bytes of `true`.
pub open spec fn word_true() -> Seq<u8> {
    seq![0x74u8, 0x72u8, 0x75u8, 0x65u8]
}

/// The bytes of `false`.
pub open spec fn word_false() -> Seq<u8> {
    seq![0x66u8, 0x61u8, 0x6Cu8, 0x73u8, 0x65u8]
}

/// The bytes of `null`.
pub open spec fn word_null() -> Seq<u8> {
    seq![0x6Eu8, 0x75u8, 0x6Cu8, 0x6Cu8]
}

/// One member of an object: its name and, where its value is a string, the
/// bytes of that string.
pub struct Member {
    pub name: Seq<u8>,
    pub text: Option<Seq<u8>>,
}

/// `found` with `front` put before the members that it holds.
pub open spec fn after_members(front: Seq<Member>, found: Option<(Seq<Member>, int)>) -> Option<
    (Seq<Member>, int),
> {
    match found {
        Some((rest, end)) => Some((front + rest, end)),
        None => None,
    }
}

/// The position behind the value that starts at `pos`. `depth` is how many
/// arrays and objects may still open.
pub open spec fn value_end(s: Seq<u8>, pos: int, depth: nat) -> Option<int>
    decreases s.len() - pos, 2int,
{
    if !(0 <= pos < s.len()) {
        None
    } else if s[pos] == QUOTE {
        match string_at(s, pos) {
            Some((_, end)) => Some(end),
            None => None,
        }
    } else if s[pos] == OPEN_BRACE {
        match object_at(s, pos, depth) {
            Some((_, end)) => Some(end),
            None => None,
        }
    } else if s[pos] == OPEN_BRACKET {
        array_end(s, pos, depth)
    } else if s[pos] == 0x74 {
        word_end(s, pos, word_true())
    } else if s[pos] == 0x66 {
        word_end(s, pos, word_false())
    } else if s[pos] == 0x6E {
        word_end(s, pos, word_null())
    } else {
        number_end(s, pos)
    }
}

/// The position behind the array that starts at `pos`.
pub open spec fn array_end(s: Seq<u8>, pos: int, depth: nat) -> Option<int>
    decreases s.len() - pos, 1int,
{
    if !byte_is(s, pos, OPEN_BRACKET) || depth == 0 {
        None
    } else {
        let first = skip_space(s, pos + 1);
        proof {
            lemma_skip_space_bounds(s, pos + 1);
        }
        if byte_is(s, first, CLOSE_BRACKET) {
            Some(first + 1)
        } else {
            elements_end(s, first, (depth - 1) as nat)
        }
    }
}

/// The position behind an array whose next element starts at `pos`.
pub open spec fn elements_end(s: Seq<u8>, pos: int, depth: nat) -> Option<int>
    decreases s.len() - pos, 4int,
{
    match value_end(s, pos, depth) {
        None => None,
        Some(end) => if !(pos < end <= s.len()) {
            None
        } else {
            let mark = skip_space(s, end);
            proof {
                lemma_skip_space_bounds(s, end);
                lemma_skip_space_bounds(s, mark + 1);
            }
            if byte_is(s, mark, CLOSE_BRACKET) {
                Some(mark + 1)
            } else if byte_is(s, mark, COMMA) {
                elements_end(s, skip_space(s, mark + 1), depth)
            } else {
                None
            }
        },
    }
}

/// The object that starts at `pos`: its members in their order, and the
/// position behind it.
pub open spec fn object_at(s: Seq<u8>, pos: int, depth: nat) -> Option<(Seq<Member>, int)>
    decreases s.len() - pos, 1int,
{
    if !byte_is(s, pos, OPEN_BRACE) || depth == 0 {
        None
    } else {
        let first = skip_space(s, pos + 1);
        proof {
            lemma_skip_space_bounds(s, pos + 1);
        }
        if byte_is(s, first, CLOSE_BRACE) {
            Some((Seq::<Member>::empty(), first + 1))
        } else {
            members_from(s, first, (depth - 1) as nat)
        }
    }
}

/// The members of an object from the member that starts at `pos` on, and the
/// position behind the object.
pub open spec fn members_from(s: Seq<u8>, pos: int, depth: nat) -> Option<(Seq<Member>, int)>
    decreases s.len() - pos, 4int,
{
    match member_at(s, pos, depth) {
        None => None,
        Some((member, end)) => if !(pos < end <= s.len()) {
            None
        } else {
            let mark = skip_space(s, end);
            proof {
                lemma_skip_space_bounds(s, end);
                lemma_skip_space_bounds(s, mark + 1);
            }
            if byte_is(s, mark, CLOSE_BRACE) {
                Some((seq![member], mark + 1))
            } else if byte_is(s, mark, COMMA) {
                after_members(seq![member], members_from(s, skip_space(s, mark + 1), depth))
            } else {
                None
            }
        },
    }
}

/// The member that starts at `pos`: a name, a colon and a value.
pub open spec fn member_at(s: Seq<u8>, pos: int, depth: nat) -> Option<(Member, int)>
    decreases s.len() - pos, 3int,
{
    match string_at(s, pos) {
        None => None,
        Some((name, end)) => {
            let mark = skip_space(s, end);
            let start = skip_space(s, mark + 1);
            proof {
                lemma_string_bounds(s, pos);
                lemma_skip_space_bounds(s, end);
                lemma_skip_space_bounds(s, mark + 1);
            }
            if !byte_is(s, mark, COLON) {
                None
            } else if byte_is(s, start, QUOTE) {
                match string_at(s, start) {
                    Some((text, after)) => Some((Member { name, text: Some(text) }, after)),
                    None => None,
                }
            } else {
                match value_end(s, start, depth) {
                    Some(after) => Some((Member { name, text: None }, after)),
                    None => None,
                }
            }
        },
    }
}

/// Skipping digits goes forward, and stays inside the input.
pub proof fn lemma_digits_end_bounds(s: Seq<u8>, pos: int)
    ensures
        0 <= pos <= s.len() ==> pos <= digits_end(s, pos) <= s.len(),
    decreases s.len() - pos,
{
    if 0 <= pos < s.len() && is_digit(s[pos]) {
        lemma_digits_end_bounds(s, pos + 1);
    }
}

/// A number ends behind its start, inside the input.
pub proof fn lemma_number_bounds(s: Seq<u8>, pos: int)
    ensures
        number_end(s, pos) matches Some(end) ==> pos < end <= s.len(),
{
    if number_end(s, pos).is_some() {
        let whole = if byte_is(s, pos, 0x2D) {
            pos + 1
        } else {
            pos
        };
        lemma_digits_end_bounds(s, whole);
        let point = if s[whole] == 0x30 {
            whole + 1
        } else {
            digits_end(s, whole)
        };
        lemma_digits_end_bounds(s, point + 1);
        let mark = if byte_is(s, point, 0x2E) {
            digits_end(s, point + 1)
        } else {
            point
        };
        lemma_digits_end_bounds(s, mark + 1);
        lemma_digits_end_bounds(s, mark + 2);
    }
}

/// A value ends behind its start, inside the input. So the test that the
/// lists make of each element is no restriction.
pub proof fn lemma_value_bounds(s: Seq<u8>, pos: int, depth: nat)
    ensures
        value_end(s, pos, depth) matches Some(end) ==> pos < end <= s.len(),
    decreases s.len() - pos, 2int,
{
    if 0 <= pos < s.len() {
        if s[pos] == QUOTE {
            lemma_string_bounds(s, pos);
        } else if s[pos] == OPEN_BRACE {
            lemma_object_bounds(s, pos, depth);
        } else if s[pos] == OPEN_BRACKET {
            lemma_array_bounds(s, pos, depth);
        } else if s[pos] != 0x74 && s[pos] != 0x66 && s[pos] != 0x6E {
            lemma_number_bounds(s, pos);
        }
    }
}

/// An array ends behind its start, inside the input.
pub proof fn lemma_array_bounds(s: Seq<u8>, pos: int, depth: nat)
    ensures
        array_end(s, pos, depth) matches Some(end) ==> pos < end <= s.len(),
    decreases s.len() - pos, 1int,
{
    if byte_is(s, pos, OPEN_BRACKET) && depth != 0 {
        let first = skip_space(s, pos + 1);
        lemma_skip_space_bounds(s, pos + 1);
        if !byte_is(s, first, CLOSE_BRACKET) {
            lemma_elements_bounds(s, first, (depth - 1) as nat);
        }
    }
}

/// A list of elements ends behind its start, inside the input.
pub proof fn lemma_elements_bounds(s: Seq<u8>, pos: int, depth: nat)
    ensures
        elements_end(s, pos, depth) matches Some(end) ==> pos < end <= s.len(),
    decreases s.len() - pos, 4int,
{
    match value_end(s, pos, depth) {
        Some(end) => {
            if pos < end <= s.len() {
                let mark = skip_space(s, end);
                lemma_skip_space_bounds(s, end);
                lemma_skip_space_bounds(s, mark + 1);
                if byte_is(s, mark, COMMA) {
                    lemma_elements_bounds(s, skip_space(s, mark + 1), depth);
                }
            }
        },
        None => {},
    }
}

/// An object ends behind its start, inside the input.
pub proof fn lemma_object_bounds(s: Seq<u8>, pos: int, depth: nat)
    ensures
        object_at(s, pos, depth) matches Some((_, end)) ==> pos < end <= s.len(),
    decreases s.len() - pos, 1int,
{
    if byte_is(s, pos, OPEN_BRACE) && depth != 0 {
        let first = skip_space(s, pos + 1);
        lemma_skip_space_bounds(s, pos + 1);
        if !byte_is(s, first, CLOSE_BRACE) {
            lemma_members_bounds(s, first, (depth - 1) as nat);
        }
    }
}

/// A list of members ends behind its start, inside the input.
pub proof fn lemma_members_bounds(s: Seq<u8>, pos: int, depth: nat)
    ensures
        members_from(s, pos, depth) matches Some((_, end)) ==> pos < end <= s.len(),
    decreases s.len() - pos, 4int,
{
    match member_at(s, pos, depth) {
        Some((_, end)) => {
            if pos < end <= s.len() {
                let mark = skip_space(s, end);
                lemma_skip_space_bounds(s, end);
                lemma_skip_space_bounds(s, mark + 1);
                if byte_is(s, mark, COMMA) {
                    lemma_members_bounds(s, skip_space(s, mark + 1), depth);
                }
            }
        },
        None => {},
    }
}

/// A member ends behind its start, inside the input. So the test that an
/// object makes of each member is no restriction.
pub proof fn lemma_member_bounds(s: Seq<u8>, pos: int, depth: nat)
    ensures
        member_at(s, pos, depth) matches Some((_, end)) ==> pos < end <= s.len(),
    decreases s.len() - pos, 3int,
{
    match string_at(s, pos) {
        Some((_, end)) => {
            let mark = skip_space(s, end);
            let start = skip_space(s, mark + 1);
            lemma_string_bounds(s, pos);
            lemma_skip_space_bounds(s, end);
            lemma_skip_space_bounds(s, mark + 1);
            if byte_is(s, mark, COLON) {
                if byte_is(s, start, QUOTE) {
                    lemma_string_bounds(s, start);
                } else {
                    lemma_value_bounds(s, start, depth);
                }
            }
        },
        None => {},
    }
}

/// The members of the object that the document `s` consists of. Nothing but
/// white space may stand before the object or behind it.
pub open spec fn document(s: Seq<u8>) -> Option<Seq<Member>> {
    match object_at(s, skip_space(s, 0), MAX_DEPTH as nat) {
        Some((members, end)) => if skip_space(s, end) == s.len() {
            Some(members)
        } else {
            None
        },
        None => None,
    }
}

/// True when `s` is a JSON text: one value, with nothing but white space before
/// it and behind it.
pub open spec fn json_text(s: Seq<u8>) -> bool {
    match value_end(s, skip_space(s, 0), MAX_DEPTH as nat) {
        Some(end) => skip_space(s, end) == s.len(),
        None => false,
    }
}

/// How often a name occurs among the members of an object, and with what.
pub enum Pick {
    /// No member carries the name.
    Absent,
    /// One member carries the name; its value is this text, or something
    /// that is no string.
    One(Option<Seq<u8>>),
    /// More than one member carries the name.
    Many,
}

/// What is known of `name` once `member` has been seen, where `seen` was known
/// before.
pub open spec fn pick_next(seen: Pick, member: Member, name: Seq<u8>) -> Pick {
    if member.name != name {
        seen
    } else {
        match seen {
            Pick::Absent => Pick::One(member.text),
            _ => Pick::Many,
        }
    }
}

/// Looks for `name` among `members`.
pub open spec fn pick(members: Seq<Member>, name: Seq<u8>) -> Pick
    decreases members.len(),
{
    if members.len() == 0 {
        Pick::Absent
    } else {
        pick_next(pick(members.drop_last(), name), members.last(), name)
    }
}

/// The text of the member `name`, where the document `s` is an object in
/// which exactly one member carries that name, and its value is a string.
pub open spec fn text_member(s: Seq<u8>, name: Seq<u8>) -> Option<Seq<u8>> {
    match document(s) {
        Some(members) => match pick(members, name) {
            Pick::One(Some(text)) => Some(text),
            _ => None,
        },
        None => None,
    }
}

} // verus!
