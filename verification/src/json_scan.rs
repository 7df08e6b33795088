//! A reader for JSON texts. It goes through the bytes once and keeps to the
//! grammar of [`crate::json`]: it tells whether the bytes are a JSON text, and
//! takes the text of one member out of a document. Arrays and objects are read
//! in loops, so that only their nesting, which is bounded, takes stack.

use crate::json::{
    after_bytes, after_members, array_end, byte_is, digits_end, elements_end, escape, hex4,
    hex_digit, is_digit, json_text, lemma_escape_bounds, lemma_member_bounds, lemma_object_bounds,
    lemma_string_bounds, lemma_value_bounds, member_at, members_from, number_end, object_at, pick,
    pick_next, skip_space, string_at, string_tail, text_member, unicode_escape, value_end,
    word_end, word_false, word_null, word_true, Member, Pick, BACKSLASH, CLOSE_BRACE,
    CLOSE_BRACKET, COLON, COMMA, MAX_DEPTH, OPEN_BRACE, OPEN_BRACKET, QUOTE,
};
use crate::text::bytes_eq;
use vstd::prelude::*;
use vstd::utf8::*;

verus! {

/// Finds the first position at or behind `pos` that holds no white space.
fn skip_space_in(s: &[u8], pos: usize) -> (end: usize)
    requires
        pos <= s.len(),
    ensures
        end == skip_space(s@, pos as int),
        pos <= end <= s.len(),
{
    let mut i: usize = pos;
    while i < s.len() && (s[i] == 0x20 || s[i] == 0x09 || s[i] == 0x0A || s[i] == 0x0D)
        invariant
            pos <= i <= s.len(),
            skip_space(s@, pos as int) == skip_space(s@, i as int),
        decreases s.len() - i,
    {
        i += 1;
    }
    i
}

/// Finds the first position at or behind `pos` that holds no digit.
fn digits_end_in(s: &[u8], pos: usize) -> (end: usize)
    requires
        pos <= s.len(),
    ensures
        end == digits_end(s@, pos as int),
        pos <= end <= s.len(),
        pos < s.len() && is_digit(s@[pos as int]) ==> pos < end,
{
    let mut i: usize = pos;
    while i < s.len() && 0x30 <= s[i] && s[i] <= 0x39
        invariant
            pos <= i <= s.len(),
            digits_end(s@, pos as int) == digits_end(s@, i as int),
            pos < s.len() && is_digit(s@[pos as int]) && i == pos ==> is_digit(s@[i as int]),
        decreases s.len() - i,
    {
        i += 1;
    }
    i
}

/// Reads one hexadecimal digit.
fn hex_digit_of(b: u8) -> (value: Option<u32>)
    ensures
        value == hex_digit(b),
        value matches Some(v) ==> v < 16,
{
    if 0x30 <= b && b <= 0x39 {
        Some((b - 0x30) as u32)
    } else if 0x41 <= b && b <= 0x46 {
        Some((b - 0x41 + 10) as u32)
    } else if 0x61 <= b && b <= 0x66 {
        Some((b - 0x61 + 10) as u32)
    } else {
        None
    }
}

/// Reads the four hexadecimal digits at `pos`.
fn hex4_in(s: &[u8], pos: usize) -> (value: Option<u32>)
    requires
        pos <= s.len(),
    ensures
        value == hex4(s@, pos as int),
        value matches Some(v) ==> v <= 0xFFFF && pos + 4 <= s.len(),
{
    if s.len() - pos < 4 {
        return None;
    }
    let a = hex_digit_of(s[pos]);
    let b = hex_digit_of(s[pos + 1]);
    let c = hex_digit_of(s[pos + 2]);
    let d = hex_digit_of(s[pos + 3]);
    match (a, b, c, d) {
        (Some(a), Some(b), Some(c), Some(d)) => Some(a * 4096 + b * 256 + c * 16 + d),
        _ => None,
    }
}

/// Appends the UTF-8 encoding of `scalar` to `out`.
fn push_scalar(out: &mut Vec<u8>, scalar: u32)
    requires
        is_scalar(scalar),
    ensures
        final(out)@ == old(out)@ + encode_scalar(scalar),
{
    let ghost before = out@;
    if scalar <= 0x7F {
        out.push((scalar & 0x7F) as u8);
    } else if scalar <= 0x7FF {
        out.push(0xC0 | ((scalar >> 6) & 0x1F) as u8);
        out.push(0x80 | (scalar & 0x3F) as u8);
    } else if scalar <= 0xFFFF {
        out.push(0xE0 | ((scalar >> 12) & 0x0F) as u8);
        out.push(0x80 | ((scalar >> 6) & 0x3F) as u8);
        out.push(0x80 | (scalar & 0x3F) as u8);
    } else {
        out.push(0xF0 | ((scalar >> 18) & 0x7) as u8);
        out.push(0x80 | ((scalar >> 12) & 0x3F) as u8);
        out.push(0x80 | ((scalar >> 6) & 0x3F) as u8);
        out.push(0x80 | (scalar & 0x3F) as u8);
    }
    assert(out@ =~= before + encode_scalar(scalar));
}

/// Reads the `\u` escape whose digits start at `pos`, and appends the bytes
/// that it stands for to `out`.
fn unicode_escape_in(s: &[u8], pos: usize, out: &mut Vec<u8>) -> (next: Option<usize>)
    requires
        pos <= s.len(),
    ensures
        match unicode_escape(s@, pos as int) {
            Some((bytes, end)) => next == Some(end as usize) && final(out)@ == old(out)@
                + bytes,
            None => next.is_none(),
        },
{
    let unit = match hex4_in(s, pos) {
        Some(unit) => unit,
        None => {
            return None;
        },
    };
    if 0xD800 <= unit && unit <= 0xDBFF {
        if s.len() - pos < 6 || s[pos + 4] != BACKSLASH || s[pos + 5] != 0x75 {
            return None;
        }
        let low = match hex4_in(s, pos + 6) {
            Some(low) => low,
            None => {
                return None;
            },
        };
        if 0xDC00 <= low && low <= 0xDFFF {
            let scalar: u32 = 0x10000 + (unit - 0xD800) * 0x400 + (low - 0xDC00);
            push_scalar(out, scalar);
            Some(pos + 10)
        } else {
            None
        }
    } else if 0xDC00 <= unit && unit <= 0xDFFF {
        None
    } else {
        push_scalar(out, unit);
        Some(pos + 4)
    }
}

/// Reads the escape whose letter stands at `pos`, and appends the bytes that it
/// stands for to `out`.
fn escape_in(s: &[u8], pos: usize, out: &mut Vec<u8>) -> (next: Option<usize>)
    requires
        pos <= s.len(),
    ensures
        match escape(s@, pos as int) {
            Some((bytes, end)) => next == Some(end as usize) && final(out)@ == old(out)@
                + bytes,
            None => next.is_none(),
        },
{
    if pos >= s.len() {
        return None;
    }
    let ghost before = out@;
    let b = s[pos];
    let plain: u8 = if b == QUOTE || b == BACKSLASH || b == 0x2F {
        b
    } else if b == 0x62 {
        0x08
    } else if b == 0x66 {
        0x0C
    } else if b == 0x6E {
        0x0A
    } else if b == 0x72 {
        0x0D
    } else if b == 0x74 {
        0x09
    } else if b == 0x75 {
        return unicode_escape_in(s, pos + 1, out);
    } else {
        return None;
    };
    out.push(plain);
    assert(out@ =~= before + seq![plain]);
    Some(pos + 1)
}

/// Putting bytes before a result in two steps is putting them before it at once.
proof fn lemma_after_bytes_twice(a: Seq<u8>, b: Seq<u8>, found: Option<(Seq<u8>, int)>)
    ensures
        after_bytes(a, after_bytes(b, found)) == after_bytes(a + b, found),
{
    match found {
        Some((rest, end)) => {
            assert(a + (b + rest) =~= (a + b) + rest);
        },
        None => {},
    }
}

/// Reads the string that starts at `pos`.
fn string_in(s: &[u8], pos: usize) -> (found: Option<(Vec<u8>, usize)>)
    requires
        pos <= s.len(),
    ensures
        match found {
            Some((bytes, end)) => string_at(s@, pos as int) == Some((bytes@, end as int)),
            None => string_at(s@, pos as int).is_none(),
        },
{
    if pos >= s.len() || s[pos] != QUOTE {
        return None;
    }
    let mut out: Vec<u8> = Vec::new();
    let mut i: usize = pos + 1;
    assert(after_bytes(out@, string_tail(s@, i as int)) == string_tail(s@, i as int)) by {
        match string_tail(s@, i as int) {
            Some((rest, end)) => {
                assert(out@ + rest =~= rest);
            },
            None => {},
        }
    }
    loop
        invariant
            pos < i <= s.len(),
            s@[pos as int] == QUOTE,
            string_tail(s@, pos + 1) == after_bytes(out@, string_tail(s@, i as int)),
        decreases s.len() - i,
    {
        if i >= s.len() {
            return None;
        }
        let b = s[i];
        if b == QUOTE {
            assert(out@ + Seq::<u8>::empty() =~= out@);
            return Some((out, i + 1));
        }
        if b < 0x20 {
            return None;
        }
        let ghost before = out@;
        if b == BACKSLASH {
            match escape_in(s, i + 1, &mut out) {
                Some(next) => {
                    proof {
                        let bytes = escape(s@, i + 1).unwrap().0;
                        lemma_escape_bounds(s@, i + 1);
                        lemma_after_bytes_twice(before, bytes, string_tail(s@, next as int));
                    }
                    i = next;
                },
                None => {
                    return None;
                },
            }
        } else {
            out.push(b);
            proof {
                lemma_after_bytes_twice(before, seq![b], string_tail(s@, i + 1));
                assert(before + seq![b] =~= out@);
            }
            i += 1;
        }
    }
}

/// Finds the end of the number that starts at `pos`.
fn number_in(s: &[u8], pos: usize) -> (found: Option<usize>)
    requires
        pos <= s.len(),
    ensures
        match found {
            Some(end) => number_end(s@, pos as int) == Some(end as int),
            None => number_end(s@, pos as int).is_none(),
        },
{
    let n = s.len();
    let whole: usize = if pos < n && s[pos] == 0x2D {
        pos + 1
    } else {
        pos
    };
    if !(whole < n && 0x30 <= s[whole] && s[whole] <= 0x39) {
        return None;
    }
    let point: usize = if s[whole] == 0x30 {
        whole + 1
    } else {
        digits_end_in(s, whole)
    };
    let mark: usize = if point < n && s[point] == 0x2E {
        if !(point + 1 < n && 0x30 <= s[point + 1] && s[point + 1] <= 0x39) {
            return None;
        }
        digits_end_in(s, point + 1)
    } else {
        point
    };
    if mark < n && (s[mark] == 0x65 || s[mark] == 0x45) {
        let power: usize = if mark + 1 < n && (s[mark + 1] == 0x2B || s[mark + 1] == 0x2D) {
            mark + 2
        } else {
            mark + 1
        };
        if power < n && 0x30 <= s[power] && s[power] <= 0x39 {
            Some(digits_end_in(s, power))
        } else {
            None
        }
    } else {
        Some(mark)
    }
}

/// Finds the end of `word`, where it stands at `pos`.
fn word_in(s: &[u8], pos: usize, word: &[u8]) -> (found: Option<usize>)
    requires
        pos <= s.len(),
    ensures
        match found {
            Some(end) => word_end(s@, pos as int, word@) == Some(end as int),
            None => word_end(s@, pos as int, word@).is_none(),
        },
{
    if s.len() - pos < word.len() {
        return None;
    }
    let mut i: usize = 0;
    while i < word.len()
        invariant
            i <= word.len(),
            pos + word.len() <= s.len(),
            forall|j: int| 0 <= j < i ==> s@[pos + j] == word@[j],
        decreases word.len() - i,
    {
        if s[pos + i] != word[i] {
            assert(s@.subrange(pos as int, pos + word@.len())[i as int] != word@[i as int]);
            return None;
        }
        i += 1;
    }
    assert(s@.subrange(pos as int, pos + word@.len()) =~= word@);
    Some(pos + word.len())
}

/// What the reader knows of the member that it looks for.
#[derive(Debug)]
pub enum Picked {
    Absent,
    One(Option<Vec<u8>>),
    Many,
}

/// The mathematical value of the text of a member.
pub open spec fn text_view(text: Option<Vec<u8>>) -> Option<Seq<u8>> {
    match text {
        Some(bytes) => Some(bytes@),
        None => None,
    }
}

impl View for Picked {
    type V = Pick;

    open spec fn view(&self) -> Pick {
        match self {
            Picked::Absent => Pick::Absent,
            Picked::One(text) => Pick::One(text_view(*text)),
            Picked::Many => Pick::Many,
        }
    }
}

/// Takes one more member into account.
fn pick_step(seen: Picked, name: &Vec<u8>, text: Option<Vec<u8>>, wanted: &[u8]) -> (now: Picked)
    ensures
        now@ == pick_next(seen@, Member { name: name@, text: text_view(text) }, wanted@),
{
    if !bytes_eq(name.as_slice(), wanted) {
        seen
    } else {
        match seen {
            Picked::Absent => Picked::One(text),
            _ => Picked::Many,
        }
    }
}

/// Finds the end of the value that starts at `pos`.
fn value_in(s: &[u8], pos: usize, depth: usize, wanted: &[u8]) -> (found: Option<usize>)
    requires
        pos <= s.len(),
    ensures
        match found {
            Some(end) => value_end(s@, pos as int, depth as nat) == Some(end as int),
            None => value_end(s@, pos as int, depth as nat).is_none(),
        },
    decreases depth, 1int,
{
    if pos >= s.len() {
        return None;
    }
    let b = s[pos];
    if b == QUOTE {
        match string_in(s, pos) {
            Some((_, end)) => Some(end),
            None => None,
        }
    } else if b == OPEN_BRACE {
        match object_in(s, pos, depth, wanted) {
            Some((_, end)) => Some(end),
            None => None,
        }
    } else if b == OPEN_BRACKET {
        array_in(s, pos, depth, wanted)
    } else if b == 0x74 {
        let word: [u8; 4] = [0x74, 0x72, 0x75, 0x65];
        assert(word@ =~= word_true());
        word_in(s, pos, word.as_slice())
    } else if b == 0x66 {
        let word: [u8; 5] = [0x66, 0x61, 0x6C, 0x73, 0x65];
        assert(word@ =~= word_false());
        word_in(s, pos, word.as_slice())
    } else if b == 0x6E {
        let word: [u8; 4] = [0x6E, 0x75, 0x6C, 0x6C];
        assert(word@ =~= word_null());
        word_in(s, pos, word.as_slice())
    } else {
        number_in(s, pos)
    }
}

/// Finds the end of the array that starts at `pos`.
fn array_in(s: &[u8], pos: usize, depth: usize, wanted: &[u8]) -> (found: Option<usize>)
    requires
        pos <= s.len(),
    ensures
        match found {
            Some(end) => array_end(s@, pos as int, depth as nat) == Some(end as int),
            None => array_end(s@, pos as int, depth as nat).is_none(),
        },
    decreases depth, 0int,
{
    let n = s.len();
    if !(pos < n && s[pos] == OPEN_BRACKET) || depth == 0 {
        return None;
    }
    let first = skip_space_in(s, pos + 1);
    if first < n && s[first] == CLOSE_BRACKET {
        return Some(first + 1);
    }
    let mut cur: usize = first;
    loop
        invariant
            n == s.len(),
            pos < cur <= n,
            depth > 0,
            array_end(s@, pos as int, depth as nat) == elements_end(
                s@,
                first as int,
                (depth - 1) as nat,
            ),
            elements_end(s@, first as int, (depth - 1) as nat) == elements_end(
                s@,
                cur as int,
                (depth - 1) as nat,
            ),
        decreases n - cur,
    {
        let end = match value_in(s, cur, depth - 1, wanted) {
            Some(end) => end,
            None => {
                return None;
            },
        };
        proof {
            lemma_value_bounds(s@, cur as int, (depth - 1) as nat);
        }
        let mark = skip_space_in(s, end);
        if mark < n && s[mark] == CLOSE_BRACKET {
            return Some(mark + 1);
        }
        if mark < n && s[mark] == COMMA {
            cur = skip_space_in(s, mark + 1);
        } else {
            return None;
        }
    }
}

/// Reads the member that starts at `pos`.
fn member_in(s: &[u8], pos: usize, depth: usize, wanted: &[u8]) -> (found: Option<
    (Vec<u8>, Option<Vec<u8>>, usize),
>)
    requires
        pos <= s.len(),
    ensures
        match found {
            Some((name, text, end)) => member_at(s@, pos as int, depth as nat) == Some(
                (Member { name: name@, text: text_view(text) }, end as int),
            ),
            None => member_at(s@, pos as int, depth as nat).is_none(),
        },
    decreases depth, 2int,
{
    let n = s.len();
    let (name, end) = match string_in(s, pos) {
        Some(found) => found,
        None => {
            return None;
        },
    };
    proof {
        lemma_string_bounds(s@, pos as int);
    }
    let mark = skip_space_in(s, end);
    if !(mark < n && s[mark] == COLON) {
        return None;
    }
    let start = skip_space_in(s, mark + 1);
    if start < n && s[start] == QUOTE {
        match string_in(s, start) {
            Some((text, after)) => Some((name, Some(text), after)),
            None => None,
        }
    } else {
        match value_in(s, start, depth, wanted) {
            Some(after) => Some((name, None, after)),
            None => None,
        }
    }
}

/// Putting no members before a result leaves it as it is.
proof fn lemma_after_no_members(found: Option<(Seq<Member>, int)>)
    ensures
        after_members(Seq::<Member>::empty(), found) == found,
{
    match found {
        Some((rest, end)) => {
            assert(Seq::<Member>::empty() + rest =~= rest);
        },
        None => {},
    }
}

/// One round of reading members: behind the member at `cur` the object ends,
/// or goes on behind a comma, or is no object.
proof fn lemma_members_step(s: Seq<u8>, cur: int, depth: nat, seen: Seq<Member>, wanted: Seq<u8>)
    requires
        member_at(s, cur, depth).is_some(),
    ensures
        ({
            let (member, end) = member_at(s, cur, depth).unwrap();
            let mark = skip_space(s, end);
            let next = skip_space(s, mark + 1);
            let now = seen.push(member);
            &&& pick(now, wanted) == pick_next(pick(seen, wanted), member, wanted)
            &&& cur < end <= mark && byte_is(s, mark, CLOSE_BRACE) ==> after_members(
                seen,
                members_from(s, cur, depth),
            ) == Some((now, mark + 1))
            &&& cur < end <= mark < next <= s.len() && byte_is(s, mark, COMMA) ==> after_members(
                seen,
                members_from(s, cur, depth),
            ) == after_members(now, members_from(s, next, depth))
            &&& !byte_is(s, mark, CLOSE_BRACE) && !byte_is(s, mark, COMMA) ==> members_from(
                s,
                cur,
                depth,
            ).is_none()
        }),
{
    let (member, end) = member_at(s, cur, depth).unwrap();
    let mark = skip_space(s, end);
    let next = skip_space(s, mark + 1);
    let now = seen.push(member);
    assert(now.drop_last() =~= seen);
    assert(seen + seq![member] =~= now);
    if cur < end <= mark < next <= s.len() && byte_is(s, mark, COMMA) {
        match members_from(s, next, depth) {
            Some((rest, after)) => {
                assert(seen + (seq![member] + rest) =~= now + rest);
            },
            None => {},
        }
    }
}

/// Reads the object that starts at `pos`, and looks for the member `wanted`
/// in it.
fn object_in(s: &[u8], pos: usize, depth: usize, wanted: &[u8]) -> (found: Option<(Picked, usize)>)
    requires
        pos <= s.len(),
    ensures
        match found {
            Some((picked, end)) => object_at(s@, pos as int, depth as nat) matches Some(
                (members, after),
            ) && after == end && picked@ == pick(members, wanted@),
            None => object_at(s@, pos as int, depth as nat).is_none(),
        },
    decreases depth, 0int,
{
    let n = s.len();
    if !(pos < n && s[pos] == OPEN_BRACE) || depth == 0 {
        return None;
    }
    let first = skip_space_in(s, pos + 1);
    if first < n && s[first] == CLOSE_BRACE {
        return Some((Picked::Absent, first + 1));
    }
    let ghost mut seen: Seq<Member> = Seq::empty();
    let mut picked = Picked::Absent;
    let mut cur: usize = first;
    proof {
        lemma_after_no_members(members_from(s@, cur as int, (depth - 1) as nat));
    }
    loop
        invariant
            n == s.len(),
            pos < cur <= n,
            depth > 0,
            object_at(s@, pos as int, depth as nat) == members_from(
                s@,
                first as int,
                (depth - 1) as nat,
            ),
            members_from(s@, first as int, (depth - 1) as nat) == after_members(
                seen,
                members_from(s@, cur as int, (depth - 1) as nat),
            ),
            picked@ == pick(seen, wanted@),
        decreases n - cur,
    {
        let (name, text, end) = match member_in(s, cur, depth - 1, wanted) {
            Some(found) => found,
            None => {
                return None;
            },
        };
        let ghost member = Member { name: name@, text: text_view(text) };
        proof {
            lemma_member_bounds(s@, cur as int, (depth - 1) as nat);
        }
        let mark = skip_space_in(s, end);
        picked = pick_step(picked, &name, text, wanted);
        proof {
            lemma_members_step(s@, cur as int, (depth - 1) as nat, seen, wanted@);
            seen = seen.push(member);
        }
        if mark < n && s[mark] == CLOSE_BRACE {
            return Some((picked, mark + 1));
        }
        if mark < n && s[mark] == COMMA {
            cur = skip_space_in(s, mark + 1);
        } else {
            return None;
        }
    }
}

/// Tells whether `body` is a JSON text.
pub fn is_json_text(body: &[u8]) -> (valid: bool)
    ensures
        valid == json_text(body@),
{
    let nothing: [u8; 0] = [];
    let first = skip_space_in(body, 0);
    match value_in(body, first, MAX_DEPTH, nothing.as_slice()) {
        Some(end) => {
            proof {
                lemma_value_bounds(body@, first as int, MAX_DEPTH as nat);
            }
            skip_space_in(body, end) == body.len()
        },
        None => false,
    }
}

/// Reads the document `body` and takes out the text of its member `name`.
pub fn text_member_of(body: &[u8], name: &[u8]) -> (text: Option<Vec<u8>>)
    ensures
        text_view(text) == text_member(body@, name@),
{
    let first = skip_space_in(body, 0);
    match object_in(body, first, MAX_DEPTH, name) {
        Some((picked, end)) => {
            proof {
                lemma_object_bounds(body@, first as int, MAX_DEPTH as nat);
            }
            if skip_space_in(body, end) != body.len() {
                return None;
            }
            match picked {
                Picked::One(Some(text)) => Some(text),
                _ => None,
            }
        },
        None => None,
    }
}

} // verus!
