//! Colors of the theme mini-language: an RGB triple parsed from a hex
//! field, or "unset" (an empty field), which means inherit/transparent.
use vstd::prelude::*;
use vstd::slice::slice_index_get;

verus! {

/// An RGB triple. A mini-language field that is empty stays `None` at the
/// use site rather than becoming any concrete color.
#[derive(Clone, Copy, PartialEq, Eq, Structural, Debug)]
pub struct Color {
    pub r: u8,
    pub g: u8,
    pub b: u8,
}

pub open spec fn is_hex_digit(c: char) -> bool {
    ('0' as int <= c as int && c as int <= '9' as int)
    || ('a' as int <= c as int && c as int <= 'f' as int)
    || ('A' as int <= c as int && c as int <= 'F' as int)
}

pub open spec fn hex_val(c: char) -> int {
    if '0' as int <= c as int && c as int <= '9' as int {
        c as int - '0' as int
    } else if 'a' as int <= c as int && c as int <= 'f' as int {
        c as int - 'a' as int + 10
    } else {
        c as int - 'A' as int + 10
    }
}

/// The hex digits of a color field, with an optional leading `#` removed.
pub open spec fn hex_body(s: Seq<char>) -> Seq<char> {
    if s.len() > 0 && s[0] == '#' {
        s.drop_first()
    } else {
        s
    }
}

/// A well-formed color field: six hex digits, case-insensitive, with or
/// without a leading `#`.
pub open spec fn valid_hex_color(s: Seq<char>) -> bool {
    hex_body(s).len() == 6 && (forall|i: int| 0 <= i < 6 ==> is_hex_digit(#[trigger] hex_body(s)[i]))
}

pub open spec fn hex_pair_val(a: char, b: char) -> int {
    16 * hex_val(a) + hex_val(b)
}

/// The color denoted by a well-formed hex field.
pub open spec fn color_of_hex(s: Seq<char>) -> Color {
    let t = hex_body(s);
    Color {
        r: hex_pair_val(t[0], t[1]) as u8,
        g: hex_pair_val(t[2], t[3]) as u8,
        b: hex_pair_val(t[4], t[5]) as u8,
    }
}

/// What parsing one color field yields: `None` for a malformed field,
/// `Some(None)` for an empty (unset) field, `Some(Some(c))` for a valid hex
/// color.
pub open spec fn parse_color_field(s: Seq<char>) -> Option<Option<Color>> {
    if s.len() == 0 {
        Some(None)
    } else if valid_hex_color(s) {
        Some(Some(color_of_hex(s)))
    } else {
        None
    }
}

fn is_hex_digit_exec(c: char) -> (r: bool)
    ensures
        r == is_hex_digit(c),
{
    let u = c as u32;
    (('0' as u32) <= u && u <= ('9' as u32))
    || (('a' as u32) <= u && u <= ('f' as u32))
    || (('A' as u32) <= u && u <= ('F' as u32))
}

fn hex_val_exec(c: char) -> (r: u8)
    requires
        is_hex_digit(c),
    ensures
        r as int == hex_val(c),
        r < 16,
{
    let u = c as u32;
    if ('0' as u32) <= u && u <= ('9' as u32) {
        (u - ('0' as u32)) as u8
    } else if ('a' as u32) <= u && u <= ('f' as u32) {
        (u - ('a' as u32) + 10) as u8
    } else {
        (u - ('A' as u32) + 10) as u8
    }
}

/// Parses one color field of the mini-language, given as a sequence of
/// characters: empty means unset, otherwise six hex digits with an optional
/// leading `#`; anything else is malformed (`None`).
pub fn parse_color_chars(field: &[char]) -> (r: Option<Option<Color>>)
    ensures
        r == parse_color_field(field@),
{
    if field.len() == 0 {
        return Some(None);
    }
    let start: usize = if *slice_index_get(field, 0) == '#' { 1 } else { 0 };
    if field.len() - start != 6 {
        assert(hex_body(field@).len() != 6);
        return None;
    }
    assert(hex_body(field@) =~= field@.skip(start as int));
    let mut i: usize = 0;
    while i < 6
        invariant
            0 <= i <= 6,
            start + 6 == field.len(),
            start == 0 || start == 1,
            start == 1 ==> field@[0] == '#',
            start == 0 ==> field@.len() == 0 || field@[0] != '#',
            hex_body(field@) == field@.skip(start as int),
            forall|j: int| 0 <= j < i ==> is_hex_digit(#[trigger] hex_body(field@)[j]),
        decreases 6 - i,
    {
        let c = *slice_index_get(field, start + i);
        if !is_hex_digit_exec(c) {
            assert(!is_hex_digit(hex_body(field@)[i as int]));
            return None;
        }
        assert(is_hex_digit(hex_body(field@)[i as int]));
        i += 1;
    }
    assert(valid_hex_color(field@));
    let t0 = hex_val_exec(*slice_index_get(field, start));
    let t1 = hex_val_exec(*slice_index_get(field, start + 1));
    let t2 = hex_val_exec(*slice_index_get(field, start + 2));
    let t3 = hex_val_exec(*slice_index_get(field, start + 3));
    let t4 = hex_val_exec(*slice_index_get(field, start + 4));
    let t5 = hex_val_exec(*slice_index_get(field, start + 5));
    let c = Color {
        r: 16 * t0 + t1,
        g: 16 * t2 + t3,
        b: 16 * t4 + t5,
    };
    assert(c == color_of_hex(field@));
    Some(Some(c))
}

/// Parses one color field given as text.
pub fn parse_hex_color(s: &str) -> (r: Option<Option<Color>>)
    ensures
        r == parse_color_field(s@),
{
    let chars = crate::text::str_to_chars(s);
    parse_color_chars(chars.as_slice())
}

} // verus!
