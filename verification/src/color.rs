//! The `Color` value type, hexadecimal digit arithmetic, and decoding of
//! matched tokens into colors.

use vstd::prelude::*;
use vstd::string::StrSliceExecFns;
use vstd::string::StringExecFns;

verus! {

/// An RGB color: three unsigned 8-bit components.
///
/// Equality is structural: two colors are equal exactly when all three
/// components match.
#[derive(Clone, Copy, Debug, PartialEq, Eq, Hash, Structural)]
pub struct Color {
    pub red: u8,
    pub green: u8,
    pub blue: u8,
}

/// Whether `c` is an ASCII hexadecimal digit (`0-9`, `a-f`, `A-F`).
pub open spec fn is_hex_char(c: char) -> bool {
    (('0' as u32) <= (c as u32) && (c as u32) <= ('9' as u32)) || (('a' as u32) <= (c as u32) && (c
        as u32) <= ('f' as u32)) || (('A' as u32) <= (c as u32) && (c as u32) <= ('F' as u32))
}

/// The numeric value of a hexadecimal digit (0 to 15 on hex digits).
pub open spec fn hex_val(c: char) -> u8 {
    if ('0' as u32) <= (c as u32) && (c as u32) <= ('9' as u32) {
        ((c as u32) - ('0' as u32)) as u8
    } else if ('a' as u32) <= (c as u32) && (c as u32) <= ('f' as u32) {
        ((c as u32) - ('a' as u32) + 10) as u8
    } else if ('A' as u32) <= (c as u32) && (c as u32) <= ('F' as u32) {
        ((c as u32) - ('A' as u32) + 10) as u8
    } else {
        0
    }
}

/// The byte written by the two hex digits `hi` then `lo`.
pub open spec fn byte_of_pair(hi: char, lo: char) -> u8 {
    (hex_val(hi) * 16 + hex_val(lo)) as u8
}

/// The byte a short-form digit expands to: the digit duplicated (`A` -> `0xAA`).
pub open spec fn byte_of_digit(d: char) -> u8 {
    (hex_val(d) * 17) as u8
}

/// The uppercase hexadecimal digit for a value below 16 (`0` for others).
pub open spec fn hex_upper_char(v: u8) -> char {
    if v == 0 {
        '0'
    } else if v == 1 {
        '1'
    } else if v == 2 {
        '2'
    } else if v == 3 {
        '3'
    } else if v == 4 {
        '4'
    } else if v == 5 {
        '5'
    } else if v == 6 {
        '6'
    } else if v == 7 {
        '7'
    } else if v == 8 {
        '8'
    } else if v == 9 {
        '9'
    } else if v == 10 {
        'A'
    } else if v == 11 {
        'B'
    } else if v == 12 {
        'C'
    } else if v == 13 {
        'D'
    } else if v == 14 {
        'E'
    } else if v == 15 {
        'F'
    } else {
        '0'
    }
}

/// The canonical rendering of a color: `#` followed by six uppercase hex
/// digits, two per component, zero-padded.
pub open spec fn canonical_chars(c: Color) -> Seq<char> {
    seq![
        '#',
        hex_upper_char(c.red / 16),
        hex_upper_char(c.red % 16),
        hex_upper_char(c.green / 16),
        hex_upper_char(c.green % 16),
        hex_upper_char(c.blue / 16),
        hex_upper_char(c.blue % 16),
    ]
}

/// The one-character string holding the uppercase hexadecimal digit for `v`.
fn hex_upper_str(v: u8) -> (r: &'static str)
    requires
        v < 16,
    ensures
        r@ =~= seq![hex_upper_char(v)],
{
    proof {
        reveal_strlit("0");
        reveal_strlit("1");
        reveal_strlit("2");
        reveal_strlit("3");
        reveal_strlit("4");
        reveal_strlit("5");
        reveal_strlit("6");
        reveal_strlit("7");
        reveal_strlit("8");
        reveal_strlit("9");
        reveal_strlit("A");
        reveal_strlit("B");
        reveal_strlit("C");
        reveal_strlit("D");
        reveal_strlit("E");
        reveal_strlit("F");
    }
    match v {
        0 => "0",
        1 => "1",
        2 => "2",
        3 => "3",
        4 => "4",
        5 => "5",
        6 => "6",
        7 => "7",
        8 => "8",
        9 => "9",
        10 => "A",
        11 => "B",
        12 => "C",
        13 => "D",
        14 => "E",
        _ => "F",
    }
}

impl Color {
    /// Builds a color from its three components.
    pub fn new(red: u8, green: u8, blue: u8) -> (c: Color)
        ensures
            c == (Color { red, green, blue }),
    {
        Color { red, green, blue }
    }

    /// Renders the color as its canonical `#RRGGBB` uppercase string.
    pub fn to_hex_string(&self) -> (r: String)
        ensures
            r@ == canonical_chars(*self),
    {
        proof {
            reveal_strlit("#");
        }
        let mut r = "#".to_owned();
        r.append(hex_upper_str(self.red / 16));
        r.append(hex_upper_str(self.red % 16));
        r.append(hex_upper_str(self.green / 16));
        r.append(hex_upper_str(self.green % 16));
        r.append(hex_upper_str(self.blue / 16));
        r.append(hex_upper_str(self.blue % 16));
        proof {
            assert(r@ =~= canonical_chars(*self));
        }
        r
    }
}

/// Whether `c` is an ASCII hexadecimal digit.
pub(crate) fn hex_char(c: char) -> (b: bool)
    ensures
        b == is_hex_char(c),
{
    let x = c as u32;
    (48 <= x && x <= 57) || (97 <= x && x <= 102) || (65 <= x && x <= 70)
}

/// The numeric value of a hexadecimal digit.
pub(crate) fn hex_value(c: char) -> (v: u8)
    requires
        is_hex_char(c),
    ensures
        v == hex_val(c),
{
    let x = c as u32;
    if 48 <= x && x <= 57 {
        (x - 48) as u8
    } else if 97 <= x && x <= 102 {
        (x - 97 + 10) as u8
    } else {
        (x - 65 + 10) as u8
    }
}

/// The byte written by the two hex digits `hi` then `lo`.
pub(crate) fn hex_pair_value(hi: char, lo: char) -> (v: u8)
    requires
        is_hex_char(hi),
        is_hex_char(lo),
    ensures
        v == byte_of_pair(hi, lo),
{
    hex_value(hi) * 16 + hex_value(lo)
}

/// A matched token's capture slots: either the three long (two-digit) slots
/// or the three short (one-digit) slots are filled, never a mixture. A
/// candidate that breaks that rule, or whose slots do not hold hex digits,
/// decodes to no color.
pub struct ColorCandidate {
    pub long_red: Option<String>,
    pub long_green: Option<String>,
    pub long_blue: Option<String>,
    pub short_red: Option<String>,
    pub short_green: Option<String>,
    pub short_blue: Option<String>,
}

/// The characters a slot holds, if it is filled.
pub open spec fn slot_view(s: Option<String>) -> Option<Seq<char>> {
    match s {
        Some(x) => Some(x@),
        None => None,
    }
}

/// What a two-hex-digit string decodes to: one byte, or nothing if the
/// string is not exactly two hex digits.
pub open spec fn pair_value(s: Seq<char>) -> Option<u8> {
    if s.len() == 2 && is_hex_char(s[0]) && is_hex_char(s[1]) {
        Some(byte_of_pair(s[0], s[1]))
    } else {
        None
    }
}

/// What one channel's pair of slots decodes to: the long slot read as a hex
/// pair, or the short slot's single digit duplicated; nothing when both or
/// neither slot is filled, or the digits are malformed.
pub open spec fn slot_component(long: Option<Seq<char>>, short: Option<Seq<char>>) -> Option<u8> {
    match (long, short) {
        (Some(l), None) => pair_value(l),
        (None, Some(sh)) => if sh.len() == 1 && is_hex_char(sh[0]) {
            Some(byte_of_digit(sh[0]))
        } else {
            None
        },
        _ => None,
    }
}

/// The color a candidate decodes to: all three channels must decode.
pub open spec fn candidate_color(cand: ColorCandidate) -> Option<Color> {
    match (
        slot_component(slot_view(cand.long_red), slot_view(cand.short_red)),
        slot_component(slot_view(cand.long_green), slot_view(cand.short_green)),
        slot_component(slot_view(cand.long_blue), slot_view(cand.short_blue)),
    ) {
        (Some(red), Some(green), Some(blue)) => Some(Color { red, green, blue }),
        _ => None,
    }
}

/// Decodes a string of exactly two hex digits to one byte. Anything else
/// decodes to nothing rather than failing the whole scan.
fn decode_hex_pair(s: &str) -> (r: Option<u8>)
    ensures
        r == pair_value(s@),
{
    if s.unicode_len() == 2 {
        let c0 = s.get_char(0);
        let c1 = s.get_char(1);
        if hex_char(c0) && hex_char(c1) {
            Some(hex_pair_value(c0, c1))
        } else {
            None
        }
    } else {
        None
    }
}

/// Doubles a one-character string (`"a"` becomes `"aa"`); a two-character
/// string is returned unchanged.
pub fn lengthen(s: &str) -> (r: String)
    requires
        s@.len() == 1 || s@.len() == 2,
    ensures
        s@.len() == 1 ==> r@ == s@ + s@,
        s@.len() == 2 ==> r@ == s@,
{
    let mut r = s.to_owned();
    if s.unicode_len() == 1 {
        r.append(s);
    }
    r
}

/// One channel's byte from its pair of capture slots, if they are well formed.
fn component_from_slots(long: &Option<String>, short: &Option<String>) -> (r: Option<u8>)
    ensures
        r == slot_component(slot_view(*long), slot_view(*short)),
{
    match (long, short) {
        (Some(l), None) => decode_hex_pair(l.as_str()),
        (None, Some(sh)) => {
            if sh.as_str().unicode_len() == 1 {
                let doubled = lengthen(sh.as_str());
                let r = decode_hex_pair(doubled.as_str());
                proof {
                    if is_hex_char(sh@[0]) {
                        assert((sh@ + sh@)[0] == sh@[0]);
                        assert((sh@ + sh@)[1] == sh@[0]);
                    }
                }
                r
            } else {
                None
            }
        },
        _ => None,
    }
}

impl Color {
    /// Decodes a candidate's capture slots into a color, or nothing when the
    /// slots are not exactly one well-formed long or short triple.
    pub fn from_capture(cand: &ColorCandidate) -> (r: Option<Color>)
        ensures
            r == candidate_color(*cand),
    {
        let red = component_from_slots(&cand.long_red, &cand.short_red);
        let green = component_from_slots(&cand.long_green, &cand.short_green);
        let blue = component_from_slots(&cand.long_blue, &cand.short_blue);
        match (red, green, blue) {
            (Some(r), Some(g), Some(b)) => Some(Color::new(r, g, b)),
            _ => None,
        }
    }
}

} // verus!
