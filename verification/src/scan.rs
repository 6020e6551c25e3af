//! The scanner: finds word-bounded hexadecimal color tokens in text.
//!
//! A color token is a maximal run of 6 (long form) or 3 (short form) hex
//! digits, optionally preceded by `#`, delimited by word boundaries. Word
//! characters are ASCII letters, ASCII digits and `_`; every other character
//! (including any non-ASCII character) delimits tokens. The text is scanned
//! left to right; at each position the long form is tried before the short
//! form, and scanning resumes after the end of each token found.

use vstd::prelude::*;
use vstd::string::StrSliceExecFns;

use crate::color::{
    byte_of_digit, byte_of_pair, candidate_color, is_hex_char, Color, ColorCandidate,
};

verus! {

/// Whether `c` is a word character: an ASCII letter, an ASCII digit or `_`.
pub open spec fn is_word_char(c: char) -> bool {
    (('0' as u32) <= (c as u32) && (c as u32) <= ('9' as u32)) || (('a' as u32) <= (c as u32) && (c
        as u32) <= ('z' as u32)) || (('A' as u32) <= (c as u32) && (c as u32) <= ('Z' as u32)) || c
        == '_'
}

/// Whether position `i` of `s` holds a word character (out-of-range positions do not).
pub open spec fn word_at(s: Seq<char>, i: int) -> bool {
    0 <= i < s.len() && is_word_char(s[i])
}

/// Whether a word boundary lies just before position `i`: exactly one of the
/// neighbouring positions holds a word character; the edges of the text count
/// as non-word.
pub open spec fn boundary(s: Seq<char>, i: int) -> bool {
    word_at(s, i - 1) != word_at(s, i)
}

/// Whether positions `i` to `i + n` of `s` all hold hex digits.
pub open spec fn hex_run(s: Seq<char>, i: int, n: int) -> bool {
    0 <= i && i + n <= s.len() && (forall|k: int| i <= k < i + n ==> is_hex_char(s[k]))
}

/// Where the digits of a candidate token starting at `i` begin: just past the
/// optional leading `#`.
pub open spec fn digits_start(s: Seq<char>, i: int) -> int {
    if 0 <= i < s.len() && s[i] == '#' {
        i + 1
    } else {
        i
    }
}

/// Whether a long-form token (6 hex digits, optional `#`) starts at `i`:
/// a word boundary, the digits, and a closing word boundary.
pub open spec fn long_match_at(s: Seq<char>, i: int) -> bool {
    boundary(s, i) && hex_run(s, digits_start(s, i), 6) && boundary(s, digits_start(s, i) + 6)
}

/// Whether a short-form token (3 hex digits, optional `#`) starts at `i`.
pub open spec fn short_match_at(s: Seq<char>, i: int) -> bool {
    boundary(s, i) && hex_run(s, digits_start(s, i), 3) && boundary(s, digits_start(s, i) + 3)
}

/// Whether a color token starts at `i`.
pub open spec fn match_at(s: Seq<char>, i: int) -> bool {
    long_match_at(s, i) || short_match_at(s, i)
}

/// The position just past the token starting at `i` (long form wins when both
/// forms could start here; meaningful only when `match_at(s, i)` holds).
pub open spec fn match_end(s: Seq<char>, i: int) -> int {
    if long_match_at(s, i) {
        digits_start(s, i) + 6
    } else {
        digits_start(s, i) + 3
    }
}

/// The color denoted by the token starting at `i` (meaningful only when
/// `match_at(s, i)` holds): two digits per component in long form, one
/// duplicated digit per component in short form.
pub open spec fn color_at(s: Seq<char>, i: int) -> Color {
    let d = digits_start(s, i);
    if long_match_at(s, i) {
        Color {
            red: byte_of_pair(s[d], s[d + 1]),
            green: byte_of_pair(s[d + 2], s[d + 3]),
            blue: byte_of_pair(s[d + 4], s[d + 5]),
        }
    } else {
        Color { red: byte_of_digit(s[d]), green: byte_of_digit(s[d + 1]), blue: byte_of_digit(s[d + 2]) }
    }
}

/// The colors of all tokens found from position `i` on, in scan order, with
/// one entry per token (duplicates included).
pub open spec fn scan_colors(s: Seq<char>, i: int) -> Seq<Color>
    decreases s.len() - i,
{
    if i >= s.len() {
        Seq::empty()
    } else if match_at(s, i) {
        seq![color_at(s, i)] + scan_colors(s, match_end(s, i))
    } else {
        scan_colors(s, i + 1)
    }
}

/// Whether `c` is a word character.
fn word_char(c: char) -> (b: bool)
    ensures
        b == is_word_char(c),
{
    let x = c as u32;
    (48 <= x && x <= 57) || (97 <= x && x <= 122) || (65 <= x && x <= 90) || c == '_'
}

/// Whether a word boundary lies just before position `i` of `cs`.
fn boundary_at(cs: &Vec<char>, i: usize) -> (b: bool)
    requires
        i <= cs@.len(),
    ensures
        b == boundary(cs@, i as int),
{
    let left = i > 0 && word_char(cs[i - 1]);
    let right = i < cs.len() && word_char(cs[i]);
    left != right
}

/// Whether positions `i` to `i + n` of `cs` all hold hex digits.
fn hex_run_at(cs: &Vec<char>, i: usize, n: usize) -> (b: bool)
    requires
        i + n <= cs@.len(),
    ensures
        b == hex_run(cs@, i as int, n as int),
{
    proof {
        // The vector's length fits in usize, so `i + n` cannot overflow.
        broadcast use vstd::std_specs::vec::axiom_spec_len;

        assert(cs.len() == cs@.len());
    }
    let end = i + n;
    let mut k = i;
    while k < end
        invariant
            i <= k <= end,
            end == i + n,
            i + n <= cs@.len(),
            forall|j: int| i <= j < k ==> is_hex_char(cs@[j]),
        decreases end - k,
    {
        if !crate::color::hex_char(cs[k]) {
            assert(!is_hex_char(cs@[k as int]));
            return false;
        }
        k += 1;
    }
    true
}

/// Looks for a color token starting at `i`, long form first. Returns the
/// form, the position of its first digit and the position just past it.
fn try_match_at(cs: &Vec<char>, i: usize) -> (r: Option<(bool, usize, usize)>)
    requires
        i < cs@.len(),
    ensures
        match r {
            Some(m) => {
                &&& match_at(cs@, i as int)
                &&& m.0 == long_match_at(cs@, i as int)
                &&& m.1 as int == digits_start(cs@, i as int)
                &&& m.2 as int == match_end(cs@, i as int)
            },
            None => !match_at(cs@, i as int),
        },
{
    let n = cs.len();
    if !boundary_at(cs, i) {
        return None;
    }
    let d: usize = if cs[i] == '#' {
        i + 1
    } else {
        i
    };
    if n >= 6 && d <= n - 6 && hex_run_at(cs, d, 6) && boundary_at(cs, d + 6) {
        return Some((true, d, d + 6));
    }
    if n >= 3 && d <= n - 3 && hex_run_at(cs, d, 3) && boundary_at(cs, d + 3) {
        return Some((false, d, d + 3));
    }
    None
}

/// Appending an element to a sequence adds exactly that element to its
/// contents.
proof fn lemma_push_contains<A>(s: Seq<A>, e: A, x: A)
    ensures
        s.push(e).contains(x) <==> (s.contains(x) || x == e),
{
    if s.push(e).contains(x) {
        let i = choose|i: int| 0 <= i < s.push(e).len() && s.push(e)[i] == x;
        if i < s.len() {
            assert(s[i] == x);
        }
    }
    if s.contains(x) {
        let i = choose|i: int| 0 <= i < s.len() && s[i] == x;
        assert(s.push(e)[i] == x);
    }
    if x == e {
        assert(s.push(e)[s.len() as int] == x);
    }
}

/// Whether `v` already holds the color `c`.
fn contains_color(v: &Vec<Color>, c: Color) -> (b: bool)
    ensures
        b == v@.contains(c),
{
    let mut k: usize = 0;
    while k < v.len()
        invariant
            k <= v@.len(),
            forall|j: int| 0 <= j < k ==> v@[j] != c,
        decreases v@.len() - k,
    {
        if v[k] == c {
            return true;
        }
        k += 1;
    }
    false
}

/// Scans `content` and returns the colors of all tokens found, without
/// duplicates: a color is in the result exactly when some token of the text
/// denotes it. The order of the result carries no meaning.
pub fn find_matches(content: &str) -> (r: Vec<Color>)
    ensures
        r@.no_duplicates(),
        forall|c: Color| r@.contains(c) <==> scan_colors(content@, 0).contains(c),
        r@.to_set() == scan_colors(content@, 0).to_set(),
{
    let n = content.unicode_len();
    let mut cs: Vec<char> = Vec::new();
    let mut i: usize = 0;
    while i < n
        invariant
            i <= n,
            n == content@.len(),
            cs@ =~= content@.subrange(0, i as int),
        decreases n - i,
    {
        cs.push(content.get_char(i));
        i += 1;
    }
    assert(cs@ =~= content@);

    let mut out: Vec<Color> = Vec::new();
    let ghost mut emitted: Seq<Color> = Seq::empty();
    let mut pos: usize = 0;
    while pos < n
        invariant
            pos <= n,
            n == cs@.len(),
            cs@ == content@,
            scan_colors(cs@, 0) =~= emitted + scan_colors(cs@, pos as int),
            out@.no_duplicates(),
            forall|c: Color| out@.contains(c) <==> emitted.contains(c),
        decreases n - pos,
    {
        match try_match_at(&cs, pos) {
            Some(m) => {
                let (is_long, d, end) = m;
                assert(match_end(cs@, pos as int) <= cs@.len());
                let cand = if is_long {
                    ColorCandidate {
                        long_red: Some(content.substring_char(d, d + 2).to_owned()),
                        long_green: Some(content.substring_char(d + 2, d + 4).to_owned()),
                        long_blue: Some(content.substring_char(d + 4, d + 6).to_owned()),
                        short_red: None,
                        short_green: None,
                        short_blue: None,
                    }
                } else {
                    ColorCandidate {
                        long_red: None,
                        long_green: None,
                        long_blue: None,
                        short_red: Some(content.substring_char(d, d + 1).to_owned()),
                        short_green: Some(content.substring_char(d + 1, d + 2).to_owned()),
                        short_blue: Some(content.substring_char(d + 2, d + 3).to_owned()),
                    }
                };
                let c_opt = Color::from_capture(&cand);
                proof {
                    let s = cs@;
                    let p = pos as int;
                    let dd = d as int;
                    if long_match_at(s, p) {
                        assert(hex_run(s, dd, 6));
                        assert(is_hex_char(s[dd]) && is_hex_char(s[dd + 1]) && is_hex_char(
                            s[dd + 2],
                        ) && is_hex_char(s[dd + 3]) && is_hex_char(s[dd + 4]) && is_hex_char(
                            s[dd + 5],
                        ));
                    } else {
                        assert(hex_run(s, dd, 3));
                        assert(is_hex_char(s[dd]) && is_hex_char(s[dd + 1]) && is_hex_char(
                            s[dd + 2],
                        ));
                    }
                    assert(candidate_color(cand) == Some(color_at(s, p)));
                }
                // A candidate that failed to decode would be skipped, not
                // abort the scan; the proof above shows that a matched
                // token always decodes.
                if let Some(c) = c_opt {
                    let ghost out_before = out@;
                    let ghost emitted_before = emitted;
                    if !contains_color(&out, c) {
                        out.push(c);
                    }
                    proof {
                        assert(scan_colors(cs@, pos as int) =~= seq![c] + scan_colors(
                            cs@,
                            match_end(cs@, pos as int),
                        ));
                        emitted = emitted_before.push(c);
                        assert(scan_colors(cs@, 0) =~= emitted + scan_colors(
                            cs@,
                            match_end(cs@, pos as int),
                        ));
                        assert forall|x: Color| out@.contains(x) <==> emitted.contains(x) by {
                            lemma_push_contains(emitted_before, c, x);
                            if !out_before.contains(c) {
                                lemma_push_contains(out_before, c, x);
                            }
                        }
                        if !out_before.contains(c) {
                            assert forall|i: int, j: int|
                                0 <= i < out@.len() && 0 <= j < out@.len() && i
                                    != j implies out@[i] != out@[j] by {
                                if i < out_before.len() && j < out_before.len() {
                                    assert(out_before[i] == out@[i] && out_before[j] == out@[j]);
                                } else if i < out_before.len() {
                                    assert(out_before[i] != c);
                                } else if j < out_before.len() {
                                    assert(out_before[j] != c);
                                }
                            }
                        }
                    }
                }
                pos = end;
            },
            None => {
                proof {
                    assert(scan_colors(cs@, pos as int) =~= scan_colors(cs@, pos as int + 1));
                }
                pos += 1;
            },
        }
    }
    proof {
        assert(scan_colors(cs@, pos as int) =~= Seq::<Color>::empty());
        assert(scan_colors(cs@, 0) =~= emitted);
        assert(out@.to_set() =~= scan_colors(cs@, 0).to_set());
    }
    out
}

} // verus!
