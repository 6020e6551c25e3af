//! Properties of the scanner, stated and proved over its specification.

use vstd::prelude::*;

use crate::color::{
    byte_of_digit, byte_of_pair, canonical_chars, hex_upper_char, hex_val, is_hex_char, Color,
};
use crate::scan::{
    boundary, color_at, digits_start, hex_run, is_word_char, long_match_at, match_at, match_end,
    scan_colors, short_match_at, word_at,
};

verus! {

/// Every hex digit is a word character.
proof fn lemma_hex_is_word(c: char)
    requires
        is_hex_char(c),
    ensures
        is_word_char(c),
        c != '#',
{
}

/// Empty input yields no colors.
pub proof fn lemma_scan_empty(s: Seq<char>)
    requires
        s.len() == 0,
    ensures
        scan_colors(s, 0) =~= Seq::<Color>::empty(),
{
}

/// Text in which no position starts a color token — non-hex text, or hex
/// runs not isolated by word boundaries — yields no colors.
pub proof fn lemma_no_token_no_color(s: Seq<char>, i: int)
    requires
        0 <= i,
        forall|j: int| !match_at(s, j),
    ensures
        scan_colors(s, i) =~= Seq::<Color>::empty(),
    decreases s.len() - i,
{
    if i < s.len() {
        lemma_no_token_no_color(s, i + 1);
    }
}

/// A text that is exactly one long-form color code — six hex digits, with or
/// without a leading `#` — yields exactly the color whose components are the
/// three decoded byte pairs.
pub proof fn lemma_scan_long_code(s: Seq<char>)
    requires
        s.len() == 6 || (s.len() == 7 && s[0] == '#'),
        forall|k: int| s.len() - 6 <= k < s.len() ==> is_hex_char(#[trigger] s[k]),
    ensures
        scan_colors(s, 0) =~= seq![
            Color {
                red: byte_of_pair(s[s.len() - 6], s[s.len() - 5]),
                green: byte_of_pair(s[s.len() - 4], s[s.len() - 3]),
                blue: byte_of_pair(s[s.len() - 2], s[s.len() - 1]),
            },
        ],
{
    let d = s.len() - 6;
    assert forall|k: int| d <= k < s.len() implies is_word_char(#[trigger] s[k]) && s[k] != '#' by {
        lemma_hex_is_word(s[k]);
    }
    assert(boundary(s, d));
    assert(digits_start(s, d) == d);
    assert(hex_run(s, d, 6));
    assert(boundary(s, d + 6));
    assert(long_match_at(s, d));
    assert(match_end(s, d) == s.len());
    assert(scan_colors(s, s.len() as int) =~= Seq::<Color>::empty());
    if s.len() == 7 {
        assert(!word_at(s, 0));
        assert(!boundary(s, 0));
        assert(!match_at(s, 0));
        assert(scan_colors(s, 0) == scan_colors(s, 1));
    }
    assert(scan_colors(s, d) =~= seq![color_at(s, d)] + scan_colors(s, s.len() as int));
}

/// A text that is exactly one short-form color code — three hex digits, with
/// or without a leading `#` — yields exactly the color whose components are
/// the three digits, each duplicated into a byte.
pub proof fn lemma_scan_short_code(s: Seq<char>)
    requires
        s.len() == 3 || (s.len() == 4 && s[0] == '#'),
        forall|k: int| s.len() - 3 <= k < s.len() ==> is_hex_char(#[trigger] s[k]),
    ensures
        scan_colors(s, 0) =~= seq![
            Color {
                red: byte_of_digit(s[s.len() - 3]),
                green: byte_of_digit(s[s.len() - 2]),
                blue: byte_of_digit(s[s.len() - 1]),
            },
        ],
{
    let d = s.len() - 3;
    assert forall|k: int| d <= k < s.len() implies is_word_char(#[trigger] s[k]) && s[k] != '#' by {
        lemma_hex_is_word(s[k]);
    }
    assert(boundary(s, d));
    assert(digits_start(s, d) == d);
    assert(!long_match_at(s, d));
    assert(hex_run(s, d, 3));
    assert(boundary(s, d + 3));
    assert(short_match_at(s, d));
    assert(match_end(s, d) == s.len());
    assert(scan_colors(s, s.len() as int) =~= Seq::<Color>::empty());
    if s.len() == 4 {
        assert(!word_at(s, 0));
        assert(!boundary(s, 0));
        assert(!match_at(s, 0));
        assert(scan_colors(s, 0) == scan_colors(s, 1));
    }
    assert(scan_colors(s, d) =~= seq![color_at(s, d)] + scan_colors(s, s.len() as int));
}

/// A text whose tokens all denote one color — the same code repeated, in
/// either form — yields exactly that one color.
pub proof fn lemma_repeated_code_single_color(s: Seq<char>, c: Color)
    requires
        scan_colors(s, 0).contains(c),
        forall|c2: Color| scan_colors(s, 0).contains(c2) ==> c2 == c,
    ensures
        scan_colors(s, 0).to_set() =~= set![c],
{
}

/// Rendering a digit value and reading it back is the identity.
proof fn lemma_hex_upper_char_val(v: u8)
    requires
        v < 16,
    ensures
        is_hex_char(hex_upper_char(v)),
        hex_val(hex_upper_char(v)) == v,
{
}

/// Round trip: rendering any color canonically and scanning the rendering
/// yields exactly that color.
pub proof fn lemma_canonical_round_trip(c: Color)
    ensures
        scan_colors(canonical_chars(c), 0) =~= seq![c],
{
    let s = canonical_chars(c);
    lemma_hex_upper_char_val(c.red / 16);
    lemma_hex_upper_char_val(c.red % 16);
    lemma_hex_upper_char_val(c.green / 16);
    lemma_hex_upper_char_val(c.green % 16);
    lemma_hex_upper_char_val(c.blue / 16);
    lemma_hex_upper_char_val(c.blue % 16);
    assert forall|k: int| 1 <= k < s.len() implies is_hex_char(#[trigger] s[k]) by {}
    lemma_scan_long_code(s);
    assert(byte_of_pair(s[1], s[2]) == c.red);
    assert(byte_of_pair(s[3], s[4]) == c.green);
    assert(byte_of_pair(s[5], s[6]) == c.blue);
}

/// Whether the junction between `s1` and `s2` is inert: either text is
/// empty, or one side of the junction holds a character that can take part
/// in no token — neither a word character nor `#`. No token can span such a
/// junction, and joining the texts neither creates nor destroys tokens.
pub open spec fn inert_junction(s1: Seq<char>, s2: Seq<char>) -> bool {
    s1.len() == 0 || s2.len() == 0 || (!is_word_char(s1.last()) && s1.last() != '#') || (
    !is_word_char(s2.first()) && s2.first() != '#')
}

/// Hex runs inside the left part of a concatenation are hex runs of the
/// left part, and the other way round.
proof fn lemma_append_hex_run_left(s1: Seq<char>, s2: Seq<char>, d: int, n: int)
    requires
        s1.len() > 0 && s2.len() > 0,
        inert_junction(s1, s2),
        0 <= d <= s1.len(),
        d == s1.len() ==> s1.last() == '#',
        n > 0,
    ensures
        hex_run(s1 + s2, d, n) == hex_run(s1, d, n),
{
    let t = s1 + s2;
    let n1 = s1.len() as int;
    if hex_run(s1, d, n) {
        assert forall|k: int| d <= k < d + n implies #[trigger] is_hex_char(t[k]) by {
            assert(is_hex_char(s1[k]));
        }
    }
    if hex_run(t, d, n) {
        if d + n > n1 {
            if d < n1 {
                assert(is_hex_char(t[n1 - 1]));
                assert(is_word_char(s1.last()));
                assert(is_hex_char(t[n1]));
                assert(is_word_char(s2.first()));
                assert(false);
            } else {
                assert(is_hex_char(t[n1]));
                assert(is_word_char(s2.first()));
                assert(false);
            }
        }
        assert forall|k: int| d <= k < d + n implies #[trigger] is_hex_char(s1[k]) by {
            assert(is_hex_char(t[k]));
        }
    }
}

/// A token of the concatenation starting inside the left part is a token of
/// the left part, with the same extent and color, and the other way round.
proof fn lemma_append_match_left(s1: Seq<char>, s2: Seq<char>, i: int)
    requires
        s1.len() > 0 && s2.len() > 0,
        inert_junction(s1, s2),
        0 <= i < s1.len(),
    ensures
        match_at(s1 + s2, i) == match_at(s1, i),
        match_at(s1, i) ==> match_end(s1 + s2, i) == match_end(s1, i) && match_end(s1, i)
            <= s1.len() && color_at(s1 + s2, i) == color_at(s1, i),
{
    let t = s1 + s2;
    let n1 = s1.len() as int;
    assert(t[i] == s1[i]);
    let d = digits_start(s1, i);
    assert(digits_start(t, i) == d);
    assert(boundary(t, i) == boundary(s1, i));
    assert(d == n1 ==> s1.last() == '#');
    lemma_append_hex_run_left(s1, s2, d, 6);
    lemma_append_hex_run_left(s1, s2, d, 3);
    if hex_run(s1, d, 6) {
        if d + 6 < n1 {
            assert(boundary(t, d + 6) == boundary(s1, d + 6));
        } else {
            assert(is_hex_char(s1[n1 - 1]));
            assert(is_word_char(s1.last()));
            assert(!is_word_char(s2.first()));
            assert(boundary(t, n1) == boundary(s1, n1));
        }
    }
    if hex_run(s1, d, 3) {
        if d + 3 < n1 {
            assert(boundary(t, d + 3) == boundary(s1, d + 3));
        } else {
            assert(is_hex_char(s1[n1 - 1]));
            assert(is_word_char(s1.last()));
            assert(!is_word_char(s2.first()));
            assert(boundary(t, n1) == boundary(s1, n1));
        }
    }
    assert(long_match_at(t, i) == long_match_at(s1, i));
    assert(short_match_at(t, i) == short_match_at(s1, i));
}

/// Hex runs inside the right part of a concatenation are hex runs of the
/// right part, shifted, and the other way round.
proof fn lemma_append_hex_run_right(s1: Seq<char>, s2: Seq<char>, d: int, n: int)
    requires
        0 <= d,
    ensures
        hex_run(s1 + s2, s1.len() + d, n) == hex_run(s2, d, n),
{
    let t = s1 + s2;
    let n1 = s1.len() as int;
    if hex_run(s2, d, n) {
        assert forall|k: int| n1 + d <= k < n1 + d + n implies #[trigger] is_hex_char(t[k]) by {
            assert(is_hex_char(s2[k - n1]));
        }
    }
    if hex_run(t, n1 + d, n) {
        assert forall|k: int| d <= k < d + n implies #[trigger] is_hex_char(s2[k]) by {
            assert(is_hex_char(t[n1 + k]));
        }
    }
}

/// A token of the concatenation starting at or after the junction is a
/// token of the right part, shifted, and the other way round.
proof fn lemma_append_match_right(s1: Seq<char>, s2: Seq<char>, j: int)
    requires
        s1.len() > 0 && s2.len() > 0,
        inert_junction(s1, s2),
        0 <= j,
    ensures
        match_at(s1 + s2, s1.len() + j) == match_at(s2, j),
        match_at(s2, j) ==> match_end(s1 + s2, s1.len() + j) == s1.len() + match_end(s2, j)
            && color_at(s1 + s2, s1.len() + j) == color_at(s2, j),
{
    let t = s1 + s2;
    let n1 = s1.len() as int;
    if j == 0 && is_word_char(s1.last()) {
        // The junction is inert through its right side: the first character
        // of `s2` can take part in no token, so neither text has one here.
        assert(!is_word_char(s2.first()) && s2.first() != '#');
        assert(digits_start(t, n1) == n1 && digits_start(s2, 0) == 0);
        assert(!is_hex_char(t[n1]));
        assert(!hex_run(t, n1, 6) && !hex_run(t, n1, 3));
        assert(!is_hex_char(s2[0]));
        assert(!hex_run(s2, 0, 6) && !hex_run(s2, 0, 3));
        assert(!match_at(t, n1) && !match_at(s2, 0));
    } else {
        assert(word_at(t, n1 + j - 1) == word_at(s2, j - 1));
        assert(word_at(t, n1 + j) == word_at(s2, j));
        assert(boundary(t, n1 + j) == boundary(s2, j));
        let d = digits_start(s2, j);
        if j < s2.len() {
            assert(t[n1 + j] == s2[j]);
        }
        assert(digits_start(t, n1 + j) == n1 + d);
        lemma_append_hex_run_right(s1, s2, d, 6);
        lemma_append_hex_run_right(s1, s2, d, 3);
        assert(word_at(t, n1 + d + 5) == word_at(s2, d + 5));
        assert(word_at(t, n1 + d + 6) == word_at(s2, d + 6));
        assert(boundary(t, n1 + d + 6) == boundary(s2, d + 6));
        assert(word_at(t, n1 + d + 2) == word_at(s2, d + 2));
        assert(word_at(t, n1 + d + 3) == word_at(s2, d + 3));
        assert(boundary(t, n1 + d + 3) == boundary(s2, d + 3));
        assert(long_match_at(t, n1 + j) == long_match_at(s2, j));
        assert(short_match_at(t, n1 + j) == short_match_at(s2, j));
        if match_at(s2, j) {
            assert(color_at(t, n1 + j) == color_at(s2, j));
        }
    }
}

/// Scanning the concatenation from a position at or past the junction
/// yields what scanning the right part from the shifted position yields.
proof fn lemma_append_scan_right(s1: Seq<char>, s2: Seq<char>, j: int)
    requires
        s1.len() > 0 && s2.len() > 0,
        inert_junction(s1, s2),
        0 <= j <= s2.len(),
    ensures
        scan_colors(s1 + s2, s1.len() + j) =~= scan_colors(s2, j),
    decreases s2.len() - j,
{
    if j < s2.len() {
        lemma_append_match_right(s1, s2, j);
        if match_at(s2, j) {
            assert(match_end(s2, j) <= s2.len());
            lemma_append_scan_right(s1, s2, match_end(s2, j));
        } else {
            lemma_append_scan_right(s1, s2, j + 1);
        }
    }
}

/// Scanning the concatenation from a position in the left part yields the
/// left part's remaining colors followed by all of the right part's.
proof fn lemma_append_scan_left(s1: Seq<char>, s2: Seq<char>, i: int)
    requires
        s1.len() > 0 && s2.len() > 0,
        inert_junction(s1, s2),
        0 <= i <= s1.len(),
    ensures
        scan_colors(s1 + s2, i) =~= scan_colors(s1, i) + scan_colors(s2, 0),
    decreases s1.len() - i,
{
    if i == s1.len() {
        lemma_append_scan_right(s1, s2, 0);
        assert(scan_colors(s1, i) =~= Seq::<Color>::empty());
    } else {
        lemma_append_match_left(s1, s2, i);
        if match_at(s1, i) {
            lemma_append_scan_left(s1, s2, match_end(s1, i));
        } else {
            lemma_append_scan_left(s1, s2, i + 1);
        }
    }
}

/// Joining two texts at an inert junction joins their scans: every token of
/// the concatenation lies wholly within one of the parts.
pub proof fn lemma_scan_append(s1: Seq<char>, s2: Seq<char>)
    requires
        inert_junction(s1, s2),
    ensures
        scan_colors(s1 + s2, 0) =~= scan_colors(s1, 0) + scan_colors(s2, 0),
{
    if s1.len() == 0 {
        assert(s1 + s2 =~= s2);
        assert(scan_colors(s1, 0) =~= Seq::<Color>::empty());
    } else if s2.len() == 0 {
        assert(s1 + s2 =~= s1);
        assert(scan_colors(s2, 0) =~= Seq::<Color>::empty());
    } else {
        lemma_append_scan_left(s1, s2, 0);
    }
}

/// One color code written twice, with an inert separator between — a space,
/// say — yields a set of exactly one color.
pub proof fn lemma_code_twice(w: Seq<char>, sep: Seq<char>, c: Color)
    requires
        scan_colors(w, 0) =~= seq![c],
        scan_colors(sep, 0) =~= Seq::<Color>::empty(),
        sep.len() > 0,
        !is_word_char(sep.first()) && sep.first() != '#',
        !is_word_char(sep.last()) && sep.last() != '#',
    ensures
        scan_colors(w + sep + w, 0).to_set() =~= set![c],
{
    lemma_scan_append(sep, w);
    assert((sep + w).first() == sep.first());
    lemma_scan_append(w, sep + w);
    assert(w + sep + w =~= w + (sep + w));
    assert(scan_colors(w + sep + w, 0) =~= seq![c, c]);
    assert(scan_colors(w + sep + w, 0).to_set() =~= set![c]);
}

/// Whether two characters are equal up to ASCII letter case.
pub open spec fn case_eq_char(a: char, b: char) -> bool {
    a == b || ((a as u32) + 32 == (b as u32) && ('A' as u32) <= (a as u32) && (a as u32) <= ('Z'
        as u32)) || ((b as u32) + 32 == (a as u32) && ('A' as u32) <= (b as u32) && (b as u32) <= (
    'Z' as u32))
}

/// Whether two texts are equal up to ASCII letter case.
pub open spec fn case_eq(s1: Seq<char>, s2: Seq<char>) -> bool {
    s1.len() == s2.len() && (forall|i: int|
        0 <= i < s1.len() ==> case_eq_char(#[trigger] s1[i], #[trigger] s2[i]))
}

/// Characters equal up to case agree on everything the scanner reads.
proof fn lemma_case_eq_char_props(a: char, b: char)
    requires
        case_eq_char(a, b),
    ensures
        is_word_char(a) == is_word_char(b),
        is_hex_char(a) == is_hex_char(b),
        is_hex_char(a) ==> hex_val(a) == hex_val(b),
        (a == '#') == (b == '#'),
{
    if a != b {
        assert(a != '#' && b != '#') by {
            assert(('#' as u32) == 35);
        }
    }
}

/// Texts equal up to case agree on word positions.
proof fn lemma_case_eq_word(s1: Seq<char>, s2: Seq<char>, i: int)
    requires
        case_eq(s1, s2),
    ensures
        word_at(s1, i) == word_at(s2, i),
        boundary(s1, i) == boundary(s2, i),
{
    if 0 <= i < s1.len() {
        lemma_case_eq_char_props(s1[i], s2[i]);
    }
    if 0 <= i - 1 < s1.len() {
        lemma_case_eq_char_props(s1[i - 1], s2[i - 1]);
    }
}

/// Texts equal up to case agree on hex runs.
proof fn lemma_case_eq_hex_run(s1: Seq<char>, s2: Seq<char>, d: int, n: int)
    requires
        case_eq(s1, s2),
    ensures
        hex_run(s1, d, n) == hex_run(s2, d, n),
{
    if hex_run(s1, d, n) {
        assert forall|k: int| d <= k < d + n implies #[trigger] is_hex_char(s2[k]) by {
            assert(is_hex_char(s1[k]));
            lemma_case_eq_char_props(s1[k], s2[k]);
        }
    }
    if hex_run(s2, d, n) {
        assert forall|k: int| d <= k < d + n implies #[trigger] is_hex_char(s1[k]) by {
            assert(is_hex_char(s2[k]));
            lemma_case_eq_char_props(s1[k], s2[k]);
        }
    }
}

/// Texts equal up to case agree on where tokens lie and what they denote.
proof fn lemma_case_eq_match(s1: Seq<char>, s2: Seq<char>, i: int)
    requires
        case_eq(s1, s2),
    ensures
        match_at(s1, i) == match_at(s2, i),
        match_at(s1, i) ==> match_end(s1, i) == match_end(s2, i) && color_at(s1, i) == color_at(
            s2,
            i,
        ),
{
    lemma_case_eq_word(s1, s2, i);
    if 0 <= i < s1.len() {
        lemma_case_eq_char_props(s1[i], s2[i]);
    }
    let d = digits_start(s1, i);
    assert(digits_start(s2, i) == d);
    lemma_case_eq_word(s1, s2, d + 6);
    lemma_case_eq_word(s1, s2, d + 3);
    lemma_case_eq_hex_run(s1, s2, d, 6);
    lemma_case_eq_hex_run(s1, s2, d, 3);
    assert(long_match_at(s1, i) == long_match_at(s2, i));
    assert(short_match_at(s1, i) == short_match_at(s2, i));
    if match_at(s1, i) {
        assert forall|k: int| d <= k < s1.len() && is_hex_char(s1[k]) implies hex_val(
            #[trigger] s1[k],
        ) == hex_val(#[trigger] s2[k]) by {
            lemma_case_eq_char_props(s1[k], s2[k]);
        }
        assert(color_at(s1, i) == color_at(s2, i));
    }
}

/// The induction behind case insensitivity: from any position on, texts
/// equal up to case yield the same colors.
proof fn lemma_case_eq_scan(s1: Seq<char>, s2: Seq<char>, i: int)
    requires
        case_eq(s1, s2),
        0 <= i,
    ensures
        scan_colors(s1, i) == scan_colors(s2, i),
    decreases s1.len() - i,
{
    if i < s1.len() {
        lemma_case_eq_match(s1, s2, i);
        if match_at(s1, i) {
            lemma_case_eq_scan(s1, s2, match_end(s1, i));
            assert(scan_colors(s1, i) =~= scan_colors(s2, i));
        } else {
            lemma_case_eq_scan(s1, s2, i + 1);
        }
    } else {
        assert(scan_colors(s1, i) =~= scan_colors(s2, i));
    }
}

/// Case insensitivity: texts that differ only in ASCII letter case yield
/// the same colors.
pub proof fn lemma_scan_case_insensitive(s1: Seq<char>, s2: Seq<char>)
    requires
        case_eq(s1, s2),
    ensures
        scan_colors(s1, 0) == scan_colors(s2, 0),
{
    lemma_case_eq_scan(s1, s2, 0);
}

} // verus!
