use hexcolor::color::{lengthen, Color, ColorCandidate};
use hexcolor::scan::find_matches;

#[test]
fn six_digit_plain() {
    let r = find_matches("336699");
    assert_eq!(r.len(), 1);
    assert!(r.contains(&Color::new(0x33, 0x66, 0x99)));
}

#[test]
fn six_digit_hash() {
    let r = find_matches("#336699");
    assert_eq!(r.len(), 1);
    assert!(r.contains(&Color::new(0x33, 0x66, 0x99)));
}

#[test]
fn six_digit_lowercase_letters() {
    let r = find_matches("#aabbcc");
    assert_eq!(r.len(), 1);
    assert!(r.contains(&Color::new(0xAA, 0xBB, 0xCC)));
}

#[test]
fn short_hash() {
    let r = find_matches("#F0A");
    assert_eq!(r.len(), 1);
    assert!(r.contains(&Color::new(0xFF, 0x00, 0xAA)));
}

#[test]
fn short_plain() {
    let r = find_matches("9af");
    assert_eq!(r.len(), 1);
    assert!(r.contains(&Color::new(0x99, 0xAA, 0xFF)));
}

#[test]
fn repeated_code_deduplicated() {
    let r = find_matches("#abc #abc");
    assert_eq!(r.len(), 1);
    assert!(r.contains(&Color::new(0xAA, 0xBB, 0xCC)));
}

#[test]
fn long_and_short_same_color_deduplicated() {
    // #ABC expands to the same bytes as AABBCC.
    let r = find_matches("#ABC AABBCC");
    assert_eq!(r.len(), 1);
    assert!(r.contains(&Color::new(0xAA, 0xBB, 0xCC)));
}

#[test]
fn case_insensitive_same_color() {
    let upper = find_matches("#AABBCC");
    let lower = find_matches("#aabbcc");
    assert_eq!(upper.len(), 1);
    assert_eq!(lower.len(), 1);
    assert_eq!(upper[0], lower[0]);
}

#[test]
fn seven_hex_digits_no_match() {
    assert!(find_matches("1234567").is_empty());
}

#[test]
fn eight_hex_digits_no_match() {
    assert!(find_matches("12345678").is_empty());
}

#[test]
fn hash_then_seven_digits_no_match() {
    assert!(find_matches("#1234567").is_empty());
}

#[test]
fn color_equality_is_structural() {
    assert_eq!(Color::new(1, 2, 3), Color::new(1, 2, 3));
    assert_ne!(Color::new(1, 2, 3), Color::new(1, 2, 4));
    assert_ne!(Color::new(1, 2, 3), Color::new(1, 4, 3));
    assert_ne!(Color::new(1, 2, 3), Color::new(4, 2, 3));
}

#[test]
fn embedded_short_code_no_match() {
    assert!(find_matches("x#fffx").is_empty());
}

#[test]
fn mixed_input_two_colors() {
    let r = find_matches("background: #336699; border: 9af;");
    assert_eq!(r.len(), 2);
    assert!(r.contains(&Color::new(0x33, 0x66, 0x99)));
    assert!(r.contains(&Color::new(0x99, 0xAA, 0xFF)));
}

#[test]
fn round_trip_canonical_rendering() {
    let colors = [
        Color::new(0x00, 0x00, 0x00),
        Color::new(0xFF, 0xFF, 0xFF),
        Color::new(0x12, 0xA0, 0x9F),
        Color::new(0x01, 0x02, 0x03),
    ];
    for c in colors {
        let text = c.to_hex_string();
        let r = find_matches(text.as_str());
        assert_eq!(r.len(), 1);
        assert!(r.contains(&c));
    }
}

#[test]
fn empty_input_empty_result() {
    assert!(find_matches("").is_empty());
}

#[test]
fn non_hex_text_empty_result() {
    assert!(find_matches("hello world").is_empty());
}

#[test]
fn hash_preceded_by_word_char_still_matches() {
    let r = find_matches("x#abc123");
    assert_eq!(r.len(), 1);
    assert!(r.contains(&Color::new(0xAB, 0xC1, 0x23)));
}

#[test]
fn adjacent_codes_both_found() {
    let r = find_matches("#abc#def");
    assert_eq!(r.len(), 2);
    assert!(r.contains(&Color::new(0xAA, 0xBB, 0xCC)));
    assert!(r.contains(&Color::new(0xDD, 0xEE, 0xFF)));
}

#[test]
fn non_ascii_text_delimits_tokens() {
    let r = find_matches("couleur \u{e9}l\u{e9}gante: #1a2b3c;");
    assert_eq!(r.len(), 1);
    assert!(r.contains(&Color::new(0x1A, 0x2B, 0x3C)));
}

#[test]
fn to_hex_string_uppercase_padded() {
    assert_eq!(Color::new(0xFF, 0x00, 0xAA).to_hex_string(), "#FF00AA");
    assert_eq!(Color::new(0x01, 0x02, 0x03).to_hex_string(), "#010203");
}

#[test]
fn lengthen_doubles_single_char() {
    assert_eq!(lengthen("a"), "aa");
}

#[test]
fn lengthen_keeps_two_chars() {
    assert_eq!(lengthen("ab"), "ab");
}

fn empty_candidate() -> ColorCandidate {
    ColorCandidate {
        long_red: None,
        long_green: None,
        long_blue: None,
        short_red: None,
        short_green: None,
        short_blue: None,
    }
}

#[test]
fn from_capture_long_form() {
    let mut cand = empty_candidate();
    cand.long_red = Some("aa".to_string());
    cand.long_green = Some("Bb".to_string());
    cand.long_blue = Some("0F".to_string());
    assert_eq!(Color::from_capture(&cand), Some(Color::new(0xAA, 0xBB, 0x0F)));
}

#[test]
fn from_capture_short_form() {
    let mut cand = empty_candidate();
    cand.short_red = Some("f".to_string());
    cand.short_green = Some("0".to_string());
    cand.short_blue = Some("A".to_string());
    assert_eq!(Color::from_capture(&cand), Some(Color::new(0xFF, 0x00, 0xAA)));
}

#[test]
fn from_capture_mixed_forms_rejected() {
    let mut cand = empty_candidate();
    cand.long_red = Some("aa".to_string());
    cand.short_red = Some("a".to_string());
    cand.long_green = Some("bb".to_string());
    cand.long_blue = Some("cc".to_string());
    assert_eq!(Color::from_capture(&cand), None);
}

#[test]
fn from_capture_bad_digits_rejected() {
    let mut cand = empty_candidate();
    cand.long_red = Some("zz".to_string());
    cand.long_green = Some("bb".to_string());
    cand.long_blue = Some("cc".to_string());
    assert_eq!(Color::from_capture(&cand), None);
}

#[test]
fn from_capture_all_empty_rejected() {
    assert_eq!(Color::from_capture(&empty_candidate()), None);
}

#[test]
fn from_capture_short_slot_wrong_length_rejected() {
    let mut cand = empty_candidate();
    cand.short_red = Some("aa".to_string());
    cand.short_green = Some("b".to_string());
    cand.short_blue = Some("c".to_string());
    assert_eq!(Color::from_capture(&cand), None);
}

#[test]
fn two_distinct_codes_two_colors() {
    let r = find_matches("fff 000");
    assert_eq!(r.len(), 2);
    assert!(r.contains(&Color::new(0xFF, 0xFF, 0xFF)));
    assert!(r.contains(&Color::new(0x00, 0x00, 0x00)));
}
