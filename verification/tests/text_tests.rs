use based_scrapper::text::{
    chars_of, contains_char, contains_str, decimal_string, first_piece, parse_u32, replace_str,
    same_text, signed_decimal_string, split_str, string_of, trim,
};

#[test]
fn trim_strips_unicode_white_space_at_both_ends() {
    assert_eq!(trim("  a b \t\n"), "a b");
    assert_eq!(trim("\u{3000}x\u{a0}"), "x");
    assert_eq!(trim("   "), "");
    assert_eq!(trim(""), "");
    assert_eq!(trim("x"), "x");
}

#[test]
fn trim_twice_is_trim_once() {
    for s in ["  a ", "\n\tb c\r", "", " ", "d"] {
        let once = trim(s);
        assert_eq!(trim(&once), once);
    }
}

#[test]
fn split_on_a_character_keeps_empty_pieces() {
    assert_eq!(split_str("a/b//c", "/"), vec!["a", "b", "", "c"]);
    assert_eq!(split_str("/x/", "/"), vec!["", "x", ""]);
    assert_eq!(split_str("", ","), vec![""]);
}

#[test]
fn split_on_a_text_pattern() {
    assert_eq!(split_str("Romania / Bucuresti / Sector 1", " / "), vec!["Romania", "Bucuresti", "Sector 1"]);
    assert_eq!(split_str("aaa", "aa"), vec!["", "a"]);
}

#[test]
fn split_then_join_gives_the_text_back() {
    for (s, p) in [("a,b,,c", ","), ("x / y", " / "), ("none", ";"), ("", "-")] {
        assert_eq!(split_str(s, p).join(p), s);
    }
}

#[test]
fn split_pieces_hold_no_pattern() {
    for piece in split_str("a,b,,c,", ",") {
        assert!(!piece.contains(','));
    }
}

#[test]
fn first_piece_is_the_text_before_the_first_separator() {
    assert_eq!(first_piece("Bucharest, Romania", ","), "Bucharest");
    assert_eq!(first_piece("Cluj", ","), "Cluj");
}

#[test]
fn replace_is_leftmost_and_non_overlapping() {
    assert_eq!(replace_str("\"Casier\"", "\"", ""), "Casier");
    assert_eq!(replace_str("aaa", "aa", "b"), "ba");
    assert_eq!(replace_str("/jobs/a b c", " ", ""), "/jobs/abc");
}

#[test]
fn replace_of_an_absent_pattern_changes_nothing() {
    assert_eq!(replace_str("abc", "zz", "q"), "abc");
}

#[test]
fn contains_finds_texts_and_characters() {
    assert!(contains_str("var vmCfg = {};", "var vmCfg ="));
    assert!(!contains_str("var vmcfg = {};", "var vmCfg ="));
    assert!(contains_str("abc", ""));
    assert!(contains_char("Genève", 'è'));
    assert!(!contains_char("Geneve", 'è'));
    assert!(same_text("RO", "RO"));
    assert!(!same_text("RO", "Ro"));
}

#[test]
fn decimal_numerals() {
    assert_eq!(decimal_string(0), "0");
    assert_eq!(decimal_string(7), "7");
    assert_eq!(decimal_string(1234567890), "1234567890");
    assert_eq!(decimal_string(u64::MAX), "18446744073709551615");
    assert_eq!(signed_decimal_string(-42), "-42");
    assert_eq!(signed_decimal_string(0), "0");
    assert_eq!(signed_decimal_string(i64::MIN), "-9223372036854775808");
}

#[test]
fn parse_u32_accepts_what_std_accepts() {
    assert_eq!(parse_u32("42"), Some(42));
    assert_eq!(parse_u32("+7"), Some(7));
    assert_eq!(parse_u32("007"), Some(7));
    assert_eq!(parse_u32("4294967295"), Some(u32::MAX));
    for s in ["", "+", "-1", " 1", "1 ", "4294967296", "99999999999", "١٢", "1a"] {
        assert_eq!(parse_u32(s), s.parse::<u32>().ok(), "{}", s);
    }
}

#[test]
fn parse_of_a_decimal_numeral_gives_the_number() {
    for n in [0u32, 1, 9, 10, 25, 4096, u32::MAX] {
        assert_eq!(parse_u32(&decimal_string(n as u64)), Some(n));
    }
}

#[test]
fn chars_and_strings_convert_both_ways() {
    let cs = chars_of("Brașov");
    assert_eq!(cs, vec!['B', 'r', 'a', 'ș', 'o', 'v']);
    assert_eq!(string_of(&cs), "Brașov");
}
