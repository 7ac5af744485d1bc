use production_importer::text;

#[test]
fn decimal_notation_of_numbers() {
    assert_eq!(text::decimal_text(0), "0");
    assert_eq!(text::decimal_text(7), "7");
    assert_eq!(text::decimal_text(10), "10");
    assert_eq!(text::decimal_text(-305), "-305");
    assert_eq!(text::decimal_text(i32::MAX), "2147483647");
    assert_eq!(text::decimal_text(i32::MIN), "-2147483648");
}

#[test]
fn decimal_notation_reads_back() {
    for n in [0, 1, -1, 9, 10, 99, 100, -12345, i32::MAX, i32::MIN] {
        assert_eq!(text::parse_i32(&text::decimal_text(n)), Some(n));
    }
}

#[test]
fn signed_numbers_are_read_like_std_reads_them() {
    for s in [
        "", "+", "-", "0", "-0", "+5", "-5", "007", "2147483647", "2147483648", "-2147483648",
        "-2147483649", "99999999999999999999", "12a", " 1", "1 ", "--1", "+-1", "\u{663}",
    ] {
        assert_eq!(text::parse_i32(s), s.parse::<i32>().ok(), "{:?}", s);
    }
}

#[test]
fn unsigned_numbers_are_read_like_std_reads_them() {
    for s in ["", "+", "-", "0", "-0", "+5", "-5", "0080", "65535", "65536", "1433", "x", "1.0"] {
        assert_eq!(text::parse_u16(s), s.parse::<u16>().ok(), "{:?}", s);
    }
}

#[test]
fn sizes_are_read_like_std_reads_them() {
    for s in [
        "", "+", "0", "+5", "-5", "0080", "65536", "4294967296", "18446744073709551615",
        "18446744073709551616", "99999999999999999999999999999999999999999999", "x", " 1",
    ] {
        assert_eq!(text::parse_usize(s), s.parse::<usize>().ok(), "{:?}", s);
    }
}

#[test]
fn text_is_found_inside_text() {
    assert!(text::contains("LAST_ROW=5", "LAST_ROW"));
    assert!(text::contains("#LAST_ROW", "LAST_ROW"));
    assert!(text::contains("abc", ""));
    assert!(text::contains("", ""));
    assert!(text::contains("aab", "ab"));
    assert!(!text::contains("LAST_RO", "LAST_ROW"));
    assert!(!text::contains("last_row=5", "LAST_ROW"));
    assert!(text::contains("gr\u{fc}n", "\u{fc}n"));
}

#[test]
fn texts_are_compared() {
    assert!(text::same_text("", ""));
    assert!(text::same_text("date", "date"));
    assert!(!text::same_text("date", "dat"));
    assert!(!text::same_text("dat", "date"));
    assert!(!text::same_text("date", "Date"));
}

#[test]
fn parts_are_joined_and_split() {
    let parts = vec!["a".to_string(), "".to_string(), "bc".to_string()];
    assert_eq!(text::join(&parts, ","), "a,,bc");
    assert_eq!(text::split("a,,bc", ','), parts);
    assert_eq!(text::split("", ','), vec!["".to_string()]);
    assert_eq!(text::split(",", ','), vec!["".to_string(), "".to_string()]);
    assert_eq!(text::join(&Vec::new(), ","), "");
    assert_eq!(text::join(&vec!["x".to_string()], ","), "x");
}

#[test]
fn characters_are_found_and_taken_out() {
    assert_eq!(text::find("a=b=c", '='), 1);
    assert_eq!(text::find("abc", '='), 3);
    assert_eq!(text::find("", '='), 0);
    assert_eq!(text::find("=", '='), 0);
    assert_eq!(text::strip_quotes("\"2020-01-02\""), "2020-01-02");
    assert_eq!(text::strip_quotes("a\"b\"\"c"), "abc");
    assert_eq!(text::strip_quotes(""), "");
    assert_eq!(text::characters("a\u{fc}b"), vec!['a', '\u{fc}', 'b']);
}
