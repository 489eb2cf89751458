use grype_verify::order::order_newest_first;
use grype_verify::text::{
    byte_len, chars_of, clip, is_text_less, lowered_text, parse_integer, push_integer,
    push_natural, same_text, text_of,
};

fn decimal(n: i64) -> String {
    let mut out = String::from("n=");
    push_integer(&mut out, n);
    out
}

#[test]
fn integers_are_written_in_decimal() {
    for n in [0, 7, 10, -1, -10, 1_234_567_890, i64::MAX, i64::MIN] {
        assert_eq!(decimal(n), format!("n={n}"));
    }
    let mut out = String::new();
    push_natural(&mut out, u64::MAX);
    assert_eq!(out, "18446744073709551615");
}

#[test]
fn written_integers_read_back() {
    for n in [0, 5, -5, 99, 100, i64::MAX, i64::MIN, i64::MIN + 1] {
        assert_eq!(parse_integer(&format!("{n}")), Some(n));
    }
}

#[test]
fn integers_are_read_as_std_reads_them() {
    for text in [
        "", "+", "-", "+5", "-0", "007", "--5", "+-5", "5 ", " 5", "5a", "1_000", "1.0",
        "9223372036854775807", "9223372036854775808", "-9223372036854775808",
        "-9223372036854775809", "00000000000000000000000000000000000000000009",
        "99999999999999999999999999999999999999999999", "\u{663}",
    ] {
        assert_eq!(parse_integer(text), text.parse::<i64>().ok(), "{text}");
    }
}

#[test]
fn texts_are_clipped_between_characters() {
    assert_eq!(clip("hello", 10), "hello");
    assert_eq!(clip("hello", 5), "hello");
    assert_eq!(clip("hello", 4), "hell");
    assert_eq!(clip("hello", 0), "");
    assert_eq!(clip("a\u{20ac}b", 4), "a\u{20ac}");
    assert_eq!(clip("a\u{20ac}b", 3), "a");
    assert_eq!(clip("a\u{20ac}b", 2), "a");
    assert_eq!(clip("\u{1f600}", 3), "");
    assert_eq!(byte_len("a\u{20ac}b"), 5);
}

#[test]
fn only_ascii_capitals_are_lowered() {
    assert_eq!(lowered_text("AZaz09[@"), "azaz09[@");
    assert_eq!(lowered_text("\u{c9}\u{130}"), "\u{c9}\u{130}");
}

#[test]
fn texts_are_ordered_by_characters() {
    assert!(is_text_less("", "a"));
    assert!(is_text_less("a", "ab"));
    assert!(is_text_less("ab", "b"));
    assert!(!is_text_less("a", "a"));
    assert!(!is_text_less("b", "ab"));
    assert!(is_text_less("2024-09-30", "2024-10-01"));
}

#[test]
fn characters_and_texts_convert() {
    let chars = chars_of("a\u{20ac}b");
    assert_eq!(chars, vec!['a', '\u{20ac}', 'b']);
    assert_eq!(text_of(&chars, 1, 3), "\u{20ac}b");
    assert_eq!(text_of(&chars, 2, 2), "");
    assert!(same_text("x", "x"));
    assert!(!same_text("x", "X"));
}

#[test]
fn marked_rows_are_ordered_newest_first() {
    let stamps = vec![5, 9, 5, 1, 9];
    assert_eq!(
        order_newest_first(&stamps, &vec![true; 5]),
        vec![4, 1, 2, 0, 3]
    );
    assert_eq!(
        order_newest_first(&stamps, &vec![true, false, true, true, false]),
        vec![2, 0, 3]
    );
    assert!(order_newest_first(&vec![], &vec![]).is_empty());
}
