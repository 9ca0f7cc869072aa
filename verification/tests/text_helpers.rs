use kline_ingest::text::{
    char_is_digit, chars_of, contains_text, group_thousands, push_decimal, push_padded,
    str_equal,
};

#[test]
fn chars_of_gives_the_characters_in_order() {
    assert_eq!(chars_of("a-1"), vec!['a', '-', '1']);
    assert_eq!(chars_of(""), Vec::<char>::new());
    assert_eq!(chars_of("é€"), vec!['é', '€']);
}

#[test]
fn digits_are_recognised() {
    assert!(char_is_digit('0'));
    assert!(char_is_digit('9'));
    assert!(!char_is_digit('a'));
    assert!(!char_is_digit('/'));
    assert!(!char_is_digit(':'));
    assert!(!char_is_digit('٣'));
}

#[test]
fn push_padded_pads_with_zeros() {
    let mut text = String::new();
    push_padded(&mut text, 7, 2);
    assert_eq!(text, "07");
    push_padded(&mut text, 2021, 4);
    assert_eq!(text, "072021");
    push_padded(&mut text, 0, 3);
    assert_eq!(text, "072021000");
    push_padded(&mut text, 5, 0);
    assert_eq!(text, "072021000");
}

#[test]
fn push_padded_keeps_the_low_digits_of_a_wide_number() {
    let mut text = String::new();
    push_padded(&mut text, 12345, 4);
    assert_eq!(text, "2345");
}

#[test]
fn push_decimal_writes_without_padding() {
    let mut text = String::from("n=");
    push_decimal(&mut text, 0);
    assert_eq!(text, "n=0");
    push_decimal(&mut text, 10);
    assert_eq!(text, "n=010");
    let mut wide = String::new();
    push_decimal(&mut wide, u64::MAX);
    assert_eq!(wide, "18446744073709551615");
}

#[test]
fn digits_are_grouped_in_threes() {
    assert_eq!(group_thousands(0), "0");
    assert_eq!(group_thousands(999), "999");
    assert_eq!(group_thousands(1000), "1'000");
    assert_eq!(group_thousands(1234567), "1'234'567");
    assert_eq!(group_thousands(1000001), "1'000'001");
    assert_eq!(group_thousands(12045), "12'045");
    assert_eq!(group_thousands(u64::MAX), "18'446'744'073'709'551'615");
}

#[test]
fn texts_are_compared_and_found() {
    assert!(str_equal("out/a", "out/a"));
    assert!(!str_equal("out/a", "out/b"));
    assert!(!str_equal("out/a", "out/a/"));
    assert!(str_equal("", ""));
    let list = vec!["x".to_string(), "out/a".to_string()];
    assert!(contains_text(&list, "out/a"));
    assert!(!contains_text(&list, "out"));
    assert!(!contains_text(&Vec::new(), "x"));
}
