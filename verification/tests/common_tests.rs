use unblocked::common::{chars_of, clamp, decimal_string, digits, padded_decimal};

#[test]
fn digits_counts_decimal_places() {
    assert_eq!(digits(0), 1);
    assert_eq!(digits(9), 1);
    assert_eq!(digits(10), 2);
    assert_eq!(digits(99), 2);
    assert_eq!(digits(100), 3);
    assert_eq!(digits(999), 3);
    assert_eq!(digits(1_000), 4);
    assert_eq!(digits(9_999), 4);
    assert_eq!(digits(10_000), 5);
    assert_eq!(digits(99_999), 5);
    assert_eq!(digits(100_000), 6);
    assert_eq!(digits(999_999), 6);
}

#[test]
fn clamp_caps_at_max() {
    assert_eq!(clamp(5, 999), 5);
    assert_eq!(clamp(999, 999), 999);
    assert_eq!(clamp(1000, 999), 999);
    assert_eq!(clamp(0, 0), 0);
    assert_eq!(clamp(u32::MAX, 7), 7);
}

#[test]
fn decimal_string_writes_digits() {
    assert_eq!(decimal_string(0), "0");
    assert_eq!(decimal_string(7), "7");
    assert_eq!(decimal_string(10), "10");
    assert_eq!(decimal_string(1234567890), "1234567890");
    assert_eq!(decimal_string(u64::MAX), u64::MAX.to_string());
}

#[test]
fn padded_decimal_fills_with_zeroes() {
    assert_eq!(padded_decimal(7, 4), "0007");
    assert_eq!(padded_decimal(42, 4), "0042");
    assert_eq!(padded_decimal(1234, 4), "1234");
    assert_eq!(padded_decimal(12345, 4), "12345");
    assert_eq!(padded_decimal(0, 0), "0");
    assert_eq!(padded_decimal(0, 3), "000");
}

#[test]
fn chars_of_keeps_every_character() {
    let text = "ab\u{e9}\u{4e16}\u{1f600}\n";
    let expected: Vec<char> = text.chars().collect();
    assert_eq!(chars_of(text), expected);
    assert_eq!(chars_of(""), Vec::<char>::new());
}
