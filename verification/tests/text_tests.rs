use terrain::text::{decimal, push_decimal};

#[test]
fn decimal_text_of_small_numbers() {
    assert_eq!(decimal(0), "0");
    assert_eq!(decimal(7), "7");
    assert_eq!(decimal(10), "10");
    assert_eq!(decimal(-1), "-1");
    assert_eq!(decimal(-12), "-12");
    assert_eq!(decimal(1234567890), "1234567890");
}

#[test]
fn decimal_text_at_the_ends_of_the_range() {
    assert_eq!(decimal(i64::MAX), "9223372036854775807");
    assert_eq!(decimal(i64::MIN), "-9223372036854775808");
}

#[test]
fn decimal_text_matches_the_standard_formatting() {
    for value in [-100_000i64, -99, -10, -9, 9, 99, 100, 101, 4096, 999_999, 1_000_000] {
        assert_eq!(decimal(value), format!("{}", value));
    }
}

#[test]
fn push_decimal_appends() {
    let mut text = String::from("x = ");
    push_decimal(&mut text, -40);
    push_decimal(&mut text, 2);
    assert_eq!(text, "x = -402");
}
