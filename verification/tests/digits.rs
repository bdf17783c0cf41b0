use roman_numerals::{checked_digits_to_number, digits_to_number, unicode_codepoint_to_number};

#[test]
fn test_digits_to_number() {
    assert!(digits_to_number(&[1]) == 1);
    assert!(digits_to_number(&[2]) == 2);

    assert!(digits_to_number(&[1, 1, 1]) == 111);
    assert!(digits_to_number(&[1, 2, 3]) == 123);
    assert!(digits_to_number(&[3, 2, 1]) == 321);

    assert!(digits_to_number(&[3, 2, 1, 4, 5, 6]) == 321456);

    assert!(digits_to_number(&[]) == 0);
}

#[test]
fn ascii_digits_are_recognised() {
    assert_eq!(unicode_codepoint_to_number(0x30), Some(0));
    assert_eq!(unicode_codepoint_to_number(0x31), Some(1));
    assert_eq!(unicode_codepoint_to_number(0x35), Some(5));
    assert_eq!(unicode_codepoint_to_number(0x39), Some(9));
    for (value, c) in ('0'..='9').enumerate() {
        assert_eq!(unicode_codepoint_to_number(c as u32), Some(value as u8));
    }
}

#[test]
fn neighbours_of_the_digits_are_no_digits() {
    assert_eq!(unicode_codepoint_to_number(0x2f), None);
    assert_eq!(unicode_codepoint_to_number(0x3a), None);
}

#[test]
fn other_codepoints_are_no_digits() {
    assert_eq!(unicode_codepoint_to_number(0), None);
    assert_eq!(unicode_codepoint_to_number('a' as u32), None);
    assert_eq!(unicode_codepoint_to_number('X' as u32), None);
    assert_eq!(unicode_codepoint_to_number(0x305), None);
    // Digits of other scripts and full-width digits are left alone.
    assert_eq!(unicode_codepoint_to_number(0x0661), None);
    assert_eq!(unicode_codepoint_to_number(0xff11), None);
    assert_eq!(unicode_codepoint_to_number(u32::MAX), None);
}

#[test]
fn leading_zeros_do_not_count() {
    assert_eq!(digits_to_number(&[0]), 0);
    assert_eq!(digits_to_number(&[0, 0, 7]), 7);
    assert_eq!(digits_to_number(&[0, 1, 0]), 10);
    let mut long = vec![0u8; 40];
    long.push(4);
    long.push(2);
    assert_eq!(digits_to_number(&long), 42);
}

#[test]
fn every_position_has_its_power_of_ten() {
    assert_eq!(digits_to_number(&[1, 0]), 10);
    assert_eq!(digits_to_number(&[1, 0, 0]), 100);
    assert_eq!(digits_to_number(&[9, 0, 0, 0]), 9000);
    assert_eq!(digits_to_number(&[1, 2, 3, 2, 1]), 12321);
    assert_eq!(digits_to_number(&[1, 0, 0, 0, 0, 0, 0, 0, 0, 0, 0, 0, 0, 0, 0, 0, 0, 0, 0, 0]), 10_000_000_000_000_000_000);
}

#[test]
fn the_largest_number_of_64_bits_is_read() {
    let digits = [1, 8, 4, 4, 6, 7, 4, 4, 0, 7, 3, 7, 0, 9, 5, 5, 1, 6, 1, 5];
    assert_eq!(digits_to_number(&digits), u64::MAX);
    assert_eq!(checked_digits_to_number(&digits), Some(u64::MAX));
}

#[test]
fn checked_reading_agrees_where_the_number_fits() {
    assert_eq!(checked_digits_to_number(&[]), Some(0));
    assert_eq!(checked_digits_to_number(&[1]), Some(1));
    assert_eq!(checked_digits_to_number(&[1, 2, 3]), Some(123));
    assert_eq!(checked_digits_to_number(&[3, 2, 1, 4, 5, 6]), Some(321456));
    assert_eq!(checked_digits_to_number(&[0, 0, 0, 9]), Some(9));
}

#[test]
fn checked_reading_refuses_what_does_not_fit() {
    // One more than the largest number of 64 bits.
    let digits = [1, 8, 4, 4, 6, 7, 4, 4, 0, 7, 3, 7, 0, 9, 5, 5, 1, 6, 1, 6];
    assert_eq!(checked_digits_to_number(&digits), None);
    // Ten times too large: the product overflows.
    let digits = [2, 0, 0, 0, 0, 0, 0, 0, 0, 0, 0, 0, 0, 0, 0, 0, 0, 0, 0, 0];
    assert_eq!(checked_digits_to_number(&digits), None);
    assert_eq!(checked_digits_to_number(&[9; 21]), None);
    // Digits after the overflow do not bring the number back.
    let mut digits = vec![9u8; 20];
    digits.extend_from_slice(&[0, 0, 0]);
    assert_eq!(checked_digits_to_number(&digits), None);
}
