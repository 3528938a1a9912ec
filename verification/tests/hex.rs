use fast_file_tracker::hex::{check_hex_digit, fingerprint_text, FINGERPRINT_WIDTH};

#[test]
fn zero_is_sixteen_zeros() {
    assert_eq!(fingerprint_text(0), "0000000000000000");
}

#[test]
fn small_values_are_padded_with_zeros() {
    assert_eq!(fingerprint_text(1), "0000000000000001");
    assert_eq!(fingerprint_text(255), "00000000000000ff");
    assert_eq!(fingerprint_text(0xabc), "0000000000000abc");
}

#[test]
fn the_largest_value_is_sixteen_fs() {
    assert_eq!(fingerprint_text(u64::MAX), "ffffffffffffffff");
}

#[test]
fn digits_are_lowercase_and_most_significant_first() {
    assert_eq!(fingerprint_text(0x0123_4567_89AB_CDEF), "0123456789abcdef");
    assert_eq!(fingerprint_text(0xEF46_DB37_51D8_E999), "ef46db3751d8e999");
}

#[test]
fn text_always_has_the_fingerprint_width() {
    assert_eq!(FINGERPRINT_WIDTH, 16);
    for value in [0u64, 9, 10, 15, 16, 0xffff, 1 << 32, 1 << 63, u64::MAX] {
        let text = fingerprint_text(value);
        assert_eq!(text.chars().count(), FINGERPRINT_WIDTH);
        assert!(text.chars().all(check_hex_digit));
        assert_eq!(u64::from_str_radix(&text, 16).unwrap(), value);
    }
}

#[test]
fn text_agrees_with_zero_padded_formatting() {
    for value in [0u64, 7, 0x10, 0xdead_beef, 0x8000_0000_0000_0000, u64::MAX - 1] {
        assert_eq!(fingerprint_text(value), format!("{:016x}", value));
    }
}

#[test]
fn distinct_fingerprints_have_distinct_texts() {
    assert_ne!(fingerprint_text(0x10), fingerprint_text(0x01));
    assert_ne!(fingerprint_text(1 << 60), fingerprint_text(1));
}

#[test]
fn only_lowercase_hexadecimal_digits_are_digits() {
    for c in "0123456789abcdef".chars() {
        assert!(check_hex_digit(c));
    }
    for c in "ABCDEFgG/:`'xz -".chars() {
        assert!(!check_hex_digit(c));
    }
}
