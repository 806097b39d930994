use sham::text::{to_decimal, to_hex};

#[test]
fn bytes_render_as_two_lowercase_digits_each() {
    assert_eq!(to_hex(&[]), "");
    assert_eq!(to_hex(&[0x00, 0x0f, 0xa0, 0xff]), "000fa0ff");
}

#[test]
fn different_bytes_render_differently() {
    assert_ne!(to_hex(&[0x01, 0x23]), to_hex(&[0x12, 0x03]));
    assert_ne!(to_hex(&[0x00]), to_hex(&[0x00, 0x00]));
}

#[test]
fn numbers_render_in_decimal() {
    assert_eq!(to_decimal(0), "0");
    assert_eq!(to_decimal(9), "9");
    assert_eq!(to_decimal(10), "10");
    assert_eq!(to_decimal(1203), "1203");
    assert_eq!(to_decimal(u64::MAX), "18446744073709551615");
}
