use minicc::numerals::dec_string;

#[test]
fn decimal_text_of_zero() {
    assert_eq!(dec_string(0), "0");
}

#[test]
fn decimal_text_of_a_large_number() {
    assert_eq!(dec_string(1234567890), "1234567890");
}

#[test]
fn decimal_text_has_no_leading_zeros() {
    assert_eq!(dec_string(1000), "1000");
    assert_eq!(dec_string(7), "7");
}
