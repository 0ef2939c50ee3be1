use rvkernel::cstr::cstr_to_str;
use rvkernel::cstr::cstr_to_u64;
use rvkernel::cstr::u64_to_str;
use rvkernel::cstr::ParseError;

#[test]
fn cstr_to_str_stops_at_first_nul() {
    let buf = [104u8, 105, 0, 120, 121];
    assert_eq!(cstr_to_str(&buf), vec![104u8, 105]);
}

#[test]
fn cstr_to_str_takes_whole_buffer_without_nul() {
    let buf = [104u8, 105];
    assert_eq!(cstr_to_str(&buf), vec![104u8, 105]);
}

#[test]
fn cstr_to_str_of_empty_is_empty() {
    let buf: [u8; 0] = [];
    assert_eq!(cstr_to_str(&buf), Vec::<u8>::new());
}

#[test]
fn u64_to_str_formats_zero() {
    assert_eq!(u64_to_str(0), vec![48u8]);
}

#[test]
fn u64_to_str_formats_digits_in_order() {
    assert_eq!(u64_to_str(12345), vec![49u8, 50, 51, 52, 53]);
}

#[test]
fn u64_to_str_formats_the_largest_value() {
    let digits = u64_to_str(u64::MAX);
    let expected: Vec<u8> = "18446744073709551615".bytes().collect();
    assert_eq!(digits, expected);
}

#[test]
fn cstr_to_u64_reads_a_number_before_the_nul() {
    let buf = [49u8, 50, 51, 0, 57];
    assert_eq!(cstr_to_u64(&buf), Ok(123));
}

#[test]
fn cstr_to_u64_accepts_a_leading_plus() {
    let buf = [43u8, 52, 50, 0];
    assert_eq!(cstr_to_u64(&buf), Ok(42));
}

#[test]
fn cstr_to_u64_rejects_an_empty_number() {
    let buf = [0u8];
    assert_eq!(cstr_to_u64(&buf), Err(ParseError::Empty));
}

#[test]
fn cstr_to_u64_rejects_a_letter() {
    let buf = [49u8, 50, 97, 0];
    assert_eq!(cstr_to_u64(&buf), Err(ParseError::InvalidDigit));
}

#[test]
fn cstr_to_u64_rejects_a_number_past_the_range() {
    let buf: Vec<u8> = "99999999999999999999\0".bytes().collect();
    assert_eq!(cstr_to_u64(&buf), Err(ParseError::Overflow));
}

#[test]
fn formatting_then_parsing_returns_the_number() {
    for n in [0u64, 1, 9, 10, 255, 1000, 123456789, u64::MAX] {
        let mut digits = u64_to_str(n);
        digits.push(0);
        assert_eq!(cstr_to_u64(&digits), Ok(n));
    }
}
