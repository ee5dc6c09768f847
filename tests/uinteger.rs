use lisp::uinteger::{binary_digit, decimal_digit, digits, hex_digit, octal_digit};
use lisp::{ParseError, Uinteger};
use num_bigint::BigUint;

#[test]
fn octal_run() {
    assert_eq!(octal_digit(&b"1234567"[..]), Ok((Uinteger::from_u64(342391), &b""[..])));
}

#[test]
fn decimal_run() {
    assert_eq!(decimal_digit(&b"123456789"[..]), Ok((Uinteger::from_u64(123456789), &b""[..])));
}

#[test]
fn hex_run_is_not_truncated() {
    let mut expected = BigUint::from(1375488932539311409u64);
    expected *= 1000000u32;
    expected += 843695u32;
    let (value, rest) = hex_digit(&b"123456789abcdefABCDEF"[..]).unwrap();
    assert_eq!(rest, &b""[..]);
    assert_eq!(value.limbs(), &expected.to_u32_digits()[..]);
    assert_eq!(value.to_decimal(), "1375488932539311409843695");
}

#[test]
fn binary_run_stops_at_other_digit() {
    assert_eq!(binary_digit(&b"1012"[..]), Ok((Uinteger::from_u64(5), &b"2"[..])));
    assert_eq!(octal_digit(&b"778"[..]), Ok((Uinteger::from_u64(63), &b"8"[..])));
    assert_eq!(decimal_digit(&b"09a"[..]), Ok((Uinteger::from_u64(9), &b"a"[..])));
    assert_eq!(hex_digit(&b"fFg"[..]), Ok((Uinteger::from_u64(255), &b"g"[..])));
}

#[test]
fn run_of_zeros() {
    assert_eq!(digits(&b"000"[..], 10), Ok((Uinteger::from_u64(0), &b""[..])));
    assert_eq!(Uinteger::from_u64(0).to_decimal(), "0");
}

#[test]
fn no_digits_consumes_nothing() {
    assert_eq!(binary_digit(&b"23"[..]), Err(ParseError::NoDigits));
    assert_eq!(octal_digit(&b"89"[..]), Err(ParseError::NoDigits));
    assert_eq!(decimal_digit(&b"abc"[..]), Err(ParseError::NoDigits));
    assert_eq!(hex_digit(&b"xyz"[..]), Err(ParseError::NoDigits));
    assert_eq!(hex_digit(&b""[..]), Err(ParseError::NoDigits));
    assert_eq!(decimal_digit(&b" 1"[..]), Err(ParseError::NoDigits));
}

#[test]
fn large_values() {
    let big = Uinteger::from_u64(u64::MAX);
    assert_eq!(big.to_decimal(), "18446744073709551615");
    assert_eq!(big.limbs(), &[u32::MAX, u32::MAX][..]);
    assert_eq!(decimal_digit(&b"18446744073709551615"[..]), Ok((big, &b""[..])));
    let (v, _) = decimal_digit(&b"18446744073709551616"[..]).unwrap();
    assert_eq!(v.limbs(), &[0u32, 0u32, 1u32][..]);
    assert_eq!(Uinteger::from_u64(4294967296).limbs(), &[0u32, 1u32][..]);
}

#[test]
fn from_decimal_whole_input() {
    assert_eq!(Uinteger::from_decimal(&b"342391"[..]), Ok(Uinteger::from_u64(342391)));
    assert_eq!(Uinteger::from_decimal(&b"12a"[..]), Err(ParseError::NoDigits));
    assert_eq!(Uinteger::from_decimal(&b""[..]), Err(ParseError::NoDigits));
    assert_eq!(Uinteger::from_decimal(&b"+12"[..]), Err(ParseError::NoDigits));
}
