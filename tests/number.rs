use lisp::number::{number, DIGITLESS_MAGNITUDE};
use lisp::{Exactness, Number, ParseError, Sign, Uinteger};

fn expected_outcome<'a>() -> Result<(Number, &'a [u8]), ParseError> {
    Ok((Number::new(Sign::Negative, Exactness::Inexact, Uinteger::from_u64(7)), &b""[..]))
}

#[test]
fn mod_leading_whitespace() {
    assert_eq!(number(&b" \t\t \n -#i"[..]), expected_outcome());
}

#[test]
fn mod_trailing_whitespace() {
    assert_eq!(number(&b"-#i \t  \n\n  "[..]), expected_outcome());
}

#[test]
fn mod_surrounding_whitespace() {
    assert_eq!(number(&b"   \t\t\t\n\n\n-#i\n\n\n\t\t\t    "[..]), expected_outcome());
}

#[test]
fn number_without_digits() {
    assert_eq!(
        number(&b"-#e"[..]),
        Ok((Number::new(Sign::Negative, Exactness::Exact, Uinteger::from_u64(DIGITLESS_MAGNITUDE)), &b""[..]))
    );
}

#[test]
fn number_with_digits() {
    assert_eq!(
        number(&b"+#e42"[..]),
        Ok((Number::new(Sign::Positive, Exactness::Exact, Uinteger::from_u64(42)), &b""[..]))
    );
    assert_eq!(
        number(&b"-#x#iff rest"[..]),
        Ok((Number::new(Sign::Negative, Exactness::Inexact, Uinteger::from_u64(255)), &b"rest"[..]))
    );
    assert_eq!(
        number(&b"+#b#e1012"[..]),
        Ok((Number::new(Sign::Positive, Exactness::Exact, Uinteger::from_u64(5)), &b"2"[..]))
    );
    assert_eq!(
        number(&b" -#o#e777 "[..]),
        Ok((Number::new(Sign::Negative, Exactness::Exact, Uinteger::from_u64(511)), &b""[..]))
    );
}

#[test]
fn number_errors() {
    assert_eq!(number(&b"#e12"[..]), Err(ParseError::NoMatch));
    assert_eq!(number(&b"+12"[..]), Err(ParseError::NoMatch));
    assert_eq!(number(&b"+#x12"[..]), Err(ParseError::NoMatch));
    assert_eq!(number(&b"-"[..]), Err(ParseError::Incomplete));
    assert_eq!(number(&b""[..]), Err(ParseError::Incomplete));
}

#[test]
fn number_parts_and_text() {
    let (n, _) = number(&b"-#i1234"[..]).unwrap();
    assert_eq!(n.sign(), Sign::Negative);
    assert_eq!(n.exactness(), Exactness::Inexact);
    assert_eq!(n.value(), &Uinteger::from_u64(1234));
    assert_eq!(n.to_text(), "-#i1234");
    let m = Number::new(Sign::Positive, Exactness::Exact, Uinteger::from_u64(0));
    assert_eq!(m.to_text(), "+#e0");
}
