use lisp::sign::{negative, positive, sign};
use lisp::{ParseError, Sign};

#[test]
fn sign_leading_whitespace() {
    assert_eq!(sign(&b"               +"[..]), Ok((Sign::Positive, &b""[..])));
}

#[test]
fn sign_trailing_whitespace() {
    assert_eq!(sign(&b"+               "[..]), Ok((Sign::Positive, &b""[..])));
}

#[test]
fn sign_surrounding_whitespace() {
    assert_eq!(sign(&b"            +           "[..]), Ok((Sign::Positive, &b""[..])));
}

#[test]
fn sign_spellings_consume_all() {
    assert_eq!(sign(&b"+"[..]), Ok((Sign::Positive, &b""[..])));
    assert_eq!(sign(&b"-"[..]), Ok((Sign::Negative, &b""[..])));
    assert_eq!(positive(&b"+"[..]), Ok((Sign::Positive, &b""[..])));
    assert_eq!(negative(&b"-"[..]), Ok((Sign::Negative, &b""[..])));
}

#[test]
fn sign_leaves_what_follows() {
    assert_eq!(sign(&b"-#e12"[..]), Ok((Sign::Negative, &b"#e12"[..])));
    assert_eq!(positive(&b"+ x"[..]), Ok((Sign::Positive, &b" x"[..])));
}

#[test]
fn sign_errors() {
    assert_eq!(sign(&b"#e"[..]), Err(ParseError::NoMatch));
    assert_eq!(sign(&b"   "[..]), Err(ParseError::Incomplete));
    assert_eq!(positive(&b"-"[..]), Err(ParseError::NoMatch));
    assert_eq!(negative(&b"+"[..]), Err(ParseError::NoMatch));
    assert_eq!(positive(&b" +"[..]), Err(ParseError::NoMatch));
}
