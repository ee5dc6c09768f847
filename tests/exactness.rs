use lisp::exactness::{exact, exactness, inexact};
use lisp::{Exactness, ParseError};

#[test]
fn exactness_leading_whitespace() {
    assert_eq!(exactness(&b" \t\t \n #i"[..]), Ok((Exactness::Inexact, &b""[..])));
}

#[test]
fn exactness_trailing_whitespace() {
    assert_eq!(exactness(&b"#i \t  \n\n  "[..]), Ok((Exactness::Inexact, &b""[..])));
}

#[test]
fn exactness_surrounding_whitespace() {
    assert_eq!(exactness(&b"   \t\t\t\n\n\n#i\n\n\n\t\t\t    "[..]), Ok((Exactness::Inexact, &b""[..])));
}

#[test]
fn exactness_prefixes() {
    assert_eq!(exact(&b"#e"[..]), Ok((Exactness::Exact, &b""[..])));
    assert_eq!(inexact(&b"#i"[..]), Ok((Exactness::Inexact, &b""[..])));
    assert_eq!(exactness(&b"#e"[..]), Ok((Exactness::Exact, &b""[..])));
    assert_eq!(exactness(&b"#i"[..]), Ok((Exactness::Inexact, &b""[..])));
    assert_eq!(exactness(&b"#e42"[..]), Ok((Exactness::Exact, &b"42"[..])));
}

#[test]
fn exactness_errors() {
    assert_eq!(exact(&b"#i"[..]), Err(ParseError::NoMatch));
    assert_eq!(inexact(&b"#"[..]), Err(ParseError::NoMatch));
    assert_eq!(exactness(&b"#x"[..]), Err(ParseError::NoMatch));
    assert_eq!(exactness(&b""[..]), Err(ParseError::Incomplete));
}
