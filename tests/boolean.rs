use lisp::boolean::{boolean, scm_false, scm_true};
use lisp::ParseError;

#[test]
fn boolean_leading_whitespace() {
    assert_eq!(boolean(&b" \t\t \n #true"[..]), Ok((true, &b""[..])));
}

#[test]
fn boolean_trailing_whitespace() {
    assert_eq!(boolean(&b"#true \t  \n\n  "[..]), Ok((true, &b""[..])));
}

#[test]
fn boolean_surrounding_whitespace() {
    assert_eq!(boolean(&b"   \t\t\t\n\n\n#true\n\n\n\t\t\t    "[..]), Ok((true, &b""[..])));
}

#[test]
fn boolean_spellings() {
    assert_eq!(boolean(&b"#t"[..]), Ok((true, &b""[..])));
    assert_eq!(boolean(&b"#true"[..]), Ok((true, &b""[..])));
    assert_eq!(boolean(&b"#f"[..]), Ok((false, &b""[..])));
    assert_eq!(boolean(&b"#false"[..]), Ok((false, &b""[..])));
    assert_eq!(scm_true(&b"#t"[..]), Ok((true, &b""[..])));
    assert_eq!(scm_true(&b"#true"[..]), Ok((true, &b""[..])));
    assert_eq!(scm_false(&b"#f"[..]), Ok((false, &b""[..])));
    assert_eq!(scm_false(&b"#false"[..]), Ok((false, &b""[..])));
}

#[test]
fn boolean_partial_spelling_fails() {
    assert_eq!(boolean(&b"#tr"[..]), Err(ParseError::NoMatch));
    assert_eq!(scm_true(&b"#tr"[..]), Err(ParseError::NoMatch));
    assert_eq!(boolean(&b"#fals"[..]), Err(ParseError::NoMatch));
    assert_eq!(boolean(&b"#truex"[..]), Err(ParseError::NoMatch));
}

#[test]
fn boolean_stops_at_delimiter() {
    assert_eq!(boolean(&b"#t #f"[..]), Ok((true, &b"#f"[..])));
    assert_eq!(boolean(&b"#false)"[..]), Ok((false, &b")"[..])));
    assert_eq!(scm_true(&b"#t("[..]), Ok((true, &b"("[..])));
}

#[test]
fn boolean_errors() {
    assert_eq!(boolean(&b""[..]), Err(ParseError::Incomplete));
    assert_eq!(boolean(&b"+#e1"[..]), Err(ParseError::NoMatch));
    assert_eq!(scm_true(&b"#f"[..]), Err(ParseError::NoMatch));
    assert_eq!(scm_false(&b"#t"[..]), Err(ParseError::NoMatch));
}
