use lisp::radix::{radix, radix_10, radix_16, radix_2, radix_8};
use lisp::ParseError;

#[test]
fn radix_2_test() {
    assert_eq!(radix_2(&b"#b"[..]), Ok((2u8, &b""[..])));
}

#[test]
fn radix_8_test() {
    assert_eq!(radix_8(&b"#o"[..]), Ok((8u8, &b""[..])));
}

#[test]
fn radix_10_test() {
    assert_eq!(radix_10(&b"#d"[..]), Ok((10u8, &b""[..])));
}

#[test]
fn radix_16_test() {
    assert_eq!(radix_16(&b"#x"[..]), Ok((16u8, &b""[..])));
}

#[test]
fn radix_prefixes() {
    assert_eq!(radix(&b"#b"[..]), Ok((2u8, &b""[..])));
    assert_eq!(radix(&b"#o"[..]), Ok((8u8, &b""[..])));
    assert_eq!(radix(&b"#d"[..]), Ok((10u8, &b""[..])));
    assert_eq!(radix(&b"#x"[..]), Ok((16u8, &b""[..])));
}

#[test]
fn radix_leading_whitespace() {
    assert_eq!(radix(&b" \t\t \n #b"[..]), Ok((2u8, &b""[..])));
}

#[test]
fn radix_trailing_whitespace() {
    assert_eq!(radix(&b"#b \t  \n\n  "[..]), Ok((2u8, &b""[..])));
}

#[test]
fn radix_surrounding_whitespace() {
    assert_eq!(radix(&b"   \t\t\t\n\n\n#b\n\n\n\t\t\t    "[..]), Ok((2u8, &b""[..])));
}

#[test]
fn radix_errors() {
    assert_eq!(radix(&b"#e"[..]), Err(ParseError::NoMatch));
    assert_eq!(radix(&b"#"[..]), Err(ParseError::NoMatch));
    assert_eq!(radix(&b" "[..]), Err(ParseError::Incomplete));
    assert_eq!(radix_2(&b"#o"[..]), Err(ParseError::NoMatch));
}
