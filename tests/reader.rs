use lisp::{parse, Exactness, Number, ParseError, Sign, Token, Uinteger};

#[test]
fn parse_tries_boolean_first() {
    assert_eq!(parse(&b"#t"[..]), Ok((Token::Boolean(true), &b""[..])));
    assert_eq!(parse(&b"#false"[..]), Ok((Token::Boolean(false), &b""[..])));
}

#[test]
fn parse_falls_back_to_number() {
    assert_eq!(
        parse(&b"-#i9"[..]),
        Ok((Token::Number(Number::new(Sign::Negative, Exactness::Inexact, Uinteger::from_u64(9))), &b""[..]))
    );
}

#[test]
fn parse_whitespace_invariance() {
    let plain = parse(&b"#true"[..]);
    assert_eq!(parse(&b" \t\n#true"[..]), plain);
    assert_eq!(parse(&b"#true\n\t "[..]), plain);
    assert_eq!(parse(&b"  #true  "[..]), plain);
    let n = parse(&b"+#x#eFF"[..]);
    assert_eq!(parse(&b"\n+#x#eFF\t"[..]), n);
}

#[test]
fn parse_errors() {
    assert_eq!(parse(&b"#tr"[..]), Err(ParseError::UnrecognizedLiteral));
    assert_eq!(parse(&b"hello"[..]), Err(ParseError::UnrecognizedLiteral));
    assert_eq!(parse(&b"  "[..]), Err(ParseError::Incomplete));
    assert_eq!(parse(&b"+"[..]), Err(ParseError::Incomplete));
}

#[test]
fn reparse_remainder() {
    let (first, rest) = parse(&b"#t #f -#e12"[..]).unwrap();
    assert_eq!(first, Token::Boolean(true));
    assert_eq!(rest, &b"#f -#e12"[..]);
    let again = parse(rest);
    let fresh = parse(&b"#f -#e12"[..]);
    assert_eq!(again, fresh);
    let (second, rest2) = again.unwrap();
    assert_eq!(second, Token::Boolean(false));
    let (third, rest3) = parse(rest2).unwrap();
    assert_eq!(third.to_text(), "-#e12");
    assert_eq!(rest3, &b""[..]);
}

#[test]
fn token_text() {
    assert_eq!(parse(&b"#t"[..]).unwrap().0.to_text(), "true");
    assert_eq!(parse(&b"#true"[..]).unwrap().0.to_text(), "true");
    assert_eq!(parse(&b"#f"[..]).unwrap().0.to_text(), "false");
    assert_eq!(parse(&b"+#x#eff"[..]).unwrap().0.to_text(), "+#e255");
}
