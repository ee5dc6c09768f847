use lisp::{is_exit_request, respond, ParseError, Reply};

#[test]
fn exit_words() {
    assert!(is_exit_request(b"exit"));
    assert!(is_exit_request(b"e"));
    assert!(is_exit_request(b"quit"));
    assert!(is_exit_request(b"q"));
    assert!(!is_exit_request(b"exits"));
    assert!(!is_exit_request(b""));
    assert!(!is_exit_request(b"qu"));
    assert!(!is_exit_request(b"#t"));
}

#[test]
fn replies() {
    assert_eq!(respond(b"quit"), Reply::Exit);
    assert_eq!(respond(b"#true"), Reply::Show(String::from("true")));
    assert_eq!(respond(b" -#i7 "), Reply::Show(String::from("-#i7")));
    assert_eq!(respond(b"#tr"), Reply::Fail(ParseError::UnrecognizedLiteral));
    assert_eq!(respond(b""), Reply::Fail(ParseError::Incomplete));
}
