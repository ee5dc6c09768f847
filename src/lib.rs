//! A reader for the boolean and integer literals of a Lisp-family language.
//!
//! Every recognizer works on bytes and hands back the value it read together
//! with the bytes that follow it, or a [`ParseError`].

pub mod text;
pub mod sign;
pub mod exactness;
pub mod radix;
pub mod boolean;
pub mod uinteger;
pub mod number;
pub mod reader;
pub mod repl;

pub use text::ParseError;
pub use sign::Sign;
pub use exactness::Exactness;
pub use uinteger::Uinteger;
pub use number::Number;
pub use reader::{parse, Token};
pub use repl::{is_exit_request, respond, Reply};
