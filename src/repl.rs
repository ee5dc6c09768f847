//! The decisions of an interactive reader: when to stop, and what to show
//! for a line.

use vstd::prelude::*;
use crate::reader::{parse, parse_spec, token_text};
use crate::text::ParseError;

verus! {

/// The words that end a session.
pub open spec fn is_exit_word(line: Seq<u8>) -> bool {
    line == seq![101u8, 120u8, 105u8, 116u8] || line == seq![101u8] || line == seq![113u8, 117u8, 105u8, 116u8]
        || line == seq![113u8]
}

/// What to do with a line that was read.
#[derive(Clone, Debug, PartialEq, Eq)]
pub enum Reply {
    /// End the session.
    Exit,
    /// Show the text of the literal that was read.
    Show(String),
    /// Report why nothing was read.
    Fail(ParseError),
}

/// Whether `line` asks to end the session: `exit`, `e`, `quit` or `q`.
pub fn is_exit_request(line: &[u8]) -> (r: bool)
    ensures
        r == is_exit_word(line@),
{
    let n = line.len();
    if n == 1 {
        assert(line@ == seq![line@[0]]);
        line[0] == 101u8 || line[0] == 113u8
    } else if n == 4 {
        assert(line@ == seq![line@[0], line@[1], line@[2], line@[3]]);
        (line[0] == 101u8 && line[1] == 120u8 && line[2] == 105u8 && line[3] == 116u8) || (line[0] == 113u8
            && line[1] == 117u8 && line[2] == 105u8 && line[3] == 116u8)
    } else {
        false
    }
}

/// What to do with `line`: end the session on an exit word, else show the
/// literal that it starts with, or report why none could be read.
pub fn respond(line: &[u8]) -> (r: Reply)
    ensures
        is_exit_word(line@) ==> r == Reply::Exit,
        !is_exit_word(line@) ==> match parse_spec(line@) {
            Ok((t, _)) => r matches Reply::Show(s) && s@ == token_text(t),
            Err(e) => r == Reply::Fail(e),
        },
{
    if is_exit_request(line) {
        return Reply::Exit;
    }
    match parse(line) {
        Ok((t, _)) => Reply::Show(t.to_text()),
        Err(e) => Reply::Fail(e),
    }
}

} // verus!
