//! The optional sign in front of a number: `+` or `-`.

use vstd::prelude::*;
use crate::text::{ws_len, all_space, lemma_padded_tail, lemma_padded_ws, agrees, finish, padded, same, skip_ws, unpadded, Outcome, ParseError};

verus! {

/// The sign written in front of a number.
#[derive(Clone, Copy, Debug, PartialEq, Eq, Structural)]
pub enum Sign {
    Positive,
    Negative,
}

impl View for Sign {
    type V = Sign;

    open spec fn view(&self) -> Sign {
        *self
    }
}

/// The sign token at the start of `t`, with no whitespace around it.
pub open spec fn sign_token(t: Seq<u8>) -> Outcome<Sign> {
    if t.len() == 0 {
        Err(ParseError::Incomplete)
    } else if t[0] == 43u8 {
        Ok((Sign::Positive, 1))
    } else if t[0] == 45u8 {
        Ok((Sign::Negative, 1))
    } else {
        Err(ParseError::NoMatch)
    }
}

/// A sign between optional runs of whitespace.
pub open spec fn sign_spec(s: Seq<u8>) -> Outcome<Sign> {
    padded(s, sign_token(unpadded(s)))
}

/// Reads the sign token at `pos`.
pub fn sign_at(input: &[u8], pos: usize) -> (r: Result<(Sign, usize), ParseError>)
    requires
        pos <= input@.len(),
    ensures
        same(r, sign_token(input@.skip(pos as int))),
        r matches Ok((_, n)) ==> pos + n <= input@.len(),
{
    if pos == input.len() {
        Err(ParseError::Incomplete)
    } else if input[pos] == 43u8 {
        Ok((Sign::Positive, 1))
    } else if input[pos] == 45u8 {
        Ok((Sign::Negative, 1))
    } else {
        Err(ParseError::NoMatch)
    }
}

/// Reads `+` as `Positive`, consuming that one byte.
pub fn positive(input: &[u8]) -> (r: Result<(Sign, &[u8]), ParseError>)
    ensures
        agrees(
            r,
            input@,
            if input@.len() > 0 && input@[0] == 43u8 {
                Ok((Sign::Positive, 1nat))
            } else {
                Err(ParseError::NoMatch)
            },
        ),
{
    if input.len() > 0 && input[0] == 43u8 {
        finish(input, Sign::Positive, 1)
    } else {
        Err(ParseError::NoMatch)
    }
}

/// Reads `-` as `Negative`, consuming that one byte.
pub fn negative(input: &[u8]) -> (r: Result<(Sign, &[u8]), ParseError>)
    ensures
        agrees(
            r,
            input@,
            if input@.len() > 0 && input@[0] == 45u8 {
                Ok((Sign::Negative, 1nat))
            } else {
                Err(ParseError::NoMatch)
            },
        ),
{
    if input.len() > 0 && input[0] == 45u8 {
        finish(input, Sign::Negative, 1)
    } else {
        Err(ParseError::NoMatch)
    }
}

/// Reads a sign, with any whitespace before and after it.
pub fn sign(input: &[u8]) -> (r: Result<(Sign, &[u8]), ParseError>)
    ensures
        agrees(r, input@, sign_spec(input@)),
{
    let len = input.len();
    let lead = skip_ws(input, 0);
    proof {
        assert(input@.skip(0) =~= input@);
    }
    match sign_at(input, lead) {
        Ok((v, n)) => {
            let end = skip_ws(input, lead + n);
            finish(input, v, end)
        },
        Err(e) => Err(e),
    }
}

/// Whitespace after a sign token does not change what is read.
proof fn lemma_sign_token_extend(x: Seq<u8>, y: Seq<u8>)
    requires
        sign_token(x) is Ok,
    ensures
        sign_token(x + y) == sign_token(x),
{
    assert((x + y)[0] == x[0]);
}

/// Every spelling of a sign is read as its sign, consuming all of it.
pub proof fn lemma_sign_spellings(c: u8)
    requires
        c == 43u8 || c == 45u8,
    ensures
        sign_spec(seq![c]) == Ok::<(Sign, nat), ParseError>(
            (if c == 43u8 { Sign::Positive } else { Sign::Negative }, 1nat),
        ),
{
    let s = seq![c];
    assert(ws_len(s) == 0);
    assert(unpadded(s) =~= s);
    assert(s.skip(1) =~= Seq::<u8>::empty());
    assert(ws_len(Seq::<u8>::empty()) == 0);
}

/// A sign that makes up the whole of `lit` is read as the same sign from
/// `lit` with whitespace before it, after it, or both, and the whitespace is
/// consumed with it.
pub proof fn lemma_sign_whitespace(pre: Seq<u8>, lit: Seq<u8>, post: Seq<u8>)
    requires
        all_space(pre),
        all_space(post),
        sign_spec(lit) matches Ok((_, n)) && n == lit.len(),
    ensures
        sign_spec(pre + lit + post) == Ok::<(Sign, nat), ParseError>(
            (sign_spec(lit)->Ok_0.0, (pre + lit + post).len()),
        ),
{
    let tok = |t: Seq<u8>| sign_token(t);
    lemma_padded_tail(tok, lit);
    lemma_sign_token_extend(unpadded(lit), post);
    lemma_padded_ws(tok, pre, lit, post);
}

} // verus!
