//! The top-level reader: a boolean if one is written, else a number.

use vstd::prelude::*;
use crate::boolean::{lemma_boolean_needs_hash, lemma_boolean_token_extend, boolean_at, boolean_token};
use crate::number::{lemma_number_token_extend, number_at, number_text, number_token, Number, NumberModel};
use crate::text::{all_space, lemma_padded_tail, lemma_padded_ws, agrees, append, finish, padded, same, skip_ws, unpadded, Outcome, ParseError};

verus! {

/// A literal read from text.
#[derive(Clone, Debug, PartialEq, Eq)]
pub enum Token {
    Boolean(bool),
    Number(Number),
}

/// What a token is.
pub enum TokenModel {
    Boolean(bool),
    Number(NumberModel),
}

impl View for Token {
    type V = TokenModel;

    open spec fn view(&self) -> TokenModel {
        match self {
            Token::Boolean(b) => TokenModel::Boolean(*b),
            Token::Number(n) => TokenModel::Number(n@),
        }
    }
}

/// The token at the start of `t`, with no whitespace around it: a boolean
/// where one is written, else a number. Where neither is, the input ended too
/// early for a number, or no literal is written there.
pub open spec fn token_token(t: Seq<u8>) -> Outcome<TokenModel> {
    match boolean_token(t) {
        Ok((b, n)) => Ok((TokenModel::Boolean(b), n)),
        Err(_) => match number_token(t) {
            Ok((m, n)) => Ok((TokenModel::Number(m), n)),
            Err(ParseError::Incomplete) => Err(ParseError::Incomplete),
            Err(_) => Err(ParseError::UnrecognizedLiteral),
        },
    }
}

/// A literal between optional runs of whitespace.
pub open spec fn parse_spec(s: Seq<u8>) -> Outcome<TokenModel> {
    padded(s, token_token(unpadded(s)))
}

/// The text of a token: `true` or `false` for a boolean, whichever spelling
/// was read, and the text of a number.
pub open spec fn token_text(t: TokenModel) -> Seq<char> {
    match t {
        TokenModel::Boolean(true) => seq!['t', 'r', 'u', 'e'],
        TokenModel::Boolean(false) => seq!['f', 'a', 'l', 's', 'e'],
        TokenModel::Number(m) => number_text(m),
    }
}

impl Token {
    /// The text of the token.
    pub fn to_text(&self) -> (r: String)
        ensures
            r@ == token_text(self@),
    {
        match self {
            Token::Boolean(true) => {
                let mut out = String::new();
                proof {
                    reveal_strlit("true");
                }
                append(&mut out, "true");
                assert(out@ =~= token_text(self@));
                out
            },
            Token::Boolean(false) => {
                let mut out = String::new();
                proof {
                    reveal_strlit("false");
                }
                append(&mut out, "false");
                assert(out@ =~= token_text(self@));
                out
            },
            Token::Number(n) => n.to_text(),
        }
    }
}

/// Reads the token at `pos`: a boolean, and only where none is written, a
/// number read from `pos` again.
pub fn token_at(input: &[u8], pos: usize) -> (r: Result<(Token, usize), ParseError>)
    requires
        pos <= input@.len(),
    ensures
        same(r, token_token(input@.skip(pos as int))),
        r matches Ok((_, n)) ==> pos + n <= input@.len(),
{
    match boolean_at(input, pos) {
        Ok((b, n)) => Ok((Token::Boolean(b), n)),
        Err(_) => match number_at(input, pos) {
            Ok((m, n)) => Ok((Token::Number(m), n)),
            Err(ParseError::Incomplete) => Err(ParseError::Incomplete),
            Err(_) => Err(ParseError::UnrecognizedLiteral),
        },
    }
}

/// Reads one literal, a boolean or a number, with any whitespace before and
/// after it, and hands back the bytes that follow.
pub fn parse(input: &[u8]) -> (r: Result<(Token, &[u8]), ParseError>)
    ensures
        agrees(r, input@, parse_spec(input@)),
{
    let len = input.len();
    let lead = skip_ws(input, 0);
    proof {
        assert(input@.skip(0) =~= input@);
    }
    match token_at(input, lead) {
        Ok((v, n)) => {
            let end = skip_ws(input, lead + n);
            finish(input, v, end)
        },
        Err(e) => Err(e),
    }
}

/// Whitespace after a token that only whitespace follows does not change
/// what is read.
proof fn lemma_token_extend(x: Seq<u8>, y: Seq<u8>)
    requires
        token_token(x) matches Ok((_, k)) && k <= x.len() && all_space(x.skip(k as int)),
        all_space(y),
    ensures
        token_token(x + y) == token_token(x),
{
    if boolean_token(x) is Ok {
        lemma_boolean_token_extend(x, y);
    } else {
        assert(x.len() > 0 && (x[0] == 43u8 || x[0] == 45u8));
        assert((x + y)[0] == x[0]);
        lemma_boolean_needs_hash(x + y);
        lemma_number_token_extend(x, y);
    }
}

/// A literal that makes up the whole of `lit` is read as the same token from
/// `lit` with whitespace before it, after it, or both, and the whitespace is
/// consumed with it.
pub proof fn lemma_parse_whitespace(pre: Seq<u8>, lit: Seq<u8>, post: Seq<u8>)
    requires
        all_space(pre),
        all_space(post),
        parse_spec(lit) matches Ok((_, n)) && n == lit.len(),
    ensures
        parse_spec(pre + lit + post) == Ok::<(TokenModel, nat), ParseError>(
            (parse_spec(lit)->Ok_0.0, (pre + lit + post).len()),
        ),
{
    let tok = |t: Seq<u8>| token_token(t);
    lemma_padded_tail(tok, lit);
    lemma_token_extend(unpadded(lit), post);
    lemma_padded_ws(tok, pre, lit, post);
}

/// Reading depends on the bytes alone. Reading again the bytes `rest` that
/// an earlier call left over gives what any fresh call on bytes equal to
/// them gives: the same success or error, the same token and the same
/// remainder.
pub proof fn lemma_reparse_determined(
    rest: &[u8],
    again: Result<(Token, &[u8]), ParseError>,
    fresh: &[u8],
    other: Result<(Token, &[u8]), ParseError>,
)
    requires
        fresh@ == rest@,
        agrees(again, rest@, parse_spec(rest@)),
        agrees(other, fresh@, parse_spec(fresh@)),
    ensures
        again is Ok <==> other is Ok,
        again is Ok ==> again->Ok_0.0@ == other->Ok_0.0@ && again->Ok_0.1@ == other->Ok_0.1@,
        again is Err ==> again == other,
{
}

} // verus!
