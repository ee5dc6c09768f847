//! The exactness prefix of a number: `#e` or `#i`.

use vstd::prelude::*;
use crate::text::{all_space, lemma_lit_at_extend, lemma_padded_tail, lemma_padded_ws, agrees, finish, lit_at, padded, read_tag, same, skip_ws, tag_at, tag_outcome, unpadded, Outcome, ParseError};

verus! {

/// Whether a number is read as exact or as inexact.
#[derive(Clone, Copy, Debug, PartialEq, Eq, Structural)]
pub enum Exactness {
    Exact,
    Inexact,
}

impl View for Exactness {
    type V = Exactness;

    open spec fn view(&self) -> Exactness {
        *self
    }
}

/// The bytes of `#e`.
pub open spec fn exact_tag() -> Seq<u8> {
    seq![35u8, 101u8]
}

/// The bytes of `#i`.
pub open spec fn inexact_tag() -> Seq<u8> {
    seq![35u8, 105u8]
}

/// The exactness token at the start of `t`, with no whitespace around it.
pub open spec fn exactness_token(t: Seq<u8>) -> Outcome<Exactness> {
    if t.len() == 0 {
        Err(ParseError::Incomplete)
    } else if lit_at(t, exact_tag()) {
        Ok((Exactness::Exact, 2))
    } else if lit_at(t, inexact_tag()) {
        Ok((Exactness::Inexact, 2))
    } else {
        Err(ParseError::NoMatch)
    }
}

/// An exactness prefix between optional runs of whitespace.
pub open spec fn exactness_spec(s: Seq<u8>) -> Outcome<Exactness> {
    padded(s, exactness_token(unpadded(s)))
}

/// Reads the exactness token at `pos`.
pub fn exactness_at(input: &[u8], pos: usize) -> (r: Result<(Exactness, usize), ParseError>)
    requires
        pos <= input@.len(),
    ensures
        same(r, exactness_token(input@.skip(pos as int))),
        r matches Ok((_, n)) ==> pos + n <= input@.len(),
{
    let e: [u8; 2] = [35u8, 101u8];
    let i: [u8; 2] = [35u8, 105u8];
    assert(e@ =~= exact_tag());
    assert(i@ =~= inexact_tag());
    if pos == input.len() {
        Err(ParseError::Incomplete)
    } else if tag_at(input, pos, e.as_slice()) {
        Ok((Exactness::Exact, 2))
    } else if tag_at(input, pos, i.as_slice()) {
        Ok((Exactness::Inexact, 2))
    } else {
        Err(ParseError::NoMatch)
    }
}

/// Reads `#e` as `Exact`.
pub fn exact(input: &[u8]) -> (r: Result<(Exactness, &[u8]), ParseError>)
    ensures
        agrees(r, input@, tag_outcome(input@, exact_tag(), Exactness::Exact)),
{
    let e: [u8; 2] = [35u8, 101u8];
    assert(e@ =~= exact_tag());
    read_tag(input, e.as_slice(), Exactness::Exact)
}

/// Reads `#i` as `Inexact`.
pub fn inexact(input: &[u8]) -> (r: Result<(Exactness, &[u8]), ParseError>)
    ensures
        agrees(r, input@, tag_outcome(input@, inexact_tag(), Exactness::Inexact)),
{
    let i: [u8; 2] = [35u8, 105u8];
    assert(i@ =~= inexact_tag());
    read_tag(input, i.as_slice(), Exactness::Inexact)
}

/// Reads an exactness prefix, with any whitespace before and after it.
pub fn exactness(input: &[u8]) -> (r: Result<(Exactness, &[u8]), ParseError>)
    ensures
        agrees(r, input@, exactness_spec(input@)),
{
    let len = input.len();
    let lead = skip_ws(input, 0);
    proof {
        assert(input@.skip(0) =~= input@);
    }
    match exactness_at(input, lead) {
        Ok((v, n)) => {
            let end = skip_ws(input, lead + n);
            finish(input, v, end)
        },
        Err(e) => Err(e),
    }
}

/// Bytes after the first two do not change the exactness token.
pub proof fn lemma_exactness_token_extend(x: Seq<u8>, y: Seq<u8>)
    requires
        x.len() >= 2,
    ensures
        exactness_token(x + y) == exactness_token(x),
{
    lemma_lit_at_extend(x, y, exact_tag());
    lemma_lit_at_extend(x, y, inexact_tag());
}

/// An exactness prefix that makes up the whole of `lit` is read as the same
/// exactness from `lit` with whitespace before it, after it, or both, and the
/// whitespace is consumed with it.
pub proof fn lemma_exactness_whitespace(pre: Seq<u8>, lit: Seq<u8>, post: Seq<u8>)
    requires
        all_space(pre),
        all_space(post),
        exactness_spec(lit) matches Ok((_, n)) && n == lit.len(),
    ensures
        exactness_spec(pre + lit + post) == Ok::<(Exactness, nat), ParseError>(
            (exactness_spec(lit)->Ok_0.0, (pre + lit + post).len()),
        ),
{
    let tok = |t: Seq<u8>| exactness_token(t);
    lemma_padded_tail(tok, lit);
    lemma_exactness_token_extend(unpadded(lit), post);
    lemma_padded_ws(tok, pre, lit, post);
}

} // verus!
