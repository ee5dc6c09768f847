//! The radix prefix of a number: `#b`, `#o`, `#d` or `#x`.

use vstd::prelude::*;
use crate::text::{all_space, lemma_padded_tail, lemma_padded_ws, ws_len, agrees, finish, padded, read_tag, same, skip_ws, tag_outcome, unpadded, Outcome, ParseError};

verus! {

/// The bytes of `#` followed by `letter`.
pub open spec fn hash_tag(letter: u8) -> Seq<u8> {
    seq![35u8, letter]
}

/// The radix that the prefix `#` `letter` selects, if it is one.
pub open spec fn radix_of_letter(letter: u8) -> Option<u8> {
    if letter == 98u8 {
        Some(2u8)
    } else if letter == 111u8 {
        Some(8u8)
    } else if letter == 100u8 {
        Some(10u8)
    } else if letter == 120u8 {
        Some(16u8)
    } else {
        None
    }
}

/// The radix token at the start of `t`, with no whitespace around it.
pub open spec fn radix_token(t: Seq<u8>) -> Outcome<u8> {
    if t.len() == 0 {
        Err(ParseError::Incomplete)
    } else if t.len() >= 2 && t[0] == 35u8 && radix_of_letter(t[1]) is Some {
        Ok((radix_of_letter(t[1])->Some_0, 2))
    } else {
        Err(ParseError::NoMatch)
    }
}

/// A radix prefix between optional runs of whitespace.
pub open spec fn radix_spec(s: Seq<u8>) -> Outcome<u8> {
    padded(s, radix_token(unpadded(s)))
}

/// Reads the radix token at `pos`.
pub fn radix_at(input: &[u8], pos: usize) -> (r: Result<(u8, usize), ParseError>)
    requires
        pos <= input@.len(),
    ensures
        same(r, radix_token(input@.skip(pos as int))),
        r matches Ok((_, n)) ==> pos + n <= input@.len(),
{
    let len = input.len();
    if pos == len {
        return Err(ParseError::Incomplete);
    }
    if len - pos < 2 || input[pos] != 35u8 {
        return Err(ParseError::NoMatch);
    }
    let letter = input[pos + 1];
    let radix: u8 = if letter == 98u8 {
        2
    } else if letter == 111u8 {
        8
    } else if letter == 100u8 {
        10
    } else if letter == 120u8 {
        16
    } else {
        return Err(ParseError::NoMatch);
    };
    Ok((radix, 2))
}

/// Reads `#b` as 2.
pub fn radix_2(input: &[u8]) -> (r: Result<(u8, &[u8]), ParseError>)
    ensures
        agrees(r, input@, tag_outcome(input@, hash_tag(98u8), 2u8)),
{
    let t: [u8; 2] = [35u8, 98u8];
    assert(t@ =~= hash_tag(98u8));
    read_tag(input, t.as_slice(), 2u8)
}

/// Reads `#o` as 8.
pub fn radix_8(input: &[u8]) -> (r: Result<(u8, &[u8]), ParseError>)
    ensures
        agrees(r, input@, tag_outcome(input@, hash_tag(111u8), 8u8)),
{
    let t: [u8; 2] = [35u8, 111u8];
    assert(t@ =~= hash_tag(111u8));
    read_tag(input, t.as_slice(), 8u8)
}

/// Reads `#d` as 10.
pub fn radix_10(input: &[u8]) -> (r: Result<(u8, &[u8]), ParseError>)
    ensures
        agrees(r, input@, tag_outcome(input@, hash_tag(100u8), 10u8)),
{
    let t: [u8; 2] = [35u8, 100u8];
    assert(t@ =~= hash_tag(100u8));
    read_tag(input, t.as_slice(), 10u8)
}

/// Reads `#x` as 16.
pub fn radix_16(input: &[u8]) -> (r: Result<(u8, &[u8]), ParseError>)
    ensures
        agrees(r, input@, tag_outcome(input@, hash_tag(120u8), 16u8)),
{
    let t: [u8; 2] = [35u8, 120u8];
    assert(t@ =~= hash_tag(120u8));
    read_tag(input, t.as_slice(), 16u8)
}

/// Reads a radix prefix, with any whitespace before and after it.
pub fn radix(input: &[u8]) -> (r: Result<(u8, &[u8]), ParseError>)
    ensures
        agrees(r, input@, radix_spec(input@)),
{
    let len = input.len();
    let lead = skip_ws(input, 0);
    proof {
        assert(input@.skip(0) =~= input@);
    }
    match radix_at(input, lead) {
        Ok((v, n)) => {
            let end = skip_ws(input, lead + n);
            finish(input, v, end)
        },
        Err(e) => Err(e),
    }
}

/// Bytes after the first two do not change the radix token.
pub proof fn lemma_radix_token_extend(x: Seq<u8>, y: Seq<u8>)
    requires
        x.len() >= 2,
    ensures
        radix_token(x + y) == radix_token(x),
{
    assert((x + y)[0] == x[0]);
    assert((x + y)[1] == x[1]);
}

/// The four radix prefixes `#b`, `#o`, `#d` and `#x` are read as 2, 8, 10
/// and 16, consuming both bytes; no other `#` prefix is a radix, and no two
/// prefixes give the same radix.
pub proof fn lemma_radix_prefixes(letter: u8, other: u8)
    ensures
        radix_spec(hash_tag(letter)) is Ok <==> radix_of_letter(letter) is Some,
        radix_of_letter(letter) is Some ==> radix_spec(hash_tag(letter)) == Ok::<(u8, nat), ParseError>(
            (radix_of_letter(letter)->Some_0, 2nat),
        ),
        radix_of_letter(98u8) == Some(2u8),
        radix_of_letter(111u8) == Some(8u8),
        radix_of_letter(100u8) == Some(10u8),
        radix_of_letter(120u8) == Some(16u8),
        radix_of_letter(letter) is Some && radix_of_letter(letter) == radix_of_letter(other) ==> letter == other,
{
    let s = hash_tag(letter);
    assert(ws_len(s) == 0);
    assert(unpadded(s) =~= s);
    assert(s.skip(2) =~= Seq::<u8>::empty());
    assert(ws_len(Seq::<u8>::empty()) == 0);
}

/// A radix prefix that makes up the whole of `lit` is read as the same radix
/// from `lit` with whitespace before it, after it, or both, and the whitespace
/// is consumed with it.
pub proof fn lemma_radix_whitespace(pre: Seq<u8>, lit: Seq<u8>, post: Seq<u8>)
    requires
        all_space(pre),
        all_space(post),
        radix_spec(lit) matches Ok((_, n)) && n == lit.len(),
    ensures
        radix_spec(pre + lit + post) == Ok::<(u8, nat), ParseError>((radix_spec(lit)->Ok_0.0, (pre + lit + post).len())),
{
    let tok = |t: Seq<u8>| radix_token(t);
    lemma_padded_tail(tok, lit);
    lemma_radix_token_extend(unpadded(lit), post);
    lemma_padded_ws(tok, pre, lit, post);
}

} // verus!
