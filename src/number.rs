//! Numbers: a sign, an optional radix prefix, an exactness prefix and a run
//! of digits, read in that order.
//!
//! The sign and the exactness prefix are required. Without a radix prefix the
//! digits are read in radix 10. The digit run is read in the radix that the
//! prefix selects; where no digit follows the exactness prefix, the number
//! still reads, with the magnitude `DIGITLESS_MAGNITUDE`.

use vstd::prelude::*;
use crate::exactness::{lemma_exactness_token_extend, exactness_at, exactness_token, Exactness};
use crate::radix::{lemma_radix_token_extend, radix_at, radix_token};
use crate::sign::{sign_at, sign_token, Sign};
use crate::text::{all_space, lemma_padded_tail, lemma_padded_ws, agrees, append, finish, padded, same, skip_ws, unpadded, Outcome, ParseError};
use crate::uinteger::{lemma_digits_extend, lemma_run_len_bound, run_len, decimal_of, digits_at, digits_spec, Uinteger};

verus! {

/// The magnitude of a number written without digits, such as `-#i`.
pub const DIGITLESS_MAGNITUDE: u64 = 7;

/// The radix of a number written without a radix prefix.
pub const DEFAULT_RADIX: u8 = 10;

/// What a number is: its sign, its exactness and its magnitude.
pub struct NumberModel {
    pub sign: Sign,
    pub exactness: Exactness,
    pub magnitude: nat,
}

/// A number read from text. The sign is kept apart from the magnitude,
/// which is never negative.
#[derive(Clone, Debug, PartialEq, Eq)]
pub struct Number {
    sign: Sign,
    exactness: Exactness,
    value: Uinteger,
}

impl View for Number {
    type V = NumberModel;

    closed spec fn view(&self) -> NumberModel {
        NumberModel { sign: self.sign, exactness: self.exactness, magnitude: self.value@ }
    }
}

/// The radix prefix at the start of `t`, or the default radix and no bytes
/// where there is none.
pub open spec fn radix_or_default(t: Seq<u8>) -> (u8, nat) {
    match radix_token(t) {
        Ok((r, n)) => (r, n),
        Err(_) => (DEFAULT_RADIX, 0nat),
    }
}

/// The number token at the start of `t`, with no whitespace around it.
pub open spec fn number_token(t: Seq<u8>) -> Outcome<NumberModel> {
    match sign_token(t) {
        Err(e) => Err(e),
        Ok((s, n1)) => {
            let t1 = t.skip(n1 as int);
            let (radix, n2) = radix_or_default(t1);
            let t2 = t1.skip(n2 as int);
            match exactness_token(t2) {
                Err(e) => Err(e),
                Ok((x, n3)) => {
                    let t3 = t2.skip(n3 as int);
                    match digits_spec(t3, radix as nat) {
                        Ok((m, n4)) => Ok((NumberModel { sign: s, exactness: x, magnitude: m }, n1 + n2 + n3 + n4)),
                        Err(_) => Ok(
                            (NumberModel { sign: s, exactness: x, magnitude: DIGITLESS_MAGNITUDE as nat }, n1 + n2 + n3),
                        ),
                    }
                },
            }
        },
    }
}

/// A number between optional runs of whitespace.
pub open spec fn number_spec(s: Seq<u8>) -> Outcome<NumberModel> {
    padded(s, number_token(unpadded(s)))
}

/// The text of a sign.
pub open spec fn sign_text(s: Sign) -> Seq<char> {
    match s {
        Sign::Positive => seq!['+'],
        Sign::Negative => seq!['-'],
    }
}

/// The text of an exactness.
pub open spec fn exactness_text(x: Exactness) -> Seq<char> {
    match x {
        Exactness::Exact => seq!['#', 'e'],
        Exactness::Inexact => seq!['#', 'i'],
    }
}

/// The text of a number: sign, exactness and decimal magnitude, with no
/// separator.
pub open spec fn number_text(m: NumberModel) -> Seq<char> {
    sign_text(m.sign) + exactness_text(m.exactness) + decimal_of(m.magnitude)
}

impl Number {
    /// The number with the given parts.
    pub fn new(sign: Sign, exactness: Exactness, value: Uinteger) -> (r: Number)
        ensures
            r@ == (NumberModel { sign, exactness, magnitude: value@ }),
    {
        Number { sign, exactness, value }
    }

    /// The sign.
    pub fn sign(&self) -> (r: Sign)
        ensures
            r == self@.sign,
    {
        self.sign
    }

    /// The exactness.
    pub fn exactness(&self) -> (r: Exactness)
        ensures
            r == self@.exactness,
    {
        self.exactness
    }

    /// The magnitude.
    pub fn value(&self) -> (r: &Uinteger)
        ensures
            r@ == self@.magnitude,
    {
        &self.value
    }

    /// The text of the number: its sign, its exactness and its magnitude in
    /// decimal, with no separator.
    pub fn to_text(&self) -> (r: String)
        ensures
            r@ == number_text(self@),
    {
        let mut out = String::new();
        match self.sign {
            Sign::Positive => {
                proof {
                    reveal_strlit("+");
                }
                append(&mut out, "+");
            },
            Sign::Negative => {
                proof {
                    reveal_strlit("-");
                }
                append(&mut out, "-");
            },
        }
        match self.exactness {
            Exactness::Exact => {
                proof {
                    reveal_strlit("#e");
                }
                append(&mut out, "#e");
            },
            Exactness::Inexact => {
                proof {
                    reveal_strlit("#i");
                }
                append(&mut out, "#i");
            },
        }
        let digits = self.value.to_decimal();
        append(&mut out, digits.as_str());
        assert(out@ =~= number_text(self@));
        out
    }
}

/// Reads the number token at `pos`.
pub fn number_at(input: &[u8], pos: usize) -> (r: Result<(Number, usize), ParseError>)
    requires
        pos <= input@.len(),
    ensures
        same(r, number_token(input@.skip(pos as int))),
        r matches Ok((_, n)) ==> pos + n <= input@.len(),
{
    let len = input.len();
    let ghost t = input@.skip(pos as int);
    let (s, n1) = match sign_at(input, pos) {
        Ok(found) => found,
        Err(e) => return Err(e),
    };
    let p1 = pos + n1;
    assert(t.skip(n1 as int) =~= input@.skip(p1 as int));
    let (radix, n2) = match radix_at(input, p1) {
        Ok(found) => found,
        Err(_) => (DEFAULT_RADIX, 0),
    };
    let p2 = p1 + n2;
    assert(t.skip(n1 as int).skip(n2 as int) =~= input@.skip(p2 as int));
    let (x, n3) = match exactness_at(input, p2) {
        Ok(found) => found,
        Err(e) => return Err(e),
    };
    let p3 = p2 + n3;
    assert(t.skip(n1 as int).skip(n2 as int).skip(n3 as int) =~= input@.skip(p3 as int));
    match digits_at(input, p3, radix as u32) {
        Ok((m, n4)) => Ok((Number { sign: s, exactness: x, value: m }, n1 + n2 + n3 + n4)),
        Err(_) => {
            let m = Uinteger::from_u64(DIGITLESS_MAGNITUDE);
            Ok((Number { sign: s, exactness: x, value: m }, n1 + n2 + n3))
        },
    }
}

/// Reads a number, with any whitespace before and after it: a sign, an
/// optional radix prefix (10 where there is none), an exactness prefix, and
/// the longest run of digits of the radix that follows. Where no digit
/// follows, the magnitude is `DIGITLESS_MAGNITUDE`.
pub fn number(input: &[u8]) -> (r: Result<(Number, &[u8]), ParseError>)
    ensures
        agrees(r, input@, number_spec(input@)),
{
    let len = input.len();
    let lead = skip_ws(input, 0);
    proof {
        assert(input@.skip(0) =~= input@);
    }
    match number_at(input, lead) {
        Ok((v, n)) => {
            let end = skip_ws(input, lead + n);
            finish(input, v, end)
        },
        Err(e) => Err(e),
    }
}

/// Whitespace after a number token that only whitespace follows does not
/// change what is read.
pub proof fn lemma_number_token_extend(x: Seq<u8>, y: Seq<u8>)
    requires
        number_token(x) matches Ok((_, k)) && k <= x.len() && all_space(x.skip(k as int)),
        all_space(y),
    ensures
        number_token(x + y) == number_token(x),
{
    let z = x + y;
    let k = number_token(x)->Ok_0.1;
    assert(x.len() > 0);
    assert(z[0] == x[0]);
    let n1 = sign_token(x)->Ok_0.1;
    let t1 = x.skip(n1 as int);
    assert(z.skip(n1 as int) =~= t1 + y);
    let n2 = radix_or_default(t1).1;
    let radix = radix_or_default(t1).0;
    let t2 = t1.skip(n2 as int);
    assert(exactness_token(t2) is Ok);
    assert(t2.len() >= 2);
    lemma_radix_token_extend(t1, y);
    assert((t1 + y).skip(n2 as int) =~= t2 + y);
    lemma_exactness_token_extend(t2, y);
    let n3 = exactness_token(t2)->Ok_0.1;
    let t3 = t2.skip(n3 as int);
    assert((t2 + y).skip(n3 as int) =~= t3 + y);
    lemma_run_len_bound(t3, radix as nat);
    assert(t3.skip(run_len(t3, radix as nat) as int) =~= x.skip(k as int));
    lemma_digits_extend(t3, y, radix as nat);
}

/// A number that makes up the whole of `lit` is read as the same number from
/// `lit` with whitespace before it, after it, or both, and the whitespace is
/// consumed with it.
pub proof fn lemma_number_whitespace(pre: Seq<u8>, lit: Seq<u8>, post: Seq<u8>)
    requires
        all_space(pre),
        all_space(post),
        number_spec(lit) matches Ok((_, n)) && n == lit.len(),
    ensures
        number_spec(pre + lit + post) == Ok::<(NumberModel, nat), ParseError>(
            (number_spec(lit)->Ok_0.0, (pre + lit + post).len()),
        ),
{
    let tok = |t: Seq<u8>| number_token(t);
    lemma_padded_tail(tok, lit);
    lemma_number_token_extend(unpadded(lit), post);
    lemma_padded_ws(tok, pre, lit, post);
}

} // verus!
