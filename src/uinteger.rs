//! Runs of digits, folded into unsigned integers of unbounded size.
//!
//! The value of a run is computed by `num_bigint`; the library keeps it as the
//! base-2^32 limbs that `num_bigint` hands out, least significant first.

use vstd::prelude::*;
use vstd::slice::slice_subrange;
use num_bigint::BigUint;
use crate::text::{all_space, agrees, finish, same, Outcome, ParseError};

verus! {

/// The radices that a number may be written in.
pub open spec fn valid_radix(radix: nat) -> bool {
    radix == 2 || radix == 8 || radix == 10 || radix == 16
}

/// The value of a hexadecimal digit of either case; 16 for any other byte.
pub open spec fn hex_value(b: u8) -> nat {
    if 48 <= b <= 57 {
        (b - 48) as nat
    } else if 97 <= b <= 102 {
        (b - 87) as nat
    } else if 65 <= b <= 70 {
        (b - 55) as nat
    } else {
        16
    }
}

/// `b` is a digit of `radix`: binary `0`-`1`, octal `0`-`7`, decimal `0`-`9`,
/// hexadecimal `0`-`9`, `a`-`f` and `A`-`F`.
pub open spec fn in_alphabet(b: u8, radix: nat) -> bool {
    hex_value(b) < radix
}

/// Every byte of `s` is a digit of `radix`, and there is at least one.
pub open spec fn is_run(s: Seq<u8>, radix: nat) -> bool {
    s.len() > 0 && forall|i: int| 0 <= i < s.len() ==> in_alphabet(#[trigger] s[i], radix)
}

/// Length of the longest run of digits of `radix` that starts `s`.
pub open spec fn run_len(s: Seq<u8>, radix: nat) -> nat
    decreases s.len(),
{
    if s.len() > 0 && in_alphabet(s[0], radix) {
        1 + run_len(s.drop_first(), radix)
    } else {
        0
    }
}

/// The value of `s` as a positional numeral in base `radix`, most
/// significant digit first.
pub open spec fn run_value(s: Seq<u8>, radix: nat) -> nat
    decreases s.len(),
{
    if s.len() == 0 {
        0
    } else {
        (run_value(s.drop_last(), radix) * radix + hex_value(s.last())) as nat
    }
}

/// The value of base-2^32 limbs, least significant first.
pub open spec fn limbs_value(l: Seq<u32>) -> nat
    decreases l.len(),
{
    if l.len() == 0 {
        0
    } else {
        (l[0] + 4294967296 * limbs_value(l.drop_first())) as nat
    }
}

/// The decimal digit character for `d`.
pub open spec fn digit_char(d: nat) -> char {
    (48 + d) as char
}

/// The decimal notation of `n`, with no leading zero.
pub open spec fn decimal_of(n: nat) -> Seq<char>
    decreases n,
{
    if n < 10 {
        seq![digit_char(n)]
    } else {
        decimal_of(n / 10).push(digit_char(n % 10))
    }
}

/// The outcome of folding the longest digit run at the start of `s`.
pub open spec fn digits_spec(s: Seq<u8>, radix: nat) -> Outcome<nat> {
    let n = run_len(s, radix);
    if n == 0 {
        Err(ParseError::NoDigits)
    } else {
        Ok((run_value(s.take(n as int), radix), n))
    }
}

/// Relies on `num_bigint::BigUint::parse_bytes`: a non-empty run of digits of
/// the radix is read as a numeral in that radix. `BigUint::to_u32_digits`
/// then hands the value out as base-2^32 limbs, least significant first.
#[verifier::external_body]
fn parse_run(run: &[u8], radix: u32) -> (r: Option<Vec<u32>>)
    requires
        valid_radix(radix as nat),
    ensures
        is_run(run@, radix as nat) ==> r is Some && limbs_value(r->Some_0@) == run_value(run@, radix as nat),
{
    match BigUint::parse_bytes(run, radix) {
        Some(n) => Some(n.to_u32_digits()),
        None => None,
    }
}

/// Relies on `num_bigint::BigUint::to_str_radix` with radix 10: the decimal
/// notation of the value, `0` for zero. `BigUint::new` takes the limbs in.
#[verifier::external_body]
fn decimal_text(limbs: &Vec<u32>) -> (r: String)
    ensures
        r@ == decimal_of(limbs_value(limbs@)),
{
    BigUint::new(limbs.clone()).to_str_radix(10)
}

/// An unsigned integer of unbounded size.
#[derive(Clone, Debug, PartialEq, Eq)]
pub struct Uinteger {
    limbs: Vec<u32>,
}

impl View for Uinteger {
    type V = nat;

    closed spec fn view(&self) -> nat {
        limbs_value(self.limbs@)
    }
}

impl Uinteger {
    /// The integer `n`.
    pub fn from_u64(n: u64) -> (r: Uinteger)
        ensures
            r@ == n,
    {
        let lo = (n % 4294967296) as u32;
        let hi = (n / 4294967296) as u32;
        let mut limbs: Vec<u32> = Vec::new();
        if n > 0 {
            limbs.push(lo);
            if hi > 0 {
                limbs.push(hi);
            }
        }
        proof {
            let l = limbs@;
            if n > 0 {
                assert(l.drop_first().len() > 0 ==> l.drop_first().drop_first().len() == 0);
                assert(limbs_value(l.drop_first()) == hi) by {
                    if hi > 0 {
                        assert(limbs_value(l.drop_first().drop_first()) == 0);
                    }
                }
            }
        }
        Uinteger { limbs }
    }

    /// The limbs of the value in base 2^32, least significant first.
    pub fn limbs(&self) -> (r: &[u32])
        ensures
            limbs_value(r@) == self@,
    {
        self.limbs.as_slice()
    }

    /// The decimal notation of the value.
    pub fn to_decimal(&self) -> (r: String)
        ensures
            r@ == decimal_of(self@),
    {
        decimal_text(&self.limbs)
    }

    /// Reads `input` whole as a decimal numeral.
    pub fn from_decimal(input: &[u8]) -> (r: Result<Uinteger, ParseError>)
        ensures
            is_run(input@, 10) ==> (r matches Ok(u) && u@ == run_value(input@, 10)),
            !is_run(input@, 10) ==> r == Err::<Uinteger, ParseError>(ParseError::NoDigits),
    {
        match digits_at(input, 0, 10) {
            Ok((u, n)) => {
                if n == input.len() {
                    proof {
                        assert(input@.skip(0) =~= input@);
                        lemma_run_len_bound(input@, 10);
                        assert(input@.take(n as int) =~= input@);
                    }
                    Ok(u)
                } else {
                    proof {
                        assert(input@.skip(0) =~= input@);
                        lemma_run_len_bound(input@, 10);
                    }
                    Err(ParseError::NoDigits)
                }
            },
            Err(e) => {
                proof {
                    assert(input@.skip(0) =~= input@);
                }
                Err(e)
            },
        }
    }
}

/// Characterises `run_len` by the first byte that is not a digit.
pub proof fn lemma_run_len(s: Seq<u8>, radix: nat, n: nat)
    requires
        n <= s.len(),
        forall|i: int| 0 <= i < n ==> in_alphabet(#[trigger] s[i], radix),
        n == s.len() || !in_alphabet(s[n as int], radix),
    ensures
        run_len(s, radix) == n,
    decreases n,
{
    if n > 0 {
        let t = s.drop_first();
        assert forall|i: int| 0 <= i < n - 1 implies in_alphabet(#[trigger] t[i], radix) by {
            assert(t[i] == s[i + 1]);
        }
        lemma_run_len(t, radix, (n - 1) as nat);
    }
}

/// The longest digit run at the front of `s` lies inside `s`, and is
/// followed by the end of `s` or by a byte that is not a digit.
pub proof fn lemma_run_len_bound(s: Seq<u8>, radix: nat)
    ensures
        run_len(s, radix) <= s.len(),
        forall|i: int| 0 <= i < run_len(s, radix) ==> in_alphabet(#[trigger] s[i], radix),
        run_len(s, radix) == s.len() || !in_alphabet(s[run_len(s, radix) as int], radix),
    decreases s.len(),
{
    if s.len() > 0 && in_alphabet(s[0], radix) {
        let t = s.drop_first();
        lemma_run_len_bound(t, radix);
        assert forall|i: int| 0 <= i < run_len(s, radix) implies in_alphabet(#[trigger] s[i], radix) by {
            if i > 0 {
                assert(s[i] == t[i - 1]);
            }
        }
    }
}

/// Whether `b` is a digit of `radix`.
fn is_digit_of(b: u8, radix: u32) -> (r: bool)
    requires
        valid_radix(radix as nat),
    ensures
        r == in_alphabet(b, radix as nat),
{
    let v: u32 = if 48u8 <= b && b <= 57u8 {
        (b - 48u8) as u32
    } else if 97u8 <= b && b <= 102u8 {
        (b - 87u8) as u32
    } else if 65u8 <= b && b <= 70u8 {
        (b - 55u8) as u32
    } else {
        16
    };
    v < radix
}

/// Folds the longest run of digits of `radix` at `pos`.
pub fn digits_at(input: &[u8], pos: usize, radix: u32) -> (r: Result<(Uinteger, usize), ParseError>)
    requires
        pos <= input@.len(),
        valid_radix(radix as nat),
    ensures
        same(r, digits_spec(input@.skip(pos as int), radix as nat)),
        r matches Ok((_, n)) ==> pos + n <= input@.len(),
{
    let len = input.len();
    let mut i = pos;
    while i < len && is_digit_of(input[i], radix)
        invariant
            pos <= i <= len,
            len == input@.len(),
            valid_radix(radix as nat),
            forall|k: int| pos <= k < i ==> in_alphabet(#[trigger] input@[k], radix as nat),
        decreases len - i,
    {
        i = i + 1;
    }
    let ghost s = input@.skip(pos as int);
    proof {
        assert forall|k: int| 0 <= k < i - pos implies in_alphabet(#[trigger] s[k], radix as nat) by {
            assert(s[k] == input@[pos + k]);
        }
        lemma_run_len(s, radix as nat, (i - pos) as nat);
    }
    if i == pos {
        return Err(ParseError::NoDigits);
    }
    let run = slice_subrange(input, pos, i);
    proof {
        assert(run@ =~= s.take((i - pos) as int));
        assert forall|k: int| 0 <= k < run@.len() implies in_alphabet(#[trigger] run@[k], radix as nat) by {
            assert(run@[k] == s[k]);
        }
    }
    match parse_run(run, radix) {
        Some(limbs) => Ok((Uinteger { limbs }, i - pos)),
        None => Err(ParseError::NoDigits),
    }
}

/// Folds the longest run of digits of `radix` at the start of `input` into
/// its value, most significant digit first. Fails with `NoDigits`, consuming
/// nothing, where `input` does not start with a digit of `radix`.
pub fn digits(input: &[u8], radix: u32) -> (r: Result<(Uinteger, &[u8]), ParseError>)
    requires
        valid_radix(radix as nat),
    ensures
        agrees(r, input@, digits_spec(input@, radix as nat)),
{
    proof {
        assert(input@.skip(0) =~= input@);
    }
    match digits_at(input, 0, radix) {
        Ok((u, n)) => finish(input, u, n),
        Err(e) => Err(e),
    }
}

/// Folds a run of binary digits.
pub fn binary_digit(input: &[u8]) -> (r: Result<(Uinteger, &[u8]), ParseError>)
    ensures
        agrees(r, input@, digits_spec(input@, 2)),
{
    digits(input, 2)
}

/// Folds a run of octal digits.
pub fn octal_digit(input: &[u8]) -> (r: Result<(Uinteger, &[u8]), ParseError>)
    ensures
        agrees(r, input@, digits_spec(input@, 8)),
{
    digits(input, 8)
}

/// Folds a run of decimal digits.
pub fn decimal_digit(input: &[u8]) -> (r: Result<(Uinteger, &[u8]), ParseError>)
    ensures
        agrees(r, input@, digits_spec(input@, 10)),
{
    digits(input, 10)
}

/// Folds a run of hexadecimal digits of either case.
pub fn hex_digit(input: &[u8]) -> (r: Result<(Uinteger, &[u8]), ParseError>)
    ensures
        agrees(r, input@, digits_spec(input@, 16)),
{
    digits(input, 16)
}

/// A run of digits of the radix is folded whole, to its value as a numeral
/// in that radix.
pub proof fn lemma_digit_run_value(s: Seq<u8>, radix: nat)
    requires
        valid_radix(radix),
        is_run(s, radix),
    ensures
        digits_spec(s, radix) == Ok::<(nat, nat), ParseError>((run_value(s, radix), s.len())),
{
    lemma_run_len(s, radix, s.len());
    assert(s.take(s.len() as int) =~= s);
}

/// Input with no digit of the radix is refused with `NoDigits`.
pub proof fn lemma_no_digits(s: Seq<u8>, radix: nat)
    requires
        valid_radix(radix),
        forall|i: int| 0 <= i < s.len() ==> !in_alphabet(#[trigger] s[i], radix),
    ensures
        digits_spec(s, radix) == Err::<(nat, nat), ParseError>(ParseError::NoDigits),
{
    lemma_run_len(s, radix, 0);
}

/// Whitespace after a digit run that only whitespace follows does not
/// change what is folded.
pub proof fn lemma_digits_extend(x: Seq<u8>, y: Seq<u8>, radix: nat)
    requires
        valid_radix(radix),
        all_space(x.skip(run_len(x, radix) as int)),
        all_space(y),
    ensures
        digits_spec(x + y, radix) == digits_spec(x, radix),
{
    let z = x + y;
    lemma_run_len_bound(x, radix);
    let n = run_len(x, radix);
    assert forall|i: int| 0 <= i < n implies in_alphabet(#[trigger] z[i], radix) by {
        assert(z[i] == x[i]);
    }
    if n < x.len() {
        assert(x.skip(n as int)[0] == x[n as int]);
        assert(z[n as int] == x[n as int]);
    } else if n < z.len() {
        assert(z[n as int] == y[0]);
    }
    lemma_run_len(z, radix, n);
    assert(z.take(n as int) =~= x.take(n as int));
}

} // verus!
