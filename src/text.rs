//! Byte-level building blocks shared by the recognizers: whitespace, fixed
//! tags, and the way a recognizer's outcome is described.

use vstd::prelude::*;
use vstd::slice::slice_subrange;

verus! {

/// Why a recognizer did not produce a value.
#[derive(Clone, Copy, Debug, PartialEq, Eq, Structural)]
pub enum ParseError {
    /// The fixed literal that was expected is not at the current position.
    NoMatch,
    /// A digit run was required but no digit of the radix was found.
    NoDigits,
    /// The input ended before any alternative could be chosen.
    Incomplete,
    /// Neither a boolean nor a number is written at the current position.
    UnrecognizedLiteral,
}

/// The outcome of a recognizer in the model: the value read and how many
/// bytes were consumed, or the error.
pub type Outcome<V> = Result<(V, nat), ParseError>;

/// Space, tab and newline separate tokens and carry no meaning.
pub open spec fn is_space(b: u8) -> bool {
    b == 32 || b == 9 || b == 10
}

/// Length of the run of whitespace that starts `s`.
pub open spec fn ws_len(s: Seq<u8>) -> nat
    decreases s.len(),
{
    if s.len() > 0 && is_space(s[0]) {
        1 + ws_len(s.drop_first())
    } else {
        0
    }
}

/// Every byte of `s` is whitespace.
pub open spec fn all_space(s: Seq<u8>) -> bool {
    forall|i: int| 0 <= i < s.len() ==> is_space(#[trigger] s[i])
}

/// Bytes that end a literal: whitespace, parentheses, `"`, `;` and `|`.
pub open spec fn is_delimiter(b: u8) -> bool {
    is_space(b) || b == 40u8 || b == 41u8 || b == 34u8 || b == 59u8 || b == 124u8
}

/// A literal that fills the first `n` bytes of `s` ends there: `s` ends, or a
/// delimiter follows.
pub open spec fn delimited(s: Seq<u8>, n: nat) -> bool {
    n == s.len() || (n < s.len() && is_delimiter(s[n as int]))
}

/// `s` begins with the bytes of `tag`.
pub open spec fn lit_at(s: Seq<u8>, tag: Seq<u8>) -> bool {
    tag.len() <= s.len() && s.take(tag.len() as int) == tag
}

/// A token recognizer run between two optional runs of whitespace, where
/// `tok` is the token's outcome on `s` with its leading whitespace skipped.
/// The trailing whitespace is consumed with the token.
pub open spec fn padded<V>(s: Seq<u8>, tok: Outcome<V>) -> Outcome<V> {
    let lead = ws_len(s);
    match tok {
        Ok((v, n)) => Ok((v, lead + n + ws_len(s.skip((lead + n) as int)))),
        Err(e) => Err(e),
    }
}

/// The input of a padded token once its leading whitespace is skipped.
pub open spec fn unpadded(s: Seq<u8>) -> Seq<u8> {
    s.skip(ws_len(s) as int)
}

/// An executable outcome `r`, holding a consumed count, is the model outcome `o`.
pub open spec fn same<T: View>(r: Result<(T, usize), ParseError>, o: Outcome<T::V>) -> bool {
    match r {
        Ok((v, n)) => o == Ok::<(T::V, nat), ParseError>((v@, n as nat)),
        Err(e) => o == Err::<(T::V, nat), ParseError>(e),
    }
}

/// A recognizer's result `r` on `input`, holding the unconsumed bytes, is the
/// model outcome `o`.
pub open spec fn agrees<T: View>(r: Result<(T, &[u8]), ParseError>, input: Seq<u8>, o: Outcome<T::V>) -> bool {
    match r {
        Ok((v, rest)) => match o {
            Ok((w, n)) => v@ == w && n <= input.len() && rest@ == input.skip(n as int),
            Err(_) => false,
        },
        Err(e) => o == Err::<(T::V, nat), ParseError>(e),
    }
}

/// Characterises `ws_len` by the first byte that is not whitespace.
pub proof fn lemma_ws_len(s: Seq<u8>, n: nat)
    requires
        n <= s.len(),
        forall|i: int| 0 <= i < n ==> is_space(#[trigger] s[i]),
        n == s.len() || !is_space(s[n as int]),
    ensures
        ws_len(s) == n,
    decreases n,
{
    if n > 0 {
        let t = s.drop_first();
        assert forall|i: int| 0 <= i < n - 1 implies is_space(#[trigger] t[i]) by {
            assert(t[i] == s[i + 1]);
        }
        lemma_ws_len(t, (n - 1) as nat);
    }
}

/// The whitespace run at the front of `s` lies inside `s`.
pub proof fn lemma_ws_len_bound(s: Seq<u8>)
    ensures
        ws_len(s) <= s.len(),
        forall|i: int| 0 <= i < ws_len(s) ==> is_space(#[trigger] s[i]),
        ws_len(s) == s.len() || !is_space(s[ws_len(s) as int]),
    decreases s.len(),
{
    if s.len() > 0 && is_space(s[0]) {
        let t = s.drop_first();
        lemma_ws_len_bound(t);
        assert forall|i: int| 0 <= i < ws_len(s) implies is_space(#[trigger] s[i]) by {
            if i > 0 {
                assert(s[i] == t[i - 1]);
            }
        }
    }
}

/// A run of whitespace is as long as the input exactly when the input is all
/// whitespace.
pub proof fn lemma_all_space_ws_len(s: Seq<u8>)
    ensures
        all_space(s) <==> ws_len(s) == s.len(),
{
    lemma_ws_len_bound(s);
    if all_space(s) {
        lemma_ws_len(s, s.len());
    }
}

/// Whitespace in front of `b` lengthens its leading run by its own length.
pub proof fn lemma_ws_len_prefix(a: Seq<u8>, b: Seq<u8>)
    requires
        all_space(a),
    ensures
        ws_len(a + b) == a.len() + ws_len(b),
{
    let s = a + b;
    let n = a.len() + ws_len(b);
    lemma_ws_len_bound(b);
    assert forall|i: int| 0 <= i < n implies is_space(#[trigger] s[i]) by {
        if i >= a.len() {
            assert(s[i] == b[i - a.len()]);
        }
    }
    if n < s.len() {
        assert(s[n as int] == b[ws_len(b) as int]);
    }
    lemma_ws_len(s, n);
}

/// Once `x` is as long as `tag`, bytes after `x` do not change whether `tag`
/// starts it.
pub proof fn lemma_lit_at_extend(x: Seq<u8>, y: Seq<u8>, tag: Seq<u8>)
    requires
        x.len() >= tag.len(),
    ensures
        lit_at(x + y, tag) == lit_at(x, tag),
{
    assert((x + y).take(tag.len() as int) =~= x.take(tag.len() as int));
}

/// Whitespace after `x` does not change whether a tag without whitespace
/// starts it.
pub proof fn lemma_lit_at_space_extend(x: Seq<u8>, y: Seq<u8>, tag: Seq<u8>)
    requires
        all_space(y),
        forall|i: int| 0 <= i < tag.len() ==> !is_space(#[trigger] tag[i]),
    ensures
        lit_at(x + y, tag) == lit_at(x, tag),
{
    if x.len() >= tag.len() {
        lemma_lit_at_extend(x, y, tag);
    } else if lit_at(x + y, tag) {
        let i = x.len() as int;
        assert((x + y).take(tag.len() as int)[i] == tag[i]);
        assert((x + y)[i] == y[0]);
    }
}

/// Whitespace after `x` does not change whether a literal that fills the
/// first `n` bytes of `x` ends there.
pub proof fn lemma_delimited_extend(x: Seq<u8>, y: Seq<u8>, n: nat)
    requires
        n <= x.len(),
        all_space(y),
    ensures
        delimited(x + y, n) == delimited(x, n),
{
    if n < x.len() {
        assert((x + y)[n as int] == x[n as int]);
    } else if n < (x + y).len() {
        assert((x + y)[n as int] == y[0]);
    }
}

/// A padded recognizer that reads the whole of `lit` leaves only whitespace
/// after its token.
pub proof fn lemma_padded_tail<V>(tok: spec_fn(Seq<u8>) -> Outcome<V>, lit: Seq<u8>)
    requires
        padded(lit, tok(unpadded(lit))) matches Ok((_, n)) && n == lit.len(),
    ensures
        tok(unpadded(lit)) matches Ok((_, k)) && k <= unpadded(lit).len() && all_space(
            unpadded(lit).skip(k as int),
        ),
{
    lemma_ws_len_bound(lit);
    let lead = ws_len(lit);
    let k = tok(unpadded(lit))->Ok_0.1;
    let tail = lit.skip((lead + k) as int);
    lemma_all_space_ws_len(tail);
    assert(unpadded(lit).skip(k as int) =~= tail);
}

/// A padded recognizer that reads the whole of `lit` reads the whole of
/// `lit` wrapped in whitespace as the same value, provided its token gives
/// the same outcome when whitespace follows.
pub proof fn lemma_padded_ws<V>(tok: spec_fn(Seq<u8>) -> Outcome<V>, pre: Seq<u8>, lit: Seq<u8>, post: Seq<u8>)
    requires
        all_space(pre),
        all_space(post),
        padded(lit, tok(unpadded(lit))) matches Ok((_, n)) && n == lit.len(),
        tok(unpadded(lit) + post) == tok(unpadded(lit)),
        tok(Seq::empty()) is Err,
    ensures
        padded(pre + lit + post, tok(unpadded(pre + lit + post))) == Ok::<(V, nat), ParseError>(
            (padded(lit, tok(unpadded(lit)))->Ok_0.0, (pre + lit + post).len()),
        ),
{
    let s = pre + lit + post;
    let lead = ws_len(lit);
    lemma_ws_len_bound(lit);
    assert(s =~= pre + (lit + post));
    lemma_ws_len_prefix(pre, lit + post);
    assert(lit + post =~= lit.take(lead as int) + (lit.skip(lead as int) + post));
    assert(all_space(lit.take(lead as int)));
    lemma_ws_len_prefix(lit.take(lead as int), lit.skip(lead as int) + post);
    if lead == lit.len() {
        assert(unpadded(lit) =~= Seq::<u8>::empty());
    }
    assert((lit.skip(lead as int) + post)[0] == lit[lead as int]);
    assert(ws_len(s) == pre.len() + lead);
    assert(unpadded(s) =~= unpadded(lit) + post);
    let k = tok(unpadded(lit))->Ok_0.1;
    let tail = lit.skip((lead + k) as int);
    lemma_all_space_ws_len(tail);
    assert(all_space(tail + post));
    lemma_all_space_ws_len(tail + post);
    assert(s.skip((ws_len(s) + k) as int) =~= tail + post);
}

/// Position of the first byte at or after `from` that is not whitespace.
pub fn skip_ws(input: &[u8], from: usize) -> (end: usize)
    requires
        from <= input@.len(),
    ensures
        end == from + ws_len(input@.skip(from as int)),
        end <= input@.len(),
{
    let mut i = from;
    while i < input.len() && (input[i] == 32u8 || input[i] == 9u8 || input[i] == 10u8)
        invariant
            from <= i <= input@.len(),
            forall|k: int| from <= k < i ==> is_space(#[trigger] input@[k]),
        decreases input@.len() - i,
    {
        i = i + 1;
    }
    proof {
        let t = input@.skip(from as int);
        assert forall|k: int| 0 <= k < i - from implies is_space(#[trigger] t[k]) by {
            assert(t[k] == input@[from + k]);
        }
        lemma_ws_len(t, (i - from) as nat);
    }
    i
}

/// Whether a literal that ends before `end` is delimited there.
pub fn ends_at(input: &[u8], end: usize) -> (r: bool)
    requires
        end <= input@.len(),
    ensures
        r == (end == input@.len() || is_delimiter(input@[end as int])),
{
    if end == input.len() {
        true
    } else {
        let b = input[end];
        b == 32u8 || b == 9u8 || b == 10u8 || b == 40u8 || b == 41u8 || b == 34u8 || b == 59u8 || b == 124u8
    }
}

/// Whether the bytes of `tag` stand in `input` at `pos`.
pub fn tag_at(input: &[u8], pos: usize, tag: &[u8]) -> (r: bool)
    requires
        pos <= input@.len(),
    ensures
        r == lit_at(input@.skip(pos as int), tag@),
{
    let ghost s = input@.skip(pos as int);
    if tag.len() > input.len() - pos {
        return false;
    }
    let mut i: usize = 0;
    while i < tag.len()
        invariant
            tag@.len() <= s.len(),
            s == input@.skip(pos as int),
            pos + tag@.len() <= input@.len(),
            input@.len() <= usize::MAX,
            i <= tag@.len(),
            forall|k: int| 0 <= k < i ==> s[k] == tag@[k],
        decreases tag@.len() - i,
    {
        if input[pos + i] != tag[i] {
            assert(s.take(tag@.len() as int)[i as int] != tag@[i as int]);
            return false;
        }
        i = i + 1;
    }
    assert(s.take(tag@.len() as int) =~= tag@);
    true
}

/// The outcome of a recognizer that reads exactly `tag` as `v`.
pub open spec fn tag_outcome<V>(s: Seq<u8>, tag: Seq<u8>, v: V) -> Outcome<V> {
    if lit_at(s, tag) {
        Ok((v, tag.len()))
    } else {
        Err(ParseError::NoMatch)
    }
}

/// Reads exactly `tag` at the start of `input` as `v`.
pub fn read_tag<'a, T: View>(input: &'a [u8], tag: &[u8], v: T) -> (r: Result<(T, &'a [u8]), ParseError>)
    ensures
        agrees(r, input@, tag_outcome(input@, tag@, v@)),
{
    proof {
        assert(input@.skip(0) =~= input@);
    }
    if tag_at(input, 0, tag) {
        finish(input, v, tag.len())
    } else {
        Err(ParseError::NoMatch)
    }
}

/// Relies on `String::push_str`: appends the characters of `t` to `s`.
#[verifier::external_body]
pub fn append(s: &mut String, t: &str)
    ensures
        final(s)@ == old(s)@ + t@,
{
    s.push_str(t)
}

/// Hands out the outcome of a recognizer that read `input` up to `end`,
/// with the bytes from `end` on.
pub fn finish<T>(input: &[u8], v: T, end: usize) -> (r: Result<(T, &[u8]), ParseError>)
    requires
        end <= input@.len(),
    ensures
        r matches Ok((w, rest)) && w == v && rest@ == input@.skip(end as int),
{
    Ok((v, slice_subrange(input, end, input.len())))
}

} // verus!
