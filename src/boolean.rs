//! Boolean literals: `#t`, `#true`, `#f` and `#false`.

use vstd::prelude::*;
use crate::text::{
    agrees, all_space, delimited, ends_at, finish, is_delimiter, is_space, lemma_delimited_extend, lemma_lit_at_space_extend,
    lemma_padded_tail, lemma_padded_ws, lit_at, padded, same, skip_ws, tag_at, unpadded, ws_len, Outcome, ParseError,
};

verus! {

/// The bytes of `#t`.
pub open spec fn short_true() -> Seq<u8> {
    seq![35u8, 116u8]
}

/// The bytes of `#true`.
pub open spec fn long_true() -> Seq<u8> {
    seq![35u8, 116u8, 114u8, 117u8, 101u8]
}

/// The bytes of `#f`.
pub open spec fn short_false() -> Seq<u8> {
    seq![35u8, 102u8]
}

/// The bytes of `#false`.
pub open spec fn long_false() -> Seq<u8> {
    seq![35u8, 102u8, 97u8, 108u8, 115u8, 101u8]
}

/// A literal for `value`. A spelling counts only where it ends at a
/// delimiter or at the end of the input, so that neither `#true` nor `#tr`
/// is ever read as `#t` followed by the rest.
pub open spec fn spelling_outcome(t: Seq<u8>, long: Seq<u8>, short: Seq<u8>, value: bool) -> Outcome<bool> {
    if lit_at(t, long) && delimited(t, long.len()) {
        Ok((value, long.len()))
    } else if lit_at(t, short) && delimited(t, short.len()) {
        Ok((value, short.len()))
    } else {
        Err(ParseError::NoMatch)
    }
}

/// The boolean token at the start of `t`, with no whitespace around it.
pub open spec fn boolean_token(t: Seq<u8>) -> Outcome<bool> {
    if t.len() == 0 {
        Err(ParseError::Incomplete)
    } else if spelling_outcome(t, long_true(), short_true(), true) is Ok {
        spelling_outcome(t, long_true(), short_true(), true)
    } else {
        spelling_outcome(t, long_false(), short_false(), false)
    }
}

/// A boolean literal between optional runs of whitespace.
pub open spec fn boolean_spec(s: Seq<u8>) -> Outcome<bool> {
    padded(s, boolean_token(unpadded(s)))
}

/// Reads the spelling `long` or `short` of `value` at `pos`.
fn spelling_at(input: &[u8], pos: usize, long: &[u8], short: &[u8], value: bool) -> (r: Result<(bool, usize), ParseError>)
    requires
        pos <= input@.len(),
    ensures
        same(r, spelling_outcome(input@.skip(pos as int), long@, short@, value)),
        r matches Ok((_, n)) ==> pos + n <= input@.len(),
{
    let len = input.len();
    let ghost t = input@.skip(pos as int);
    if tag_at(input, pos, long) && ends_at(input, pos + long.len()) {
        assert(long@.len() == t.len() || t[long@.len() as int] == input@[pos + long@.len()]);
        Ok((value, long.len()))
    } else if tag_at(input, pos, short) && ends_at(input, pos + short.len()) {
        assert(short@.len() == t.len() || t[short@.len() as int] == input@[pos + short@.len()]);
        Ok((value, short.len()))
    } else {
        Err(ParseError::NoMatch)
    }
}

/// Reads the boolean token at `pos`.
pub fn boolean_at(input: &[u8], pos: usize) -> (r: Result<(bool, usize), ParseError>)
    requires
        pos <= input@.len(),
    ensures
        same(r, boolean_token(input@.skip(pos as int))),
        r matches Ok((_, n)) ==> pos + n <= input@.len(),
{
    if pos == input.len() {
        return Err(ParseError::Incomplete);
    }
    let lt: [u8; 5] = [35u8, 116u8, 114u8, 117u8, 101u8];
    let st: [u8; 2] = [35u8, 116u8];
    let lf: [u8; 6] = [35u8, 102u8, 97u8, 108u8, 115u8, 101u8];
    let sf: [u8; 2] = [35u8, 102u8];
    assert(lt@ =~= long_true());
    assert(st@ =~= short_true());
    assert(lf@ =~= long_false());
    assert(sf@ =~= short_false());
    match spelling_at(input, pos, lt.as_slice(), st.as_slice(), true) {
        Ok(found) => Ok(found),
        Err(_) => spelling_at(input, pos, lf.as_slice(), sf.as_slice(), false),
    }
}

/// Reads `#true` or `#t` as true.
pub fn scm_true(input: &[u8]) -> (r: Result<(bool, &[u8]), ParseError>)
    ensures
        agrees(r, input@, spelling_outcome(input@, long_true(), short_true(), true)),
{
    let lt: [u8; 5] = [35u8, 116u8, 114u8, 117u8, 101u8];
    let st: [u8; 2] = [35u8, 116u8];
    assert(lt@ =~= long_true());
    assert(st@ =~= short_true());
    proof {
        assert(input@.skip(0) =~= input@);
    }
    match spelling_at(input, 0, lt.as_slice(), st.as_slice(), true) {
        Ok((v, n)) => finish(input, v, n),
        Err(e) => Err(e),
    }
}

/// Reads `#false` or `#f` as false.
pub fn scm_false(input: &[u8]) -> (r: Result<(bool, &[u8]), ParseError>)
    ensures
        agrees(r, input@, spelling_outcome(input@, long_false(), short_false(), false)),
{
    let lf: [u8; 6] = [35u8, 102u8, 97u8, 108u8, 115u8, 101u8];
    let sf: [u8; 2] = [35u8, 102u8];
    assert(lf@ =~= long_false());
    assert(sf@ =~= short_false());
    proof {
        assert(input@.skip(0) =~= input@);
    }
    match spelling_at(input, 0, lf.as_slice(), sf.as_slice(), false) {
        Ok((v, n)) => finish(input, v, n),
        Err(e) => Err(e),
    }
}

/// Reads a boolean literal, with any whitespace before and after it.
pub fn boolean(input: &[u8]) -> (r: Result<(bool, &[u8]), ParseError>)
    ensures
        agrees(r, input@, boolean_spec(input@)),
{
    let len = input.len();
    let lead = skip_ws(input, 0);
    proof {
        assert(input@.skip(0) =~= input@);
    }
    match boolean_at(input, lead) {
        Ok((v, n)) => {
            let end = skip_ws(input, lead + n);
            finish(input, v, end)
        },
        Err(e) => Err(e),
    }
}

/// A token that does not start with `#` is no boolean.
pub proof fn lemma_boolean_needs_hash(t: Seq<u8>)
    requires
        t.len() > 0,
        t[0] != 35u8,
    ensures
        boolean_token(t) == Err::<(bool, nat), ParseError>(ParseError::NoMatch),
{
    if lit_at(t, long_true()) {
        assert(t.take(5)[0] == 35u8);
    }
    if lit_at(t, short_true()) {
        assert(t.take(2)[0] == 35u8);
    }
    if lit_at(t, long_false()) {
        assert(t.take(6)[0] == 35u8);
    }
    if lit_at(t, short_false()) {
        assert(t.take(2)[0] == 35u8);
    }
}

/// Whitespace after `x` does not change whether `tag` starts it and ends at
/// a delimiter.
proof fn lemma_spelling_extend(x: Seq<u8>, y: Seq<u8>, tag: Seq<u8>)
    requires
        all_space(y),
        forall|i: int| 0 <= i < tag.len() ==> !is_space(#[trigger] tag[i]),
    ensures
        (lit_at(x + y, tag) && delimited(x + y, tag.len())) == (lit_at(x, tag) && delimited(x, tag.len())),
{
    lemma_lit_at_space_extend(x, y, tag);
    if lit_at(x, tag) {
        lemma_delimited_extend(x, y, tag.len());
    }
}

/// Whitespace after a boolean token does not change what is read.
pub proof fn lemma_boolean_token_extend(x: Seq<u8>, y: Seq<u8>)
    requires
        x.len() > 0,
        all_space(y),
    ensures
        boolean_token(x + y) == boolean_token(x),
{
    assert forall|i: int| 0 <= i < 5 implies !is_space(#[trigger] long_true()[i]) by {}
    assert forall|i: int| 0 <= i < 2 implies !is_space(#[trigger] short_true()[i]) by {}
    assert forall|i: int| 0 <= i < 6 implies !is_space(#[trigger] long_false()[i]) by {}
    assert forall|i: int| 0 <= i < 2 implies !is_space(#[trigger] short_false()[i]) by {}
    lemma_spelling_extend(x, y, long_true());
    lemma_spelling_extend(x, y, short_true());
    lemma_spelling_extend(x, y, long_false());
    lemma_spelling_extend(x, y, short_false());
}

/// The four boolean spellings are read whole: `#t` and `#true` as true, `#f`
/// and `#false` as false. `#tr` is no boolean: it is not read as `#t`
/// followed by `r`.
pub proof fn lemma_boolean_spellings()
    ensures
        boolean_spec(short_true()) == Ok::<(bool, nat), ParseError>((true, 2nat)),
        boolean_spec(long_true()) == Ok::<(bool, nat), ParseError>((true, 5nat)),
        boolean_spec(short_false()) == Ok::<(bool, nat), ParseError>((false, 2nat)),
        boolean_spec(long_false()) == Ok::<(bool, nat), ParseError>((false, 6nat)),
        boolean_spec(seq![35u8, 116u8, 114u8]) == Err::<(bool, nat), ParseError>(ParseError::NoMatch),
{
    let e = Seq::<u8>::empty();
    assert(ws_len(e) == 0);
    let st = short_true();
    assert(ws_len(st) == 0);
    assert(unpadded(st) =~= st);
    assert(st.take(2) =~= st);
    assert(st.skip(2) =~= e);
    let lt = long_true();
    assert(ws_len(lt) == 0);
    assert(unpadded(lt) =~= lt);
    assert(lt.take(5) =~= lt);
    assert(lt.skip(5) =~= e);
    let sf = short_false();
    assert(ws_len(sf) == 0);
    assert(unpadded(sf) =~= sf);
    assert(sf.take(2) =~= sf);
    assert(sf.skip(2) =~= e);
    assert(sf.take(2) != st) by {
        assert(sf.take(2)[1] != st[1]);
    }
    let lf = long_false();
    assert(ws_len(lf) == 0);
    assert(unpadded(lf) =~= lf);
    assert(lf.take(6) =~= lf);
    assert(lf.skip(6) =~= e);
    assert(lf.take(2) != st) by {
        assert(lf.take(2)[1] != st[1]);
    }
    assert(lf.take(5) != lt) by {
        assert(lf.take(5)[1] != lt[1]);
    }
    let tr = seq![35u8, 116u8, 114u8];
    assert(ws_len(tr) == 0);
    assert(unpadded(tr) =~= tr);
    assert(!is_delimiter(tr[2]));
    assert(tr.take(2) != sf) by {
        assert(tr.take(2)[1] != sf[1]);
    }
}

/// A boolean that makes up the whole of `lit` is read as the same value from
/// `lit` with whitespace before it, after it, or both, and the whitespace is
/// consumed with it.
pub proof fn lemma_boolean_whitespace(pre: Seq<u8>, lit: Seq<u8>, post: Seq<u8>)
    requires
        all_space(pre),
        all_space(post),
        boolean_spec(lit) matches Ok((_, n)) && n == lit.len(),
    ensures
        boolean_spec(pre + lit + post) == Ok::<(bool, nat), ParseError>(
            (boolean_spec(lit)->Ok_0.0, (pre + lit + post).len()),
        ),
{
    let tok = |t: Seq<u8>| boolean_token(t);
    lemma_padded_tail(tok, lit);
    lemma_boolean_token_extend(unpadded(lit), post);
    lemma_padded_ws(tok, pre, lit, post);
}

} // verus!
