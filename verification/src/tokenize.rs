//! Splitting a byte region into tokens on a delimiter set, keeping either
//! every token or only the numeric ones, and stripping list parentheses.

use vstd::prelude::*;
use crate::number::is_number;
use crate::number::is_numeric_token;

verus! {

/// Which bytes separate tokens.
///
/// `Space` is the set the data list is split on; `SpaceParen` adds the two
/// parentheses, so that vector triples `(x y z)` fall apart into components;
/// `AnyWs` is the full ASCII whitespace set, used for the parts of a uniform
/// value.
#[derive(Clone, Copy)]
pub enum Delims {
    Space,
    SpaceParen,
    AnyWs,
}

/// Whether `b` separates tokens under `d`.
pub open spec fn is_delim(b: u8, d: Delims) -> bool {
    match d {
        Delims::Space => b == 32 || b == 10 || b == 9 || b == 13,
        Delims::SpaceParen => b == 32 || b == 10 || b == 9 || b == 13 || b == 40 || b == 41,
        Delims::AnyWs => b == 32 || b == 9 || b == 10 || b == 11 || b == 12 || b == 13,
    }
}

/// Length of the leading run of non-delimiter bytes of `s`.
pub open spec fn run_len(s: Seq<u8>, d: Delims) -> nat
    decreases s.len(),
{
    if s.len() == 0 || is_delim(s[0], d) {
        0
    } else {
        1 + run_len(s.skip(1), d)
    }
}

pub proof fn lemma_run_len_le(s: Seq<u8>, d: Delims)
    ensures
        run_len(s, d) <= s.len(),
    decreases s.len(),
{
    if s.len() == 0 || is_delim(s[0], d) {
    } else {
        lemma_run_len_le(s.skip(1), d);
    }
}

proof fn lemma_run_len_from_char(s: Seq<u8>, d: Delims, k: int)
    requires
        0 <= k <= s.len(),
        forall|j: int| 0 <= j < k ==> !is_delim(s[j], d),
        k == s.len() || is_delim(s[k], d),
    ensures
        run_len(s, d) == k,
    decreases k,
{
    if s.len() == 0 || is_delim(s[0], d) {
    } else {
        lemma_run_len_from_char(s.skip(1), d, k - 1);
    }
}

/// The tokens of `s` under the delimiter set `d`, in order; with
/// `numeric_only`, those of them that satisfy the numeric grammar.
pub open spec fn tokens(s: Seq<u8>, d: Delims, numeric_only: bool) -> Seq<Seq<u8>>
    decreases s.len(),
    via tokens_decreases
{
    if s.len() == 0 {
        Seq::empty()
    } else if is_delim(s[0], d) {
        tokens(s.skip(1), d, numeric_only)
    } else {
        let k = run_len(s, d) as int;
        let tok = s.take(k);
        let rest = tokens(s.skip(k), d, numeric_only);
        if !numeric_only || is_number(tok) {
            seq![tok] + rest
        } else {
            rest
        }
    }
}

#[via_fn]
proof fn tokens_decreases(s: Seq<u8>, d: Delims, numeric_only: bool) {
    lemma_run_len_le(s, d);
}

/// First index in `[from, to)` holding a delimiter byte; `to` if none does.
fn scan_to_delim(data: &[u8], from: usize, to: usize, d: Delims) -> (r: usize)
    requires
        from <= to <= data@.len(),
    ensures
        from <= r <= to,
        forall|j: int| from <= j < r ==> !is_delim(data@[j], d),
        r < to ==> is_delim(data@[r as int], d),
{
    let mut i = from;
    while i < to
        invariant
            from <= i <= to,
            to <= data@.len(),
            forall|j: int| from <= j < i ==> !is_delim(data@[j], d),
        decreases to - i,
    {
        let b = data[i];
        let hit = match d {
            Delims::Space => b == 32 || b == 10 || b == 9 || b == 13,
            Delims::SpaceParen => b == 32 || b == 10 || b == 9 || b == 13 || b == 40 || b == 41,
            Delims::AnyWs => b == 32 || b == 9 || b == 10 || b == 11 || b == 12 || b == 13,
        };
        if hit {
            return i;
        }
        i += 1;
    }
    to
}

/// Tokenize `data[lo..hi]` under `d`; with `numeric_only`, keep only the
/// tokens that the numeric grammar accepts.
pub fn tokenize(data: &[u8], lo: usize, hi: usize, d: Delims, numeric_only: bool) -> (r: Vec<
    Vec<u8>,
>)
    requires
        lo <= hi <= data@.len(),
    ensures
        r.deep_view() == tokens(data@.subrange(lo as int, hi as int), d, numeric_only),
{
    let ghost whole = tokens(data@.subrange(lo as int, hi as int), d, numeric_only);
    let mut out: Vec<Vec<u8>> = Vec::new();
    let mut i = lo;
    assert(out.deep_view() =~~= Seq::<Seq<u8>>::empty());
    while i < hi
        invariant
            lo <= i <= hi <= data@.len(),
            whole == tokens(data@.subrange(lo as int, hi as int), d, numeric_only),
            whole =~~= out.deep_view() + tokens(
                data@.subrange(i as int, hi as int),
                d,
                numeric_only,
            ),
        decreases hi - i,
    {
        let b = data[i];
        let hit = match d {
            Delims::Space => b == 32 || b == 10 || b == 9 || b == 13,
            Delims::SpaceParen => b == 32 || b == 10 || b == 9 || b == 13 || b == 40 || b == 41,
            Delims::AnyWs => b == 32 || b == 9 || b == 10 || b == 11 || b == 12 || b == 13,
        };
        if hit {
            proof {
                assert(data@.subrange(i as int, hi as int).skip(1) =~= data@.subrange(
                    i as int + 1,
                    hi as int,
                ));
            }
            i += 1;
        } else {
            let j = scan_to_delim(data, i, hi, d);
            proof {
                let s = data@.subrange(i as int, hi as int);
                assert forall|t: int| 0 <= t < j - i implies !is_delim(s[t], d) by {
                    assert(s[t] == data@[i + t]);
                }
                lemma_run_len_from_char(s, d, j - i);
                assert(s.take(j - i) =~= data@.subrange(i as int, j as int));
                assert(s.skip(j - i) =~= data@.subrange(j as int, hi as int));
            }
            let tok = vstd::slice::slice_to_vec(vstd::slice::slice_subrange(data, i, j));
            assert(tok.deep_view() =~= tok@);
            let keep = if numeric_only {
                is_numeric_token(tok.as_slice())
            } else {
                true
            };
            let ghost old_dv = out.deep_view();
            if keep {
                out.push(tok);
                proof {
                    assert(out.deep_view() =~~= old_dv + seq![tok@]);
                }
            }
            i = j;
        }
    }
    proof {
        assert(tokens(data@.subrange(i as int, hi as int), d, numeric_only)
            =~~= Seq::<Seq<u8>>::empty());
        assert(out.deep_view() =~~= whole);
    }
    out
}

/// Under the numeric filter, every token satisfies the numeric grammar.
pub proof fn lemma_tokens_numeric(s: Seq<u8>, d: Delims)
    ensures
        forall|i: int|
            0 <= i < tokens(s, d, true).len() ==> is_number(#[trigger] tokens(s, d, true)[i]),
    decreases s.len(),
{
    lemma_run_len_le(s, d);
    if s.len() == 0 {
    } else if is_delim(s[0], d) {
        lemma_tokens_numeric(s.skip(1), d);
        assert forall|i: int|
            0 <= i < tokens(s, d, true).len() implies is_number(#[trigger] tokens(s, d, true)[i]) by {
            assert(tokens(s, d, true)[i] == tokens(s.skip(1), d, true)[i]);
        }
    } else {
        let k = run_len(s, d) as int;
        let tok = s.take(k);
        lemma_tokens_numeric(s.skip(k), d);
        let ts = tokens(s, d, true);
        let rest = tokens(s.skip(k), d, true);
        assert forall|i: int| 0 <= i < ts.len() implies is_number(#[trigger] ts[i]) by {
            if is_number(tok) {
                if i == 0 {
                    assert(ts[0] == tok);
                } else {
                    assert(ts[i] == rest[i - 1]);
                }
            } else {
                assert(ts[i] == rest[i]);
            }
        }
    }
}

/// `s` with every parenthesis byte removed.
pub open spec fn without_parens(s: Seq<u8>) -> Seq<u8>
    decreases s.len(),
{
    if s.len() == 0 {
        Seq::empty()
    } else if s[0] == 40 || s[0] == 41 {
        without_parens(s.skip(1))
    } else {
        seq![s[0]] + without_parens(s.skip(1))
    }
}

/// Copy of `t` with every parenthesis byte removed.
pub fn strip_parens(t: &[u8]) -> (r: Vec<u8>)
    ensures
        r@ == without_parens(t@),
{
    let n = t.len();
    let mut out: Vec<u8> = Vec::new();
    let mut i: usize = 0;
    assert(t@.skip(0) =~= t@);
    while i < n
        invariant
            0 <= i <= n,
            n == t@.len(),
            without_parens(t@) =~= out@ + without_parens(t@.skip(i as int)),
        decreases n - i,
    {
        let b = t[i];
        proof {
            assert(t@.skip(i as int).skip(1) =~= t@.skip(i as int + 1));
            assert(t@.skip(i as int)[0] == t@[i as int]);
        }
        if !(b == 40 || b == 41) {
            out.push(b);
        }
        i += 1;
    }
    assert(without_parens(t@.skip(i as int)) =~= Seq::<u8>::empty());
    assert(out@ =~= without_parens(t@));
    out
}

} // verus!
