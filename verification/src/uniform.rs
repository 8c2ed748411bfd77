//! The uniform-value entry: inside the lookahead window, the word `uniform`
//! followed by whitespace and a value — a single bare token, three
//! whitespace-separated tokens, or a parenthesized group — ended by a
//! semicolon.  The capture is the value portion; occurrences of the word are
//! tried left to right and the first whose value matches wins.

use vstd::prelude::*;
use crate::scan::matches_at;
use crate::scan::first_byte_in;
use crate::scan::find_byte;

verus! {

/// The seven bytes of the word `uniform`.
pub open spec fn uniform_pat() -> Seq<u8> {
    seq![117u8, 110u8, 105u8, 102u8, 111u8, 114u8, 109u8]
}

/// ASCII whitespace.
pub open spec fn is_wsp(b: u8) -> bool {
    b == 32 || 9 <= b <= 13
}

/// A byte that may stand inside a bare value token: not whitespace and not
/// the terminating semicolon.
pub open spec fn tok_char(b: u8) -> bool {
    !is_wsp(b) && b != 59
}

/// First index at or after `p` that does not hold whitespace; the window
/// length if all of the rest is whitespace.
pub open spec fn ws_run_end(w: Seq<u8>, p: int) -> int
    decreases w.len() - p,
{
    if p < 0 || p >= w.len() {
        w.len() as int
    } else if is_wsp(w[p]) {
        ws_run_end(w, p + 1)
    } else {
        p
    }
}

/// First index at or after `p` that does not hold a value-token byte.
pub open spec fn tok_run_end(w: Seq<u8>, p: int) -> int
    decreases w.len() - p,
{
    if p < 0 || p >= w.len() {
        w.len() as int
    } else if tok_char(w[p]) {
        tok_run_end(w, p + 1)
    } else {
        p
    }
}

/// Try the value grammar right after an occurrence of the word `uniform`
/// ending at `p`; the capture is a half-open index range of the window.
pub open spec fn uniform_try_at(w: Seq<u8>, p: int) -> Option<(int, int)> {
    let j = ws_run_end(w, p);
    if j == p || j >= w.len() {
        None
    } else {
        let k1 = tok_run_end(w, j);
        if k1 > j && k1 < w.len() && w[k1] == 59 {
            Some((j, k1))  // a single bare token
        } else {
            let j2 = ws_run_end(w, k1);
            let k2 = tok_run_end(w, j2);
            let j3 = ws_run_end(w, k2);
            let k3 = tok_run_end(w, j3);
            if k1 > j && j2 > k1 && k2 > j2 && j3 > k2 && k3 > j3 && k3 < w.len() && w[k3] == 59 {
                Some((j, k3))  // three whitespace-separated tokens
            } else if w[j] == 40 {
                match first_byte_in(w, 41, j + 1, w.len() as int) {
                    Some(c) => if c > j + 1 && c + 1 < w.len() && w[c + 1] == 59 {
                        Some((j, c + 1))  // a parenthesized group
                    } else {
                        None
                    },
                    None => None,
                }
            } else {
                None
            }
        }
    }
}

/// The capture of the first occurrence of the word `uniform` at or after
/// `from` whose following value matches the grammar.
pub open spec fn uniform_capture_from(w: Seq<u8>, from: int) -> Option<(int, int)>
    decreases w.len() - from,
{
    if from < 0 || from + uniform_pat().len() > w.len() {
        None
    } else if matches_at(w, uniform_pat(), from) {
        match uniform_try_at(w, from + uniform_pat().len()) {
            Some(cap) => Some(cap),
            None => uniform_capture_from(w, from + 1),
        }
    } else {
        uniform_capture_from(w, from + 1)
    }
}

/// The capture of the uniform entry of the whole window, if one is there.
pub open spec fn uniform_capture(w: Seq<u8>) -> Option<(int, int)> {
    uniform_capture_from(w, 0)
}

fn ws_run_end_x(w: &[u8], p: usize) -> (r: usize)
    requires
        p <= w@.len(),
    ensures
        r == ws_run_end(w@, p as int),
        p <= r <= w@.len(),
{
    let n = w.len();
    let mut i = p;
    while i < n
        invariant
            p <= i <= n,
            n == w@.len(),
            ws_run_end(w@, p as int) == ws_run_end(w@, i as int),
        decreases n - i,
    {
        let b = w[i];
        if !(b == 32 || (9 <= b && b <= 13)) {
            return i;
        }
        i += 1;
    }
    n
}

fn tok_run_end_x(w: &[u8], p: usize) -> (r: usize)
    requires
        p <= w@.len(),
    ensures
        r == tok_run_end(w@, p as int),
        p <= r <= w@.len(),
{
    let n = w.len();
    let mut i = p;
    while i < n
        invariant
            p <= i <= n,
            n == w@.len(),
            tok_run_end(w@, p as int) == tok_run_end(w@, i as int),
        decreases n - i,
    {
        let b = w[i];
        if b == 32 || (9 <= b && b <= 13) || b == 59 {
            return i;
        }
        i += 1;
    }
    n
}

fn uniform_try_at_x(w: &[u8], p: usize) -> (r: Option<(usize, usize)>)
    requires
        p <= w@.len(),
    ensures
        ({
            let m = uniform_try_at(w@, p as int);
            match r {
                Some((a, b)) => m == Some((a as int, b as int)),
                None => m is None,
            }
        }),
        match r {
            Some((a, b)) => p <= a < b < w@.len(),
            None => true,
        },
{
    let n = w.len();
    let j = ws_run_end_x(w, p);
    if j == p || j >= n {
        return None;
    }
    let k1 = tok_run_end_x(w, j);
    if k1 > j && k1 < n && w[k1] == 59 {
        return Some((j, k1));
    }
    let j2 = ws_run_end_x(w, k1);
    let k2 = tok_run_end_x(w, j2);
    let j3 = ws_run_end_x(w, k2);
    let k3 = tok_run_end_x(w, j3);
    if k1 > j && j2 > k1 && k2 > j2 && j3 > k2 && k3 > j3 && k3 < n && w[k3] == 59 {
        return Some((j, k3));
    }
    if w[j] == 40 {
        match find_byte(w, 41, j + 1, n) {
            Some(c) => {
                if c > j + 1 && c + 1 < n && w[c + 1] == 59 {
                    Some((j, c + 1))
                } else {
                    None
                }
            },
            None => None,
        }
    } else {
        None
    }
}

fn is_uniform_at(w: &[u8], i: usize) -> (r: bool)
    requires
        i + 7 <= w@.len(),
    ensures
        r == matches_at(w@, uniform_pat(), i as int),
{
    let r = w[i] == 117 && w[i + 1] == 110 && w[i + 2] == 105 && w[i + 3] == 102 && w[i + 4] == 111
        && w[i + 5] == 114 && w[i + 6] == 109;
    if r {
        assert forall|j: int| 0 <= j < 7 implies w@[i + j] == uniform_pat()[j] by {
        }
        assert(matches_at(w@, uniform_pat(), i as int));
    } else {
        assert(!matches_at(w@, uniform_pat(), i as int));
    }
    r
}

/// Search the window for the uniform entry and return its capture range.
pub fn uniform_capture_x(w: &[u8]) -> (r: Option<(usize, usize)>)
    ensures
        ({
            let m = uniform_capture(w@);
            match r {
                Some((a, b)) => m == Some((a as int, b as int)),
                None => m is None,
            }
        }),
        match r {
            Some((a, b)) => a < b < w@.len(),
            None => true,
        },
{
    let n = w.len();
    if n < 7 {
        return None;
    }
    let mut i: usize = 0;
    while i <= n - 7
        invariant
            0 <= i,
            7 <= n,
            i <= n - 7 + 1,
            n == w@.len(),
            uniform_capture_from(w@, 0) == uniform_capture_from(w@, i as int),
        decreases n - i,
    {
        if is_uniform_at(w, i) {
            match uniform_try_at_x(w, i + 7) {
                Some((a, b)) => {
                    return Some((a, b));
                },
                None => {},
            }
        }
        i += 1;
    }
    None
}

} // verus!
