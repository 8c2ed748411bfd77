//! The decimal grammar of a numeric token: an optional sign, an integer
//! and/or fractional part around at most one dot, and an optional exponent
//! with its own optional sign.  A token is accepted as one record of the
//! data list exactly when it satisfies this grammar.

use vstd::prelude::*;

verus! {

/// ASCII decimal digit.
pub open spec fn is_digit(b: u8) -> bool {
    48 <= b <= 57
}

/// ASCII `+` or `-`.
pub open spec fn is_sign(b: u8) -> bool {
    b == 43 || b == 45
}

/// Every byte of `s` is a decimal digit.
pub open spec fn all_digits(s: Seq<u8>) -> bool {
    forall|i: int| 0 <= i < s.len() ==> is_digit(s[i])
}

/// `s` without a single leading sign byte, if one is there.
pub open spec fn sign_stripped(s: Seq<u8>) -> Seq<u8> {
    if s.len() > 0 && is_sign(s[0]) {
        s.skip(1)
    } else {
        s
    }
}

/// Index of the first byte of `s` equal to `b1` or `b2`.
pub open spec fn first_in2(s: Seq<u8>, b1: u8, b2: u8) -> Option<int>
    decreases s.len(),
{
    if s.len() == 0 {
        None
    } else if s[0] == b1 || s[0] == b2 {
        Some(0)
    } else {
        match first_in2(s.skip(1), b1, b2) {
            None => None,
            Some(i) => Some(i + 1),
        }
    }
}

/// A mantissa: digits with at most one dot, and at least one digit.
pub open spec fn mant_ok(m: Seq<u8>) -> bool {
    match first_in2(m, 46, 46) {
        None => m.len() >= 1 && all_digits(m),
        Some(d) => m.len() >= 2 && all_digits(m.take(d)) && all_digits(m.skip(d + 1)),
    }
}

/// An exponent body: an optional sign, then at least one digit.
pub open spec fn exp_ok(x: Seq<u8>) -> bool {
    let v = sign_stripped(x);
    v.len() >= 1 && all_digits(v)
}

/// The whole numeric-token grammar.
pub open spec fn is_number(t: Seq<u8>) -> bool {
    let u = sign_stripped(t);
    match first_in2(u, 101, 69) {
        None => mant_ok(u),
        Some(e) => mant_ok(u.take(e)) && exp_ok(u.skip(e + 1)),
    }
}

proof fn lemma_first_in2_from_char(s: Seq<u8>, b1: u8, b2: u8, k: int)
    requires
        0 <= k <= s.len(),
        forall|j: int| 0 <= j < k ==> s[j] != b1 && s[j] != b2,
        k == s.len() || s[k] == b1 || s[k] == b2,
    ensures
        first_in2(s, b1, b2) == if k == s.len() {
            None::<int>
        } else {
            Some(k)
        },
    decreases k,
{
    if s.len() == 0 {
    } else if s[0] == b1 || s[0] == b2 {
    } else {
        lemma_first_in2_from_char(s.skip(1), b1, b2, k - 1);
    }
}

proof fn lemma_first_in2_sub(t: Seq<u8>, a: int, b: int, r: int, b1: u8, b2: u8)
    requires
        0 <= a <= r <= b <= t.len(),
        forall|j: int| a <= j < r ==> t[j] != b1 && t[j] != b2,
        r < b ==> (t[r] == b1 || t[r] == b2),
    ensures
        first_in2(t.subrange(a, b), b1, b2) == if r == b {
            None::<int>
        } else {
            Some(r - a)
        },
{
    lemma_first_in2_from_char(t.subrange(a, b), b1, b2, r - a);
}

/// First index in `[from, to)` whose byte is `b1` or `b2`; `to` if none is.
fn scan_to_byte2(t: &[u8], from: usize, to: usize, b1: u8, b2: u8) -> (r: usize)
    requires
        from <= to <= t@.len(),
    ensures
        from <= r <= to,
        forall|j: int| from <= j < r ==> t@[j] != b1 && t@[j] != b2,
        r < to ==> (t@[r as int] == b1 || t@[r as int] == b2),
{
    let mut i = from;
    while i < to
        invariant
            from <= i <= to,
            to <= t@.len(),
            forall|j: int| from <= j < i ==> t@[j] != b1 && t@[j] != b2,
        decreases to - i,
    {
        if t[i] == b1 || t[i] == b2 {
            return i;
        }
        i += 1;
    }
    to
}

/// Every byte of `t[from..to]` is a decimal digit.
fn digits_in(t: &[u8], from: usize, to: usize) -> (r: bool)
    requires
        from <= to <= t@.len(),
    ensures
        r == all_digits(t@.subrange(from as int, to as int)),
{
    let mut i = from;
    while i < to
        invariant
            from <= i <= to,
            to <= t@.len(),
            forall|j: int| from <= j < i ==> is_digit(t@[j]),
        decreases to - i,
    {
        if !(48 <= t[i] && t[i] <= 57) {
            assert(!all_digits(t@.subrange(from as int, to as int))) by {
                assert(t@.subrange(from as int, to as int)[i - from] == t@[i as int]);
            }
            return false;
        }
        i += 1;
    }
    assert forall|j: int| 0 <= j < to - from implies is_digit(
        t@.subrange(from as int, to as int)[j],
    ) by {
        assert(t@.subrange(from as int, to as int)[j] == t@[from + j]);
    }
    true
}

/// Whether the token `t` is a numeric record under the decimal grammar.
pub fn is_numeric_token(t: &[u8]) -> (r: bool)
    ensures
        r == is_number(t@),
{
    let n = t.len();
    let si: usize = if n > 0 && (t[0] == 43 || t[0] == 45) {
        1
    } else {
        0
    };
    proof {
        assert(sign_stripped(t@) =~= t@.subrange(si as int, n as int));
    }
    let ea = scan_to_byte2(t, si, n, 101, 69);  // 'e' or 'E'
    proof {
        lemma_first_in2_sub(t@, si as int, n as int, ea as int, 101, 69);
    }
    let mant_end = ea;
    proof {
        assert(t@.subrange(si as int, n as int).take(ea - si) =~= t@.subrange(
            si as int,
            ea as int,
        ));
    }
    // mantissa over [si, mant_end)
    let da = scan_to_byte2(t, si, mant_end, 46, 46);  // '.'
    proof {
        lemma_first_in2_sub(t@, si as int, mant_end as int, da as int, 46, 46);
    }
    let m_ok: bool = if da == mant_end {
        mant_end - si >= 1 && digits_in(t, si, mant_end)
    } else {
        proof {
            let m = t@.subrange(si as int, mant_end as int);
            assert(m.take(da - si) =~= t@.subrange(si as int, da as int));
            assert(m.skip(da - si + 1) =~= t@.subrange(da as int + 1, mant_end as int));
        }
        mant_end - si >= 2 && digits_in(t, si, da) && digits_in(t, da + 1, mant_end)
    };
    assert(m_ok == mant_ok(t@.subrange(si as int, mant_end as int)));
    if ea == n {
        m_ok
    } else {
        // exponent over [ea + 1, n)
        proof {
            let u = t@.subrange(si as int, n as int);
            assert(u.skip(ea - si + 1) =~= t@.subrange(ea as int + 1, n as int));
        }
        let xa = ea + 1;
        let xsi: usize = if xa < n && (t[xa] == 43 || t[xa] == 45) {
            xa + 1
        } else {
            xa
        };
        proof {
            assert(sign_stripped(t@.subrange(xa as int, n as int)) =~= t@.subrange(
                xsi as int,
                n as int,
            ));
        }
        let x_ok = n - xsi >= 1 && digits_in(t, xsi, n);
        m_ok && x_ok
    }
}

} // verus!
