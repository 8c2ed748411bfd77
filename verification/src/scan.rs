//! Byte-level searches: first occurrence of a pattern, first or last
//! occurrence of a single byte, each within a half-open index range.

use vstd::prelude::*;

verus! {

/// The pattern `pat` occurs in `data` starting at index `i`.
pub open spec fn matches_at(data: Seq<u8>, pat: Seq<u8>, i: int) -> bool {
    &&& 0 <= i
    &&& i + pat.len() <= data.len()
    &&& forall|j: int| 0 <= j < pat.len() ==> data[i + j] == pat[j]
}

/// Index of the first occurrence of `pat` in `data` that starts at or after
/// `from` and ends at or before `to`; `None` when there is none.
pub open spec fn first_match_in(data: Seq<u8>, pat: Seq<u8>, from: int, to: int) -> Option<int>
    decreases to - from,
{
    if from < 0 || to > data.len() || from + pat.len() > to {
        None
    } else if matches_at(data, pat, from) {
        Some(from)
    } else {
        first_match_in(data, pat, from + 1, to)
    }
}

proof fn lemma_first_match_step(data: Seq<u8>, pat: Seq<u8>, from: int, to: int)
    requires
        0 <= from,
        to <= data.len(),
        from + pat.len() <= to,
        !matches_at(data, pat, from),
    ensures
        first_match_in(data, pat, from, to) == first_match_in(data, pat, from + 1, to),
{
}

/// Search for `pat` inside `data[from..to]`, first occurrence.
pub fn find_pattern(data: &[u8], pat: &[u8], from: usize, to: usize) -> (r: Option<usize>)
    requires
        to <= data@.len(),
    ensures
        ({
            let m = first_match_in(data@, pat@, from as int, to as int);
            match r {
                Some(i) => m == Some(i as int),
                None => m is None,
            }
        }),
        match r {
            Some(i) => from <= i && i + pat@.len() <= to && matches_at(data@, pat@, i as int),
            None => true,
        },
{
    let m = pat.len();
    if from > to || to - from < m {
        return None;
    }
    let mut i = from;
    while i <= to - m
        invariant
            from <= i,
            i <= to - m + 1,
            m <= to,
            to <= data@.len(),
            m == pat@.len(),
            first_match_in(data@, pat@, from as int, to as int) == first_match_in(
                data@,
                pat@,
                i as int,
                to as int,
            ),
        decreases to - i,
    {
        let mut j: usize = 0;
        let mut ok = true;
        while j < m
            invariant
                0 <= j <= m,
                m == pat@.len(),
                i + m <= to <= data@.len(),
                ok ==> forall|t: int| 0 <= t < j ==> data@[i + t] == pat@[t],
                !ok ==> !matches_at(data@, pat@, i as int),
            ensures
                ok ==> j == m,
            decreases m - j,
        {
            if data[i + j] != pat[j] {
                assert(data@[i + j] != pat@[j as int]);
                ok = false;
                break;
            }
            j += 1;
        }
        if ok {
            assert(j == m);
            assert(matches_at(data@, pat@, i as int));
            return Some(i);
        }
        proof {
            lemma_first_match_step(data@, pat@, i as int, to as int);
        }
        i += 1;
    }
    None
}

/// Index of the first occurrence of the byte `b` in `data[from..to]`.
pub open spec fn first_byte_in(data: Seq<u8>, b: u8, from: int, to: int) -> Option<int>
    decreases to - from,
{
    if from < 0 || to > data.len() || from >= to {
        None
    } else if data[from] == b {
        Some(from)
    } else {
        first_byte_in(data, b, from + 1, to)
    }
}

/// Index of the last occurrence of the byte `b` in `data[from..to]`.
pub open spec fn last_byte_in(data: Seq<u8>, b: u8, from: int, to: int) -> Option<int>
    decreases to - from,
{
    if from < 0 || to > data.len() || from >= to {
        None
    } else if data[to - 1] == b {
        Some(to - 1)
    } else {
        last_byte_in(data, b, from, to - 1)
    }
}

/// A found last byte lies inside the searched range and holds the byte.
pub proof fn lemma_last_byte_in_props(data: Seq<u8>, b: u8, from: int, to: int)
    ensures
        match last_byte_in(data, b, from, to) {
            Some(i) => from <= i < to <= data.len() && data[i] == b,
            None => true,
        },
    decreases to - from,
{
    if from < 0 || to > data.len() || from >= to {
    } else if data[to - 1] == b {
    } else {
        lemma_last_byte_in_props(data, b, from, to - 1);
    }
}

/// Search for the byte `b` inside `data[from..to]`, first occurrence.
pub fn find_byte(data: &[u8], b: u8, from: usize, to: usize) -> (r: Option<usize>)
    requires
        to <= data@.len(),
    ensures
        ({
            let m = first_byte_in(data@, b, from as int, to as int);
            match r {
                Some(i) => m == Some(i as int),
                None => m is None,
            }
        }),
        match r {
            Some(i) => from <= i < to && data@[i as int] == b,
            None => true,
        },
{
    let mut i = from;
    while i < to
        invariant
            from <= i,
            to <= data@.len(),
            first_byte_in(data@, b, from as int, to as int) == first_byte_in(
                data@,
                b,
                i as int,
                to as int,
            ),
        decreases to - i,
    {
        if data[i] == b {
            return Some(i);
        }
        i += 1;
    }
    None
}

/// Search for the byte `b` inside `data[from..to]`, last occurrence.
pub fn rfind_byte(data: &[u8], b: u8, from: usize, to: usize) -> (r: Option<usize>)
    requires
        to <= data@.len(),
    ensures
        ({
            let m = last_byte_in(data@, b, from as int, to as int);
            match r {
                Some(i) => m == Some(i as int),
                None => m is None,
            }
        }),
        match r {
            Some(i) => from <= i < to && data@[i as int] == b,
            None => true,
        },
{
    if from >= to {
        return None;
    }
    let mut i = to;
    while i > from
        invariant
            from <= i <= to,
            to <= data@.len(),
            last_byte_in(data@, b, from as int, to as int) == last_byte_in(
                data@,
                b,
                from as int,
                i as int,
            ),
        decreases i,
    {
        i -= 1;
        if data[i] == b {
            return Some(i);
        }
    }
    None
}

} // verus!
