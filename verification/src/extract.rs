//! The extraction pipeline: locate the field anchor, classify the
//! representation inside a bounded lookahead window, extract the data region
//! of a nonuniform list bounded by the next section marker, and hand back the
//! numeric tokens (nonuniform) or the captured value (uniform).

use vstd::prelude::*;
use crate::scan::first_match_in;
use crate::scan::first_byte_in;
use crate::scan::last_byte_in;
use crate::scan::find_pattern;
use crate::scan::find_byte;
use crate::scan::rfind_byte;
use crate::number::is_number;
use crate::number::is_numeric_token;
use crate::tokenize::Delims;
use crate::tokenize::tokens;
use crate::tokenize::tokenize;
use crate::tokenize::without_parens;
use crate::tokenize::strip_parens;
use crate::uniform::uniform_capture;
use crate::uniform::uniform_capture_x;

verus! {

/// How many bytes after the anchor are searched for a representation
/// keyword.  A keyword placed further away is not seen.
pub const LOOKAHEAD_WINDOW: usize = 500;

/// The bytes of the anchor `internalField`.
pub open spec fn anchor_pat() -> Seq<u8> {
    seq![105u8, 110u8, 116u8, 101u8, 114u8, 110u8, 97u8, 108u8, 70u8, 105u8, 101u8, 108u8, 100u8]
}

/// The bytes of the representation keyword `nonuniform`.
pub open spec fn nonuniform_pat() -> Seq<u8> {
    seq![110u8, 111u8, 110u8, 117u8, 110u8, 105u8, 102u8, 111u8, 114u8, 109u8]
}

/// The bytes of the section marker `boundaryField`.
pub open spec fn boundary_pat() -> Seq<u8> {
    seq![98u8, 111u8, 117u8, 110u8, 100u8, 97u8, 114u8, 121u8, 70u8, 105u8, 101u8, 108u8, 100u8]
}

fn anchor_bytes() -> (v: Vec<u8>)
    ensures
        v@ == anchor_pat(),
{
    let mut v: Vec<u8> = Vec::new();
    v.push(105);
    v.push(110);
    v.push(116);
    v.push(101);
    v.push(114);
    v.push(110);
    v.push(97);
    v.push(108);
    v.push(70);
    v.push(105);
    v.push(101);
    v.push(108);
    v.push(100);
    assert(v@ =~= anchor_pat());
    v
}

fn nonuniform_bytes() -> (v: Vec<u8>)
    ensures
        v@ == nonuniform_pat(),
{
    let mut v: Vec<u8> = Vec::new();
    v.push(110);
    v.push(111);
    v.push(110);
    v.push(117);
    v.push(110);
    v.push(105);
    v.push(102);
    v.push(111);
    v.push(114);
    v.push(109);
    assert(v@ =~= nonuniform_pat());
    v
}

fn boundary_bytes() -> (v: Vec<u8>)
    ensures
        v@ == boundary_pat(),
{
    let mut v: Vec<u8> = Vec::new();
    v.push(98);
    v.push(111);
    v.push(117);
    v.push(110);
    v.push(100);
    v.push(97);
    v.push(114);
    v.push(121);
    v.push(70);
    v.push(105);
    v.push(101);
    v.push(108);
    v.push(100);
    assert(v@ =~= boundary_pat());
    v
}

/// The lookahead window that starts at `ws`.
pub open spec fn window_of(data: Seq<u8>, ws: int) -> Seq<u8> {
    let we = if ws + LOOKAHEAD_WINDOW <= data.len() {
        ws + LOOKAHEAD_WINDOW
    } else {
        data.len() as int
    };
    data.subrange(ws, we)
}

/// What the shared scanning skeleton finds.
pub enum SpecScan {
    /// No anchor, or a nonuniform entry whose data region could not be
    /// delimited, or a window with no usable representation keyword.
    Absent,
    /// The data region of a nonuniform list: a half-open byte range strictly
    /// between the list's delimiters.
    Region(int, int),
    /// The captured value portion of a uniform entry.
    UniformValue(Seq<u8>),
}

/// The scanning skeleton shared by both modes: anchor, window,
/// representation, and region or capture.
pub open spec fn scan_spec(data: Seq<u8>) -> SpecScan {
    match first_match_in(data, anchor_pat(), 0, data.len() as int) {
        None => SpecScan::Absent,
        Some(a) => {
            let ws = a + anchor_pat().len();
            let w = window_of(data, ws);
            match first_match_in(w, nonuniform_pat(), 0, w.len() as int) {
                Some(nm) => {
                    let off = ws + nm + nonuniform_pat().len();
                    match first_byte_in(data, 40, off, data.len() as int) {
                        None => SpecScan::Absent,
                        Some(ps) => {
                            let lim = match first_match_in(
                                data,
                                boundary_pat(),
                                ps,
                                data.len() as int,
                            ) {
                                Some(b) => b,
                                None => data.len() as int,
                            };
                            match last_byte_in(data, 41, ps, lim) {
                                None => SpecScan::Absent,
                                Some(pe) => SpecScan::Region(ps + 1, pe),
                            }
                        },
                    }
                },
                None => match uniform_capture(w) {
                    Some((ca, cb)) => SpecScan::UniformValue(w.subrange(ca, cb)),
                    None => SpecScan::Absent,
                },
            }
        },
    }
}

/// What the scanning skeleton hands to the two modes.
pub enum ScanOutcome {
    Absent,
    Region(usize, usize),
    UniformValue(Vec<u8>),
}

impl View for ScanOutcome {
    type V = SpecScan;

    open spec fn view(&self) -> SpecScan {
        match self {
            ScanOutcome::Absent => SpecScan::Absent,
            ScanOutcome::Region(lo, hi) => SpecScan::Region(*lo as int, *hi as int),
            ScanOutcome::UniformValue(cap) => SpecScan::UniformValue(cap@),
        }
    }
}

/// Locate the anchor, classify the representation inside the lookahead
/// window, and delimit the data region or capture the uniform value.
pub fn scan_field(data: &[u8]) -> (r: ScanOutcome)
    ensures
        r@ == scan_spec(data@),
        match r {
            ScanOutcome::Region(lo, hi) => 0 < lo <= hi && hi <= data@.len(),
            _ => true,
        },
{
    let n = data.len();
    let anchor = anchor_bytes();
    let a = match find_pattern(data, anchor.as_slice(), 0, n) {
        None => { return ScanOutcome::Absent; },
        Some(a) => a,
    };
    let ws = a + 13;
    let we = if n - ws >= LOOKAHEAD_WINDOW {
        ws + LOOKAHEAD_WINDOW
    } else {
        n
    };
    assert(data@.subrange(ws as int, we as int) == window_of(data@, ws as int));
    let win = vstd::slice::slice_to_vec(vstd::slice::slice_subrange(data, ws, we));
    let nonuni = nonuniform_bytes();
    match find_pattern(win.as_slice(), nonuni.as_slice(), 0, win.len()) {
        Some(nm) => {
            let off = ws + nm + 10;
            match find_byte(data, 40, off, n) {
                None => ScanOutcome::Absent,
                Some(ps) => {
                    let boundary = boundary_bytes();
                    let lim = match find_pattern(data, boundary.as_slice(), ps, n) {
                        Some(b) => b,
                        None => n,
                    };
                    match rfind_byte(data, 41, ps, lim) {
                        None => ScanOutcome::Absent,
                        Some(pe) => {
                            assert(data@[ps as int] == 40 && data@[pe as int] == 41);
                            ScanOutcome::Region(ps + 1, pe)
                        },
                    }
                },
            }
        },
        None => {
            match uniform_capture_x(win.as_slice()) {
                Some((ca, cb)) => ScanOutcome::UniformValue(
                    vstd::slice::slice_to_vec(vstd::slice::slice_subrange(win.as_slice(), ca, cb)),
                ),
                None => ScanOutcome::Absent,
            }
        },
    }
}

/// The scalar outcome: nothing, a single uniform value token, or the list of
/// numeric sample tokens whose mean is the result.
pub enum SpecScalar {
    Absent,
    Uniform(Seq<u8>),
    Samples(Seq<Seq<u8>>),
}

/// The scalar pipeline over the raw bytes.
pub open spec fn scalar_spec(data: Seq<u8>) -> SpecScalar {
    match scan_spec(data) {
        SpecScan::Absent => SpecScalar::Absent,
        SpecScan::Region(lo, hi) => {
            let ts = tokens(data.subrange(lo, hi), Delims::Space, true);
            if ts.len() > 0 {
                SpecScalar::Samples(ts)
            } else {
                SpecScalar::Absent
            }
        },
        SpecScan::UniformValue(cap) => if is_number(cap) {
            SpecScalar::Uniform(cap)
        } else {
            SpecScalar::Absent
        },
    }
}

/// The scalar outcome a caller averages; its view is `scalar_spec`.
#[derive(Debug, PartialEq, Eq)]
pub enum ScalarField {
    Absent,
    Uniform(Vec<u8>),
    Samples(Vec<Vec<u8>>),
}

impl View for ScalarField {
    type V = SpecScalar;

    open spec fn view(&self) -> SpecScalar {
        match self {
            ScalarField::Absent => SpecScalar::Absent,
            ScalarField::Uniform(t) => SpecScalar::Uniform(t@),
            ScalarField::Samples(ts) => SpecScalar::Samples(ts.deep_view()),
        }
    }
}

/// Extract the scalar field of `data`: the uniform value token, or the
/// numeric tokens of the nonuniform list (each one record), or nothing.
pub fn scalar_field(data: &[u8]) -> (r: ScalarField)
    ensures
        r@ == scalar_spec(data@),
{
    match scan_field(data) {
        ScanOutcome::Absent => ScalarField::Absent,
        ScanOutcome::Region(lo, hi) => {
            let ts = tokenize(data, lo, hi, Delims::Space, true);
            if ts.len() > 0 {
                ScalarField::Samples(ts)
            } else {
                assert(ts.deep_view().len() == 0);
                ScalarField::Absent
            }
        },
        ScanOutcome::UniformValue(cap) => {
            if is_numeric_token(cap.as_slice()) {
                ScalarField::Uniform(cap)
            } else {
                ScalarField::Absent
            }
        },
    }
}

/// The tokens of one vector component: of the numeric tokens taken in a
/// strict cycle of three, those in slot `c`.  The third component's length
/// is the number of complete triples; the first may exceed it when the list
/// ends mid-triple.
pub open spec fn component(ts: Seq<Seq<u8>>, c: int) -> Seq<Seq<u8>> {
    Seq::new(((ts.len() - c + 2) / 3) as nat, |i: int| ts[3 * i + c])
}

/// The component token lists of a nonuniform vector list.
#[derive(Debug, PartialEq, Eq)]
pub struct VectorSamples {
    pub xs: Vec<Vec<u8>>,
    pub ys: Vec<Vec<u8>>,
    pub zs: Vec<Vec<u8>>,
}

/// The vector outcome: nothing, the three tokens of a uniform triple, or the
/// per-component sample tokens whose means are the result.
pub enum SpecVector {
    Absent,
    Uniform(Seq<u8>, Seq<u8>, Seq<u8>),
    Samples(Seq<Seq<u8>>, Seq<Seq<u8>>, Seq<Seq<u8>>),
}

/// The vector pipeline over the raw bytes.
pub open spec fn vector_spec(data: Seq<u8>) -> SpecVector {
    match scan_spec(data) {
        SpecScan::Absent => SpecVector::Absent,
        SpecScan::Region(lo, hi) => {
            let ts = tokens(data.subrange(lo, hi), Delims::SpaceParen, true);
            if ts.len() >= 3 {
                SpecVector::Samples(component(ts, 0), component(ts, 1), component(ts, 2))
            } else {
                SpecVector::Absent
            }
        },
        SpecScan::UniformValue(cap) => {
            let parts = tokens(without_parens(cap), Delims::AnyWs, false);
            if parts.len() == 3 {
                SpecVector::Uniform(parts[0], parts[1], parts[2])
            } else {
                SpecVector::Absent
            }
        },
    }
}

/// The vector outcome a caller averages; its view is `vector_spec`.
#[derive(Debug, PartialEq, Eq)]
pub enum VectorField {
    Absent,
    Uniform(Vec<u8>, Vec<u8>, Vec<u8>),
    Samples(VectorSamples),
}

impl View for VectorField {
    type V = SpecVector;

    open spec fn view(&self) -> SpecVector {
        match self {
            VectorField::Absent => SpecVector::Absent,
            VectorField::Uniform(x, y, z) => SpecVector::Uniform(x@, y@, z@),
            VectorField::Samples(s) => SpecVector::Samples(
                s.xs.deep_view(),
                s.ys.deep_view(),
                s.zs.deep_view(),
            ),
        }
    }
}

fn split_components(ts: &Vec<Vec<u8>>) -> (r: VectorSamples)
    ensures
        r.xs.deep_view() == component(ts.deep_view(), 0),
        r.ys.deep_view() == component(ts.deep_view(), 1),
        r.zs.deep_view() == component(ts.deep_view(), 2),
{
    let ghost tsdv = ts.deep_view();
    let n = ts.len();
    let mut xs: Vec<Vec<u8>> = Vec::new();
    let mut ys: Vec<Vec<u8>> = Vec::new();
    let mut zs: Vec<Vec<u8>> = Vec::new();
    let mut i: usize = 0;
    while i < n
        invariant
            0 <= i <= n,
            n == ts@.len(),
            tsdv == ts.deep_view(),
            xs.deep_view() =~~= component(tsdv.take(i as int), 0),
            ys.deep_view() =~~= component(tsdv.take(i as int), 1),
            zs.deep_view() =~~= component(tsdv.take(i as int), 2),
        decreases n - i,
    {
        let tok = vstd::slice::slice_to_vec((&ts[i]).as_slice());
        proof {
            assert(tok@ == ts@[i as int]@);
            assert(tok.deep_view() =~= tsdv[i as int]);
        }
        let c = i % 3;
        let ghost oxs = xs.deep_view();
        let ghost oys = ys.deep_view();
        let ghost ozs = zs.deep_view();
        if c == 0 {
            xs.push(tok);
        } else if c == 1 {
            ys.push(tok);
        } else {
            zs.push(tok);
        }
        proof {
            if c == 0 {
                assert(xs.deep_view() =~~= oxs.push(tsdv[i as int]));
            } else if c == 1 {
                assert(ys.deep_view() =~~= oys.push(tsdv[i as int]));
            } else {
                assert(zs.deep_view() =~~= ozs.push(tsdv[i as int]));
            }
            let pre = tsdv.take(i as int);
            let post = tsdv.take(i as int + 1);
            assert(post == pre.push(tsdv[i as int]));
            assert(xs.deep_view() =~~= component(post, 0));
            assert(ys.deep_view() =~~= component(post, 1));
            assert(zs.deep_view() =~~= component(post, 2));
        }
        i += 1;
    }
    proof {
        assert(tsdv.take(n as int) == tsdv);
    }
    VectorSamples { xs, ys, zs }
}

/// Extract the vector field of `data`: the three tokens of a uniform triple,
/// or the per-component tokens of the nonuniform list, or nothing.
pub fn vector_field(data: &[u8]) -> (r: VectorField)
    ensures
        r@ == vector_spec(data@),
{
    match scan_field(data) {
        ScanOutcome::Absent => VectorField::Absent,
        ScanOutcome::Region(lo, hi) => {
            let ts = tokenize(data, lo, hi, Delims::SpaceParen, true);
            if ts.len() >= 3 {
                VectorField::Samples(split_components(&ts))
            } else {
                VectorField::Absent
            }
        },
        ScanOutcome::UniformValue(cap) => {
            let clean = strip_parens(cap.as_slice());
            let mut parts = tokenize(clean.as_slice(), 0, clean.len(), Delims::AnyWs, false);
            proof {
                assert(clean@.subrange(0, clean@.len() as int) =~= clean@);
            }
            if parts.len() == 3 {
                let ghost pdv = parts.deep_view();
                let z = parts.pop().unwrap();
                let y = parts.pop().unwrap();
                let x = parts.pop().unwrap();
                proof {
                    assert(x@ == pdv[0] && y@ == pdv[1] && z@ == pdv[2]);
                }
                VectorField::Uniform(x, y, z)
            } else {
                VectorField::Absent
            }
        },
    }
}

/// Extraction is a pure function of the bytes: the same contents always
/// yield the same outcome, so repeated calls on an unmodified file agree.
pub proof fn lemma_extraction_deterministic(d1: Seq<u8>, d2: Seq<u8>)
    requires
        d1 == d2,
    ensures
        scalar_spec(d1) == scalar_spec(d2),
        vector_spec(d1) == vector_spec(d2),
{
}

/// Empty contents yield the absent outcome in both modes.
pub proof fn lemma_empty_input_absent(data: Seq<u8>)
    requires
        data.len() == 0,
    ensures
        scalar_spec(data) == SpecScalar::Absent,
        vector_spec(data) == SpecVector::Absent,
{
    assert(first_match_in(data, anchor_pat(), 0, data.len() as int) is None);
}

/// The data region ends before the section marker: when `boundaryField`
/// occurs at or after the list's opening delimiter, the closing delimiter is
/// taken before it, so bytes of a later section are never in the region.
pub proof fn lemma_region_ends_before_boundary(data: Seq<u8>)
    ensures
        match scan_spec(data) {
            SpecScan::Region(lo, hi) => match first_match_in(
                data,
                boundary_pat(),
                lo - 1,
                data.len() as int,
            ) {
                Some(b) => hi < b,
                None => true,
            },
            _ => true,
        },
{
    if scan_spec(data) is Region {
        let a = first_match_in(data, anchor_pat(), 0, data.len() as int).unwrap();
        let ws = a + anchor_pat().len();
        let w = window_of(data, ws);
        let nm = first_match_in(w, nonuniform_pat(), 0, w.len() as int).unwrap();
        let off = ws + nm + nonuniform_pat().len();
        let ps = first_byte_in(data, 40, off, data.len() as int).unwrap();
        let lim = match first_match_in(data, boundary_pat(), ps, data.len() as int) {
            Some(b) => b,
            None => data.len() as int,
        };
        crate::scan::lemma_last_byte_in_props(data, 41, ps, lim);
    }
}

/// A file whose lookahead window holds neither the `nonuniform` keyword nor
/// a matching uniform entry yields the absent outcome, not an error.
pub proof fn lemma_no_marker_absent(data: Seq<u8>)
    requires
        first_match_in(data, anchor_pat(), 0, data.len() as int) is Some,
        ({
            let a = first_match_in(data, anchor_pat(), 0, data.len() as int).unwrap();
            let w = window_of(data, a + anchor_pat().len());
            &&& first_match_in(w, nonuniform_pat(), 0, w.len() as int) is None
            &&& uniform_capture(w) is None
        }),
    ensures
        scalar_spec(data) == SpecScalar::Absent,
        vector_spec(data) == SpecVector::Absent,
{
}

/// Every sample token of either mode satisfies the numeric grammar, and a
/// uniform scalar value does too: a caller can parse each one as a number.
pub proof fn lemma_samples_all_numeric(data: Seq<u8>)
    ensures
        match scalar_spec(data) {
            SpecScalar::Samples(ts) => forall|i: int|
                0 <= i < ts.len() ==> is_number(#[trigger] ts[i]),
            SpecScalar::Uniform(t) => is_number(t),
            SpecScalar::Absent => true,
        },
        match vector_spec(data) {
            SpecVector::Samples(xs, ys, zs) => {
                &&& forall|i: int| 0 <= i < xs.len() ==> is_number(#[trigger] xs[i])
                &&& forall|i: int| 0 <= i < ys.len() ==> is_number(#[trigger] ys[i])
                &&& forall|i: int| 0 <= i < zs.len() ==> is_number(#[trigger] zs[i])
            },
            _ => true,
        },
{
    if scan_spec(data) is Region {
        let lo = scan_spec(data)->Region_0;
        let hi = scan_spec(data)->Region_1;
        crate::tokenize::lemma_tokens_numeric(data.subrange(lo, hi), Delims::Space);
        crate::tokenize::lemma_tokens_numeric(data.subrange(lo, hi), Delims::SpaceParen);
    }
}

/// A trailing incomplete triple never counts as a record: the number of
/// complete triples is the third component's length, and the first two
/// components may each hold at most one more token than that.
pub proof fn lemma_trailing_triple(ts: Seq<Seq<u8>>)
    ensures
        component(ts, 2).len() == ts.len() / 3,
        component(ts, 2).len() <= component(ts, 1).len() <= component(ts, 2).len() + 1,
        component(ts, 1).len() <= component(ts, 0).len() <= component(ts, 1).len() + 1,
        ts.len() % 3 == 0 ==> component(ts, 0).len() == ts.len() / 3 && component(ts, 1).len()
            == ts.len() / 3,
{
}

} // verus!
