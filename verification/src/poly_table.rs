//! The interpolated trace: one polynomial per trace column, in coefficient
//! form, plus evaluation services — at an arbitrary point, and as the
//! evaluation frame at a point and its one-step domain shift.

use vstd::prelude::*;
use crate::field::{domain_size_ok, fmul, Felt};
use crate::frame::EvaluationFrame;
use crate::polynom::{eval_poly, peval, seq_val};

verus! {

/// One coefficient sequence per trace column, each of the trace's length.
#[derive(Clone, Debug)]
pub struct TracePolyTable {
    polys: Vec<Vec<Felt>>,
}

impl View for TracePolyTable {
    type V = Seq<Seq<nat>>;

    /// The table as a sequence of coefficient sequences of canonical
    /// representatives, in trace-column order.
    closed spec fn view(&self) -> Seq<Seq<nat>> {
        self.polys@.map_values(|c: Vec<Felt>| seq_val(c@))
    }
}

impl TracePolyTable {
    /// Well-formedness: at least one column, every coefficient sequence of
    /// the same admissible power-of-two length.
    pub open spec fn wf(self) -> bool {
        &&& self@.len() >= 1
        &&& forall|c: int| 0 <= c < self@.len() ==> #[trigger] self@[c].len() == self@[0].len()
        &&& domain_size_ok(self@[0].len())
    }

    /// Assembles a table from per-column coefficient sequences.
    pub fn new(polys: Vec<Vec<Felt>>) -> (r: TracePolyTable)
        requires
            polys@.len() >= 1,
            forall|c: int|
                0 <= c < polys@.len() ==> #[trigger] polys@[c]@.len() == polys@[0]@.len(),
            domain_size_ok(polys@[0]@.len()),
        ensures
            r.wf(),
            r@.len() == polys@.len(),
            forall|c: int| 0 <= c < polys@.len() ==> r@[c] == seq_val(polys@[c]@),
    {
        TracePolyTable { polys }
    }

    /// The number of column polynomials.
    pub fn num_polys(&self) -> (r: usize)
        ensures
            r == self@.len(),
    {
        self.polys.len()
    }

    /// The length of every coefficient sequence (the trace length).
    pub fn poly_size(&self) -> (r: usize)
        requires
            self.wf(),
        ensures
            r == self@[0].len(),
    {
        self.polys[0].len()
    }

    /// The coefficients of one column polynomial.
    pub fn get_poly(&self, idx: usize) -> (r: &Vec<Felt>)
        requires
            idx < self@.len(),
        ensures
            seq_val(r@) == self@[idx as int],
    {
        &self.polys[idx]
    }

    /// Evaluates every column polynomial at `x`, in column order.
    pub fn evaluate_at(&self, x: Felt) -> (r: Vec<Felt>)
        ensures
            r@.len() == self@.len(),
            forall|c: int|
                0 <= c < self@.len() ==> #[trigger] seq_val(r@)[c] == peval(self@[c], x@),
    {
        let mut out: Vec<Felt> = Vec::new();
        let n = self.polys.len();
        let mut c: usize = 0;
        while c < n
            invariant
                c <= n,
                n == self@.len(),
                out@.len() == c,
                forall|j: int|
                    0 <= j < c ==> #[trigger] seq_val(out@)[j] == peval(self@[j], x@),
            decreases n - c,
        {
            let v = eval_poly(self.polys[c].as_slice(), x);
            let ghost prev = out@;
            out.push(v);
            proof {
                assert forall|j: int|
                    0 <= j < c + 1 implies #[trigger] seq_val(out@)[j] == peval(self@[j], x@) by {
                    assert(seq_val(out@)[j] == out@[j]@);
                    if j < c {
                        assert(out@[j] == prev[j]);
                        assert(seq_val(prev)[j] == prev[j]@);
                    } else {
                        assert(out@[j] == v);
                    }
                }
            }
            c = c + 1;
        }
        out
    }

    /// The evaluation frame at `z`: every column evaluated at `z` fills
    /// `current`, every column evaluated at `z * g` fills `next`, where `g`
    /// generates the trace domain's one-step shift.
    pub fn get_evaluation_frame(&self, z: Felt, g: Felt) -> (r: EvaluationFrame)
        ensures
            r.is_consistent(self@.len()),
            forall|c: int|
                0 <= c < self@.len() ==> #[trigger] seq_val(r.current@)[c] == peval(
                    self@[c],
                    z@,
                ),
            forall|c: int|
                0 <= c < self@.len() ==> #[trigger] seq_val(r.next@)[c] == peval(
                    self@[c],
                    fmul(z@, g@),
                ),
    {
        let current = self.evaluate_at(z);
        let next = self.evaluate_at(z.mul(g));
        EvaluationFrame { current, next }
    }
}

} // verus!
