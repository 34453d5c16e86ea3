//! The low-degree extension of the trace: every column polynomial
//! evaluated over an extended domain — the trace length times a blowup
//! factor — ready for a vector commitment. The polynomial table is kept,
//! so the out-of-domain evaluation frame can be produced at an arbitrary
//! point without re-deriving the polynomials.

use vstd::prelude::*;
use crate::field::{
    domain_size_ok, fmul, fpow, lemma_domain_size_divides, root_of_unity_spec, Felt,
};
use crate::frame::EvaluationFrame;
use crate::poly_table::TracePolyTable;
use crate::polynom::{eval_poly, peval, seq_val};

verus! {

/// Evaluates the polynomial with the given coefficients at the first `d`
/// powers of `root`.
fn evaluate_over_domain(coeffs: &[Felt], root: Felt, d: usize) -> (r: Vec<Felt>)
    ensures
        r@.len() == d,
        forall|i: int|
            0 <= i < d ==> #[trigger] seq_val(r@)[i] == peval(
                seq_val(coeffs@),
                fpow(root@, i as nat),
            ),
{
    let mut out: Vec<Felt> = Vec::new();
    let mut x = Felt::one();
    let mut i: usize = 0;
    while i < d
        invariant
            i <= d,
            out@.len() == i,
            x@ == fpow(root@, i as nat),
            forall|j: int|
                0 <= j < i ==> #[trigger] seq_val(out@)[j] == peval(
                    seq_val(coeffs@),
                    fpow(root@, j as nat),
                ),
        decreases d - i,
    {
        let v = eval_poly(coeffs, x);
        let ghost prev = out@;
        let ghost prev_x: nat = x@;
        out.push(v);
        x = x.mul(root);
        proof {
            assert(fpow(root@, (i + 1) as nat) == fmul(root@, fpow(root@, i as nat)));
            assert(x@ == fmul(prev_x, root@));
            assert forall|j: int|
                0 <= j < i + 1 implies #[trigger] seq_val(out@)[j] == peval(
                seq_val(coeffs@),
                fpow(root@, j as nat),
            ) by {
                assert(seq_val(out@)[j] == out@[j]@);
                if j < i {
                    assert(out@[j] == prev[j]);
                    assert(seq_val(prev)[j] == prev[j]@);
                } else {
                    assert(out@[j] == v);
                }
            }
        }
        i = i + 1;
    }
    out
}

/// The trace polynomials together with their evaluations over the extended
/// domain.
#[derive(Clone, Debug)]
pub struct TraceLde {
    polys: TracePolyTable,
    evaluations: Vec<Vec<Felt>>,
    blowup: usize,
}

impl TraceLde {
    /// The coefficient sequences of the underlying polynomial table.
    pub closed spec fn spec_polys(self) -> Seq<Seq<nat>> {
        self.polys@
    }

    /// The per-column evaluations over the extended domain.
    pub closed spec fn spec_evaluations(self) -> Seq<Seq<nat>> {
        self.evaluations@.map_values(|c: Vec<Felt>| seq_val(c@))
    }

    /// The blowup factor: extended domain size over trace length.
    pub closed spec fn spec_blowup(self) -> nat {
        self.blowup as nat
    }

    /// The trace length (length of every coefficient sequence).
    pub open spec fn trace_length(self) -> nat {
        self.spec_polys()[0].len()
    }

    /// The extended domain size: trace length times blowup factor.
    pub open spec fn domain_size(self) -> nat {
        self.trace_length() * self.spec_blowup()
    }

    /// Well-formedness: a well-shaped polynomial table, an admissible
    /// extended domain, and one evaluation per column and domain point —
    /// the value of that column's polynomial at that power of the extended
    /// domain's root of unity.
    pub open spec fn wf(self) -> bool {
        &&& self.spec_polys().len() >= 1
        &&& forall|c: int|
            0 <= c < self.spec_polys().len() ==> #[trigger] self.spec_polys()[c].len()
                == self.trace_length()
        &&& domain_size_ok(self.trace_length())
        &&& self.spec_blowup() >= 1
        &&& domain_size_ok(self.domain_size())
        &&& self.spec_evaluations().len() == self.spec_polys().len()
        &&& forall|c: int|
            0 <= c < self.spec_evaluations().len() ==> #[trigger] self.spec_evaluations()[c].len()
                == self.domain_size()
        &&& forall|c: int, i: int|
            0 <= c < self.spec_evaluations().len() && 0 <= i < self.domain_size()
                ==> #[trigger] self.spec_evaluations()[c][i] == peval(
                self.spec_polys()[c],
                fpow(root_of_unity_spec(self.domain_size()), i as nat),
            )
    }

    /// Extends the trace: evaluates every column polynomial over the
    /// extended domain of `poly_table` length times `blowup_factor`. The
    /// extended domain size must itself be an admissible power of two.
    pub fn new(polys: TracePolyTable, blowup_factor: usize) -> (r: TraceLde)
        requires
            polys.wf(),
            blowup_factor >= 1,
            domain_size_ok((polys@[0].len() * blowup_factor) as nat),
        ensures
            r.wf(),
            r.spec_polys() == polys@,
            r.spec_blowup() == blowup_factor as nat,
    {
        proof {
            lemma_domain_size_divides(polys@[0].len() * blowup_factor as nat);
        }
        let d: usize = polys.poly_size() * blowup_factor;
        let root = Felt::get_root_of_unity(d as u64);
        let n = polys.num_polys();
        let mut evaluations: Vec<Vec<Felt>> = Vec::new();
        let mut c: usize = 0;
        while c < n
            invariant
                c <= n,
                n == polys@.len(),
                polys.wf(),
                d == polys@[0].len() * blowup_factor,
                root@ == root_of_unity_spec(d as nat),
                evaluations@.len() == c,
                forall|j: int| 0 <= j < c ==> #[trigger] evaluations@[j]@.len() == d,
                forall|j: int, i: int|
                    0 <= j < c && 0 <= i < d ==> #[trigger] seq_val(evaluations@[j]@)[i] == peval(
                        polys@[j],
                        fpow(root@, i as nat),
                    ),
            decreases n - c,
        {
            let col = polys.get_poly(c);
            let evals = evaluate_over_domain(col.as_slice(), root, d);
            let ghost prev = evaluations@;
            evaluations.push(evals);
            proof {
                assert forall|j: int, i: int|
                    0 <= j < c + 1 && 0 <= i < d implies #[trigger] seq_val(evaluations@[j]@)[i]
                    == peval(polys@[j], fpow(root@, i as nat)) by {
                    if j < c {
                        assert(evaluations@[j] == prev[j]);
                    } else {
                        assert(evaluations@[j]@ == evals@);
                        assert(seq_val(evals@)[i] == peval(seq_val(col@), fpow(root@, i as nat)));
                    }
                }
            }
            c = c + 1;
        }
        let r = TraceLde { polys, evaluations, blowup: blowup_factor };
        proof {
            assert forall|c2: int, i: int|
                0 <= c2 < r.spec_evaluations().len() && 0 <= i < r.domain_size()
                implies #[trigger] r.spec_evaluations()[c2][i] == peval(
                r.spec_polys()[c2],
                fpow(root_of_unity_spec(r.domain_size()), i as nat),
            ) by {
                assert(r.spec_evaluations()[c2] == seq_val(r.evaluations@[c2]@));
            }
        }
        r
    }

    /// The number of trace columns.
    pub fn num_columns(&self) -> (r: usize)
        ensures
            r == self.spec_evaluations().len(),
    {
        self.evaluations.len()
    }

    /// The blowup factor.
    pub fn blowup_factor(&self) -> (r: usize)
        ensures
            r == self.spec_blowup(),
    {
        self.blowup
    }

    /// The extended domain size.
    pub fn domain_len(&self) -> (r: usize)
        requires
            self.wf(),
        ensures
            r == self.domain_size(),
    {
        proof {
            assert(self.spec_evaluations()[0] == seq_val(self.evaluations@[0]@));
            assert(self.spec_evaluations()[0].len() == self.domain_size());
        }
        self.evaluations[0].len()
    }

    /// One column's evaluations over the extended domain, commitment-ready.
    pub fn get_column(&self, idx: usize) -> (r: &Vec<Felt>)
        requires
            idx < self.spec_evaluations().len(),
        ensures
            seq_val(r@) == self.spec_evaluations()[idx as int],
    {
        &self.evaluations[idx]
    }

    /// Evaluates every column polynomial at an arbitrary point `x`, without
    /// re-deriving the polynomials.
    pub fn evaluate_at(&self, x: Felt) -> (r: Vec<Felt>)
        ensures
            r@.len() == self.spec_polys().len(),
            forall|c: int|
                0 <= c < self.spec_polys().len() ==> #[trigger] seq_val(r@)[c] == peval(
                    self.spec_polys()[c],
                    x@,
                ),
    {
        self.polys.evaluate_at(x)
    }

    /// The out-of-domain evaluation frame at `z` and `z * g`, produced
    /// after the commitment to the extended evaluations.
    pub fn get_evaluation_frame(&self, z: Felt, g: Felt) -> (r: EvaluationFrame)
        ensures
            r.is_consistent(self.spec_polys().len()),
            forall|c: int|
                0 <= c < self.spec_polys().len() ==> #[trigger] seq_val(r.current@)[c] == peval(
                    self.spec_polys()[c],
                    z@,
                ),
            forall|c: int|
                0 <= c < self.spec_polys().len() ==> #[trigger] seq_val(r.next@)[c] == peval(
                    self.spec_polys()[c],
                    fmul(z@, g@),
                ),
    {
        self.polys.get_evaluation_frame(z, g)
    }
}

} // verus!
