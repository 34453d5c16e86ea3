//! Interpolation of a raw trace into column polynomials. Each column is
//! interpolated independently over the trace domain — the powers of the
//! `length`-th root of unity — by the inverse discrete Fourier transform.

use vstd::prelude::*;
use vstd::arithmetic::div_mod::lemma_small_mod;
use crate::field::{
    finv, fmul, fpow, lemma_domain_size_divides, root_of_unity_spec, Felt, P,
};
use crate::poly_table::TracePolyTable;
use crate::polynom::{eval_poly, peval, seq_val};
use crate::trace_table::TraceTable;

verus! {

/// The coefficients interpolating `values` over the power-of-two domain of
/// its own length `l`: the inverse discrete Fourier transform
/// `coeff[k] = l^-1 * (values[0] + values[1] * w^-k + ... + values[l-1] * w^-k(l-1))`,
/// with the inner sum written as the evaluation, at `w^-k`, of the
/// polynomial whose coefficients are the values themselves.
pub open spec fn interpolate_spec(values: Seq<nat>) -> Seq<nat> {
    let l = values.len();
    let winv = finv(root_of_unity_spec(l));
    let linv = finv(l);
    Seq::new(l, |k: int| fmul(linv, peval(values, fpow(winv, k as nat))))
}

/// Interpolates one column: coefficient `k` is `linv * values(winv^k)`,
/// where `winv` and `linv` are the inverses of the domain's root of unity
/// and of the column length.
fn interpolate_column(values: &[Felt], winv: Felt, linv: Felt) -> (r: Vec<Felt>)
    ensures
        r@.len() == values@.len(),
        forall|k: int|
            0 <= k < values@.len() ==> #[trigger] seq_val(r@)[k] == fmul(
                linv@,
                peval(seq_val(values@), fpow(winv@, k as nat)),
            ),
{
    let n = values.len();
    let mut coeffs: Vec<Felt> = Vec::new();
    let mut x = Felt::one();
    let mut k: usize = 0;
    while k < n
        invariant
            k <= n,
            n == values@.len(),
            coeffs@.len() == k,
            x@ == fpow(winv@, k as nat),
            forall|j: int|
                0 <= j < k ==> #[trigger] seq_val(coeffs@)[j] == fmul(
                    linv@,
                    peval(seq_val(values@), fpow(winv@, j as nat)),
                ),
        decreases n - k,
    {
        let e = eval_poly(values, x);
        let v = linv.mul(e);
        let ghost prev = coeffs@;
        let ghost prev_x: nat = x@;
        coeffs.push(v);
        x = x.mul(winv);
        proof {
            assert(fpow(winv@, (k + 1) as nat) == fmul(winv@, fpow(winv@, k as nat)));
            assert(x@ == fmul(prev_x, winv@));
            assert forall|j: int|
                0 <= j < k + 1 implies #[trigger] seq_val(coeffs@)[j] == fmul(
                linv@,
                peval(seq_val(values@), fpow(winv@, j as nat)),
            ) by {
                assert(seq_val(coeffs@)[j] == coeffs@[j]@);
                if j < k {
                    assert(coeffs@[j] == prev[j]);
                    assert(seq_val(prev)[j] == prev[j]@);
                } else {
                    assert(coeffs@[j] == v);
                }
            }
        }
        k = k + 1;
    }
    coeffs
}

/// Converts a trace into its per-column interpolating polynomials.
pub struct TraceBuilder {}

impl TraceBuilder {
    /// Interpolates every column of the trace independently; interpolation
    /// of one column never reads another. A well-formed trace always
    /// interpolates successfully: there is no error path.
    pub fn build(trace: TraceTable) -> (r: TracePolyTable)
        requires
            trace.wf(),
        ensures
            r.wf(),
            r@.len() == trace@.len(),
            forall|c: int| 0 <= c < trace@.len() ==> #[trigger] r@[c] == interpolate_spec(
                trace@[c],
            ),
    {
        let ghost l: nat = trace@[0].len();
        proof {
            lemma_domain_size_divides(l);
        }
        let length = trace.length();
        let w = Felt::get_root_of_unity(length as u64);
        let winv = w.inv();
        let l_elem = Felt::new(length as u64);
        proof {
            lemma_small_mod(l, P as nat);
        }
        let linv = l_elem.inv();
        let width = trace.width();
        let mut polys: Vec<Vec<Felt>> = Vec::new();
        let mut c: usize = 0;
        while c < width
            invariant
                c <= width,
                width == trace@.len(),
                trace.wf(),
                l == trace@[0].len(),
                winv@ == finv(root_of_unity_spec(l)),
                linv@ == finv(l),
                polys@.len() == c,
                forall|j: int| 0 <= j < c ==> #[trigger] polys@[j]@.len() == l,
                forall|j: int|
                    0 <= j < c ==> #[trigger] seq_val(polys@[j]@) == interpolate_spec(trace@[j]),
            decreases width - c,
        {
            let col = trace.get_column(c);
            let coeffs = interpolate_column(col.as_slice(), winv, linv);
            let ghost prev = polys@;
            proof {
                assert(trace@[c as int].len() == l);
                assert(seq_val(coeffs@) =~= interpolate_spec(trace@[c as int]));
            }
            polys.push(coeffs);
            proof {
                assert forall|j: int|
                    0 <= j < c + 1 implies #[trigger] seq_val(polys@[j]@) == interpolate_spec(
                    trace@[j],
                ) by {
                    if j < c {
                        assert(polys@[j] == prev[j]);
                    }
                }
            }
            c = c + 1;
        }
        let r = TracePolyTable::new(polys);
        proof {
            assert forall|c2: int| 0 <= c2 < trace@.len() implies #[trigger] r@[c2]
                == interpolate_spec(trace@[c2]) by {
                assert(r@[c2] == seq_val(polys@[c2]@));
            }
        }
        r
    }
}

} // verus!
