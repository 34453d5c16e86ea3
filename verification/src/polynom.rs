//! Polynomials over the trace field, represented by their coefficient
//! sequences (lowest degree first), and their evaluation at a point.

use vstd::prelude::*;
use crate::field::{fadd, fmul, Felt};

verus! {

/// The sequence of canonical representatives carried by a sequence of
/// field elements.
pub open spec fn seq_val(s: Seq<Felt>) -> Seq<nat> {
    s.map_values(|f: Felt| f@)
}

/// Evaluation of the polynomial with coefficients `c` (lowest degree first)
/// at the point `x`, in the field: `c[0] + x * (c[1] + x * (...))`.
pub open spec fn peval(c: Seq<nat>, x: nat) -> nat
    decreases c.len(),
{
    if c.len() == 0 {
        0
    } else {
        fadd(c[0], fmul(x, peval(c.subrange(1, c.len() as int), x)))
    }
}

/// Horner evaluation of a polynomial at a point.
pub fn eval_poly(coeffs: &[Felt], x: Felt) -> (r: Felt)
    ensures
        r@ == peval(seq_val(coeffs@), x@),
{
    let mut acc = Felt::zero();
    let mut i: usize = coeffs.len();
    while i > 0
        invariant
            i <= coeffs.len(),
            acc@ == peval(seq_val(coeffs@).subrange(i as int, coeffs@.len() as int), x@),
        decreases i,
    {
        i = i - 1;
        let ghost tail: Seq<nat> = seq_val(coeffs@).subrange(i + 1, coeffs@.len() as int);
        acc = acc.mul(x).add(coeffs[i]);
        proof {
            let s = seq_val(coeffs@).subrange(i as int, coeffs@.len() as int);
            assert(s[0] == seq_val(coeffs@)[i as int]);
            assert(s.subrange(1, s.len() as int) =~= tail);
        }
    }
    proof {
        assert(seq_val(coeffs@).subrange(0, coeffs@.len() as int) =~= seq_val(coeffs@));
    }
    acc
}

} // verus!
