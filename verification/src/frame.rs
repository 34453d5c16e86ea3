//! The evaluation frame: the trace values at an evaluation point `z`
//! ("current row") and at its one-step domain shift `z * g` ("next row").

use vstd::prelude::*;
use crate::field::Felt;

verus! {

/// Trace evaluations at a point and at its one-step shift. Both sequences
/// have one entry per trace column, in column order.
#[derive(Clone, Debug, PartialEq, Eq)]
pub struct EvaluationFrame {
    /// Evaluations of the column polynomials at the query point `z`.
    pub current: Vec<Felt>,
    /// Evaluations of the column polynomials at the shifted point `z * g`.
    pub next: Vec<Felt>,
}

impl EvaluationFrame {
    /// Whether the frame has one `current` and one `next` value per column
    /// of a trace of the given width.
    pub open spec fn is_consistent(self, width: nat) -> bool {
        self.current@.len() == width && self.next@.len() == width
    }

    /// Packs the two evaluation rows into a frame.
    pub fn new(current: Vec<Felt>, next: Vec<Felt>) -> (r: EvaluationFrame)
        ensures
            r.current@ == current@,
            r.next@ == next@,
    {
        EvaluationFrame { current, next }
    }
}

} // verus!
