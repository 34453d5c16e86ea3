//! The raw execution trace: a rectangular matrix of field elements, stored
//! column by column. Rows are execution steps, columns are registers. The
//! number of rows is a power of two, as interpolation over a
//! multiplicative subgroup demands.

use vstd::prelude::*;
use crate::field::{domain_size_ok, Felt};
use crate::polynom::seq_val;

verus! {

/// An execution trace, stored as `width` columns of `length` rows each.
#[derive(Clone, Debug)]
pub struct TraceTable {
    columns: Vec<Vec<Felt>>,
}

impl View for TraceTable {
    type V = Seq<Seq<nat>>;

    /// The trace as a sequence of columns of canonical representatives.
    closed spec fn view(&self) -> Seq<Seq<nat>> {
        self.columns@.map_values(|c: Vec<Felt>| seq_val(c@))
    }
}

impl TraceTable {
    /// Well-formedness: at least one register, every column of the same
    /// length, and that length an admissible power-of-two domain size.
    pub open spec fn wf(self) -> bool {
        &&& self@.len() >= 1
        &&& forall|c: int| 0 <= c < self@.len() ==> #[trigger] self@[c].len() == self@[0].len()
        &&& domain_size_ok(self@[0].len())
    }

    /// Builds a trace from its columns. Malformed input — ragged columns or
    /// a length that is not an admissible power of two — is a caller
    /// contract violation, not a runtime error.
    pub fn new(columns: Vec<Vec<Felt>>) -> (r: TraceTable)
        requires
            columns@.len() >= 1,
            forall|c: int|
                0 <= c < columns@.len() ==> #[trigger] columns@[c]@.len() == columns@[0]@.len(),
            domain_size_ok(columns@[0]@.len()),
        ensures
            r.wf(),
            r@.len() == columns@.len(),
            forall|c: int| 0 <= c < columns@.len() ==> r@[c] == seq_val(columns@[c]@),
    {
        TraceTable { columns }
    }

    /// The number of registers (columns).
    pub fn width(&self) -> (r: usize)
        ensures
            r == self@.len(),
    {
        self.columns.len()
    }

    /// The number of steps (rows).
    pub fn length(&self) -> (r: usize)
        requires
            self.wf(),
        ensures
            r == self@[0].len(),
    {
        self.columns[0].len()
    }

    /// One column of the trace.
    pub fn get_column(&self, idx: usize) -> (r: &Vec<Felt>)
        requires
            idx < self@.len(),
        ensures
            seq_val(r@) == self@[idx as int],
    {
        &self.columns[idx]
    }

    /// The value of register `col` at step `row`.
    pub fn get(&self, col: usize, row: usize) -> (r: Felt)
        requires
            col < self@.len(),
            row < self@[col as int].len(),
        ensures
            r@ == self@[col as int][row as int],
    {
        self.columns[col][row]
    }
}

} // verus!
