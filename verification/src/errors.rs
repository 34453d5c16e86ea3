//! Errors surfaced while reconstructing an out-of-domain frame from its
//! serialized byte regions. All of them are deterministic input-shape
//! errors: a mismatch always signals a protocol-level inconsistency between
//! prover and verifier parameters, never a transient fault.

use vstd::prelude::*;
use crate::codec::DecodeError;

verus! {

/// Why parsing an out-of-domain frame failed.
#[derive(Clone, Copy, Debug, PartialEq, Eq, Structural)]
pub enum ProofSerializationError {
    /// A byte region could not be decoded into field elements; carries the
    /// underlying decode failure.
    FailedToParseOodFrame(DecodeError),
    /// A trace region decoded to the wrong number of elements:
    /// `(expected, actual)`.
    WrongNumberOfOodTraceElements(usize, usize),
    /// The evaluations region decoded to the wrong number of elements:
    /// `(expected, actual)`.
    WrongNumberOfOodEvaluationElements(usize, usize),
}

} // verus!
