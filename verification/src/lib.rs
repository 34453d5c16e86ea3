//! Trace-algebra core for a STARK-style prover: interpolation of an execution
//! trace into column polynomials, their low-degree extension over a larger
//! evaluation domain, and the canonical out-of-domain evaluation frame that
//! carries trace and constraint evaluations across the prover/verifier
//! boundary.

pub mod codec;
pub mod errors;
pub mod field;
pub mod frame;
pub mod interpolation;
pub mod ood_frame;
pub mod poly_table;
pub mod polynom;
pub mod trace_builder;
pub mod trace_lde;
pub mod trace_table;

pub use errors::ProofSerializationError;
pub use field::Felt;
pub use frame::EvaluationFrame;
pub use ood_frame::OodFrame;
pub use poly_table::TracePolyTable;
pub use trace_builder::TraceBuilder;
pub use trace_lde::TraceLde;
pub use trace_table::TraceTable;
