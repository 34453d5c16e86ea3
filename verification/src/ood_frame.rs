//! The out-of-domain evaluation frame: a write-once container of three
//! canonical byte regions — the trace evaluations at the query point `z`,
//! at its domain shift `z * g`, and the constraint-composition evaluations
//! at `z`. The regions carry no length prefixes: a receiver must already
//! know the trace width and the number of evaluations from shared protocol
//! parameters, and supplies them at parse time.

use vstd::prelude::*;
use vstd::arithmetic::div_mod::lemma_div_by_multiple;
use crate::codec::{
    bytes_ok, decode_elems, decode_failure, elements_to_canonical_bytes, encode_elems,
    lemma_decode_encode, read_elements_into_vec,
};
use crate::errors::ProofSerializationError;
use crate::field::{Felt, P};
use crate::frame::EvaluationFrame;
use crate::polynom::seq_val;

verus! {

/// A write-once container of the three out-of-domain byte regions.
#[derive(Clone, Debug)]
pub struct OodFrame {
    trace_at_z1: Vec<u8>,
    trace_at_z2: Vec<u8>,
    evaluations: Vec<u8>,
    frame_set: bool,
    evaluations_set: bool,
}

impl OodFrame {
    /// The bytes of the trace evaluations at `z`.
    pub closed spec fn spec_trace_at_z1(self) -> Seq<u8> {
        self.trace_at_z1@
    }

    /// The bytes of the trace evaluations at `z * g`.
    pub closed spec fn spec_trace_at_z2(self) -> Seq<u8> {
        self.trace_at_z2@
    }

    /// The bytes of the constraint evaluations at `z`.
    pub closed spec fn spec_evaluations(self) -> Seq<u8> {
        self.evaluations@
    }

    /// Whether the trace regions have been populated.
    pub closed spec fn spec_frame_set(self) -> bool {
        self.frame_set
    }

    /// Whether the evaluations region has been populated.
    pub closed spec fn spec_evaluations_set(self) -> bool {
        self.evaluations_set
    }

    /// Whether both write-once slots have been populated.
    pub open spec fn is_full(self) -> bool {
        self.spec_frame_set() && self.spec_evaluations_set()
    }

    /// Whether parsing with the given parameters succeeds: every region is
    /// a well-formed encoding and decodes to exactly the expected number of
    /// elements.
    pub open spec fn parse_ok(self, trace_width: usize, num_evaluations: usize) -> bool {
        &&& bytes_ok(self.spec_trace_at_z1())
        &&& self.spec_trace_at_z1().len() / 4 == trace_width
        &&& bytes_ok(self.spec_trace_at_z2())
        &&& self.spec_trace_at_z2().len() / 4 == trace_width
        &&& bytes_ok(self.spec_evaluations())
        &&& self.spec_evaluations().len() / 4 == num_evaluations
    }

    /// The error parsing reports, region by region in serialization order:
    /// a decode failure first, then an element-count mismatch.
    pub open spec fn parse_error(self, trace_width: usize, num_evaluations: usize)
        -> ProofSerializationError {
        let z1 = self.spec_trace_at_z1();
        let z2 = self.spec_trace_at_z2();
        let ev = self.spec_evaluations();
        if !bytes_ok(z1) {
            ProofSerializationError::FailedToParseOodFrame(decode_failure(z1))
        } else if z1.len() / 4 != trace_width {
            ProofSerializationError::WrongNumberOfOodTraceElements(
                trace_width,
                (z1.len() / 4) as usize,
            )
        } else if !bytes_ok(z2) {
            ProofSerializationError::FailedToParseOodFrame(decode_failure(z2))
        } else if z2.len() / 4 != trace_width {
            ProofSerializationError::WrongNumberOfOodTraceElements(
                trace_width,
                (z2.len() / 4) as usize,
            )
        } else if !bytes_ok(ev) {
            ProofSerializationError::FailedToParseOodFrame(decode_failure(ev))
        } else {
            ProofSerializationError::WrongNumberOfOodEvaluationElements(
                num_evaluations,
                (ev.len() / 4) as usize,
            )
        }
    }

    /// Builds a fully populated frame by canonically encoding the provided
    /// evaluation frame and constraint evaluations.
    pub fn new(frame: EvaluationFrame, evaluations: Vec<Felt>) -> (r: OodFrame)
        ensures
            r.spec_trace_at_z1() == encode_elems(seq_val(frame.current@)),
            r.spec_trace_at_z2() == encode_elems(seq_val(frame.next@)),
            r.spec_evaluations() == encode_elems(seq_val(evaluations@)),
            r.is_full(),
    {
        OodFrame {
            trace_at_z1: elements_to_canonical_bytes(frame.current.as_slice()),
            trace_at_z2: elements_to_canonical_bytes(frame.next.as_slice()),
            evaluations: elements_to_canonical_bytes(evaluations.as_slice()),
            frame_set: true,
            evaluations_set: true,
        }
    }

    /// Rebuilds a frame from byte regions received with a proof; the
    /// reconstructed instance is regarded as fully populated.
    pub fn from_parts(trace_at_z1: Vec<u8>, trace_at_z2: Vec<u8>, evaluations: Vec<u8>) -> (r:
        OodFrame)
        ensures
            r.spec_trace_at_z1() == trace_at_z1@,
            r.spec_trace_at_z2() == trace_at_z2@,
            r.spec_evaluations() == evaluations@,
            r.is_full(),
    {
        OodFrame { trace_at_z1, trace_at_z2, evaluations, frame_set: true, evaluations_set: true }
    }

    /// Populates the trace regions from an evaluation frame. Write-once:
    /// callers must not have populated them before.
    pub fn set_evaluation_frame(&mut self, frame: &EvaluationFrame)
        requires
            !old(self).spec_frame_set(),
        ensures
            final(self).spec_trace_at_z1() == encode_elems(seq_val(frame.current@)),
            final(self).spec_trace_at_z2() == encode_elems(seq_val(frame.next@)),
            final(self).spec_evaluations() == old(self).spec_evaluations(),
            final(self).spec_frame_set(),
            final(self).spec_evaluations_set() == old(self).spec_evaluations_set(),
    {
        self.trace_at_z1 = elements_to_canonical_bytes(frame.current.as_slice());
        self.trace_at_z2 = elements_to_canonical_bytes(frame.next.as_slice());
        self.frame_set = true;
    }

    /// Populates the constraint-evaluations region. Write-once: callers
    /// must not have populated it before.
    pub fn set_constraint_evaluations(&mut self, evaluations: &[Felt])
        requires
            !old(self).spec_evaluations_set(),
        ensures
            final(self).spec_evaluations() == encode_elems(seq_val(evaluations@)),
            final(self).spec_trace_at_z1() == old(self).spec_trace_at_z1(),
            final(self).spec_trace_at_z2() == old(self).spec_trace_at_z2(),
            final(self).spec_evaluations_set(),
            final(self).spec_frame_set() == old(self).spec_frame_set(),
    {
        self.evaluations = elements_to_canonical_bytes(evaluations);
        self.evaluations_set = true;
    }

    /// Whether the trace regions have been populated.
    pub fn is_frame_set(&self) -> (r: bool)
        ensures
            r == self.spec_frame_set(),
    {
        self.frame_set
    }

    /// Whether the evaluations region has been populated.
    pub fn is_evaluations_set(&self) -> (r: bool)
        ensures
            r == self.spec_evaluations_set(),
    {
        self.evaluations_set
    }

    /// The raw bytes of the trace evaluations at `z`.
    pub fn trace_at_z1_bytes(&self) -> (r: &Vec<u8>)
        ensures
            r@ == self.spec_trace_at_z1(),
    {
        &self.trace_at_z1
    }

    /// The raw bytes of the trace evaluations at `z * g`.
    pub fn trace_at_z2_bytes(&self) -> (r: &Vec<u8>)
        ensures
            r@ == self.spec_trace_at_z2(),
    {
        &self.trace_at_z2
    }

    /// The raw bytes of the constraint evaluations.
    pub fn evaluations_bytes(&self) -> (r: &Vec<u8>)
        ensures
            r@ == self.spec_evaluations(),
    {
        &self.evaluations
    }

    /// Appends the three regions to `target` in their fixed order, with no
    /// length prefixes. Only a fully populated frame may be serialized.
    pub fn write_into(&self, target: &mut Vec<u8>)
        requires
            self.is_full(),
        ensures
            final(target)@ == old(target)@ + self.spec_trace_at_z1() + self.spec_trace_at_z2()
                + self.spec_evaluations(),
    {
        target.extend_from_slice(self.trace_at_z1.as_slice());
        target.extend_from_slice(self.trace_at_z2.as_slice());
        target.extend_from_slice(self.evaluations.as_slice());
    }

    /// Decodes the three regions back into an evaluation frame and a vector
    /// of constraint evaluations, holding each region's element count to the
    /// externally supplied protocol parameters.
    pub fn parse(self, trace_width: usize, num_evaluations: usize) -> (r: Result<
        (EvaluationFrame, Vec<Felt>),
        ProofSerializationError,
    >)
        ensures
            r is Ok <==> self.parse_ok(trace_width, num_evaluations),
            r is Ok ==> ({
                let (frame, evals) = r->Ok_0;
                &&& seq_val(frame.current@) == decode_elems(self.spec_trace_at_z1())
                &&& seq_val(frame.next@) == decode_elems(self.spec_trace_at_z2())
                &&& seq_val(evals@) == decode_elems(self.spec_evaluations())
                &&& frame.is_consistent(trace_width as nat)
                &&& evals@.len() == num_evaluations
            }),
            r is Err ==> r->Err_0 == self.parse_error(trace_width, num_evaluations),
    {
        let current = match read_elements_into_vec(self.trace_at_z1.as_slice()) {
            Ok(v) => v,
            Err(e) => {
                return Err(ProofSerializationError::FailedToParseOodFrame(e));
            },
        };
        if current.len() != trace_width {
            return Err(
                ProofSerializationError::WrongNumberOfOodTraceElements(trace_width, current.len()),
            );
        }
        let next = match read_elements_into_vec(self.trace_at_z2.as_slice()) {
            Ok(v) => v,
            Err(e) => {
                return Err(ProofSerializationError::FailedToParseOodFrame(e));
            },
        };
        if next.len() != trace_width {
            return Err(
                ProofSerializationError::WrongNumberOfOodTraceElements(trace_width, next.len()),
            );
        }
        let evals = match read_elements_into_vec(self.evaluations.as_slice()) {
            Ok(v) => v,
            Err(e) => {
                return Err(ProofSerializationError::FailedToParseOodFrame(e));
            },
        };
        if evals.len() != num_evaluations {
            return Err(
                ProofSerializationError::WrongNumberOfOodEvaluationElements(
                    num_evaluations,
                    evals.len(),
                ),
            );
        }
        Ok((EvaluationFrame { current, next }, evals))
    }
}

impl Default for OodFrame {
    /// The empty frame: no region populated, all regions empty.
    fn default() -> (r: OodFrame)
        ensures
            r.spec_trace_at_z1() == Seq::<u8>::empty(),
            r.spec_trace_at_z2() == Seq::<u8>::empty(),
            r.spec_evaluations() == Seq::<u8>::empty(),
            !r.spec_frame_set(),
            !r.spec_evaluations_set(),
    {
        OodFrame {
            trace_at_z1: Vec::new(),
            trace_at_z2: Vec::new(),
            evaluations: Vec::new(),
            frame_set: false,
            evaluations_set: false,
        }
    }
}

/// Round trip: a frame whose regions are the canonical encodings of `w`
/// current values, `w` next values and `n` constraint evaluations — as
/// `OodFrame::new` and the two write-once setters produce them — parses
/// successfully with parameters `(w, n)`, and the decoded representatives
/// are exactly the originals.
pub proof fn lemma_ood_roundtrip(
    f: OodFrame,
    current: Seq<nat>,
    next: Seq<nat>,
    evals: Seq<nat>,
    w: usize,
    n: usize,
)
    requires
        current.len() == w,
        next.len() == w,
        evals.len() == n,
        forall|j: int| 0 <= j < current.len() ==> current[j] < P as nat,
        forall|j: int| 0 <= j < next.len() ==> next[j] < P as nat,
        forall|j: int| 0 <= j < evals.len() ==> evals[j] < P as nat,
        f.spec_trace_at_z1() == encode_elems(current),
        f.spec_trace_at_z2() == encode_elems(next),
        f.spec_evaluations() == encode_elems(evals),
    ensures
        f.parse_ok(w, n),
        decode_elems(f.spec_trace_at_z1()) == current,
        decode_elems(f.spec_trace_at_z2()) == next,
        decode_elems(f.spec_evaluations()) == evals,
{
    lemma_decode_encode(current);
    lemma_decode_encode(next);
    lemma_decode_encode(evals);
    lemma_div_by_multiple(current.len() as int, 4);
    lemma_div_by_multiple(next.len() as int, 4);
    lemma_div_by_multiple(evals.len() as int, 4);
}

} // verus!
