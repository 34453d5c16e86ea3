use stark_trace::codec::DecodeError;
use stark_trace::errors::ProofSerializationError;
use stark_trace::field::Felt;
use stark_trace::frame::EvaluationFrame;
use stark_trace::ood_frame::OodFrame;

fn felts(values: &[u64]) -> Vec<Felt> {
    values.iter().map(|&v| Felt::new(v)).collect()
}

fn sample_frame() -> EvaluationFrame {
    EvaluationFrame::new(felts(&[11, 22]), felts(&[33, 44]))
}

fn sample_evals() -> Vec<Felt> {
    felts(&[55, 66, 77])
}

#[test]
fn round_trip_through_serialization() {
    let ood = OodFrame::new(sample_frame(), sample_evals());
    let mut buffer: Vec<u8> = Vec::new();
    ood.write_into(&mut buffer);
    // Region boundaries are known only from the protocol parameters:
    // trace_width = 2, num_evaluations = 3, four bytes per element.
    assert_eq!(buffer.len(), 4 * (2 + 2 + 3));
    let z1 = buffer[0..8].to_vec();
    let z2 = buffer[8..16].to_vec();
    let ev = buffer[16..28].to_vec();
    let received = OodFrame::from_parts(z1, z2, ev);
    let (frame, evals) = received.parse(2, 3).unwrap();
    assert_eq!(frame, sample_frame());
    assert_eq!(evals, sample_evals());
}

#[test]
fn parse_after_new_round_trips() {
    let ood = OodFrame::new(sample_frame(), sample_evals());
    let (frame, evals) = ood.parse(2, 3).unwrap();
    assert_eq!(frame, sample_frame());
    assert_eq!(evals, sample_evals());
}

#[test]
fn incremental_population_matches_new() {
    let mut ood = OodFrame::default();
    assert!(!ood.is_frame_set());
    assert!(!ood.is_evaluations_set());
    ood.set_evaluation_frame(&sample_frame());
    assert!(ood.is_frame_set());
    assert!(!ood.is_evaluations_set());
    let evals = sample_evals();
    ood.set_constraint_evaluations(&evals);
    assert!(ood.is_evaluations_set());
    let direct = OodFrame::new(sample_frame(), sample_evals());
    assert_eq!(ood.trace_at_z1_bytes(), direct.trace_at_z1_bytes());
    assert_eq!(ood.trace_at_z2_bytes(), direct.trace_at_z2_bytes());
    assert_eq!(ood.evaluations_bytes(), direct.evaluations_bytes());
}

#[test]
fn population_order_commutes() {
    let mut a = OodFrame::default();
    a.set_evaluation_frame(&sample_frame());
    let evals = sample_evals();
    a.set_constraint_evaluations(&evals);
    let mut b = OodFrame::default();
    b.set_constraint_evaluations(&evals);
    b.set_evaluation_frame(&sample_frame());
    assert_eq!(a.trace_at_z1_bytes(), b.trace_at_z1_bytes());
    assert_eq!(a.trace_at_z2_bytes(), b.trace_at_z2_bytes());
    assert_eq!(a.evaluations_bytes(), b.evaluations_bytes());
}

#[test]
fn setters_are_write_once() {
    // Populating marks the slot; a populated slot must never be written
    // again (the setters' contracts demand an unpopulated slot).
    let mut ood = OodFrame::default();
    ood.set_evaluation_frame(&sample_frame());
    assert!(ood.is_frame_set());
    let evals = sample_evals();
    ood.set_constraint_evaluations(&evals);
    assert!(ood.is_evaluations_set());
    // The regions still hold the first write's bytes.
    let direct = OodFrame::new(sample_frame(), sample_evals());
    assert_eq!(ood.trace_at_z1_bytes(), direct.trace_at_z1_bytes());
    assert_eq!(ood.evaluations_bytes(), direct.evaluations_bytes());
}

#[test]
fn parse_detects_width_too_small() {
    let ood = OodFrame::new(sample_frame(), sample_evals());
    let err = ood.parse(1, 3).unwrap_err();
    assert_eq!(err, ProofSerializationError::WrongNumberOfOodTraceElements(1, 2));
}

#[test]
fn parse_detects_width_too_large() {
    let ood = OodFrame::new(sample_frame(), sample_evals());
    let err = ood.parse(5, 3).unwrap_err();
    assert_eq!(err, ProofSerializationError::WrongNumberOfOodTraceElements(5, 2));
}

#[test]
fn parse_detects_wrong_evaluation_count() {
    let ood = OodFrame::new(sample_frame(), sample_evals());
    let err = ood.parse(2, 4).unwrap_err();
    assert_eq!(err, ProofSerializationError::WrongNumberOfOodEvaluationElements(4, 3));
    let ood = OodFrame::new(sample_frame(), sample_evals());
    let err = ood.parse(2, 2).unwrap_err();
    assert_eq!(err, ProofSerializationError::WrongNumberOfOodEvaluationElements(2, 3));
}

#[test]
fn parse_detects_truncated_region() {
    let ood = OodFrame::new(sample_frame(), sample_evals());
    let mut z1 = ood.trace_at_z1_bytes().clone();
    let z2 = ood.trace_at_z2_bytes().clone();
    let ev = ood.evaluations_bytes().clone();
    // Truncate so the region length is no longer a multiple of the
    // element size.
    z1.pop();
    let broken = OodFrame::from_parts(z1, z2, ev);
    let err = broken.parse(2, 3).unwrap_err();
    assert_eq!(
        err,
        ProofSerializationError::FailedToParseOodFrame(DecodeError::InvalidLength)
    );
}

#[test]
fn parse_detects_non_canonical_region() {
    let ood = OodFrame::new(sample_frame(), sample_evals());
    let z1 = ood.trace_at_z1_bytes().clone();
    let z2 = ood.trace_at_z2_bytes().clone();
    let ev = vec![0xFF, 0xFF, 0xFF, 0xFF, 0, 0, 0, 0, 0, 0, 0, 0];
    let broken = OodFrame::from_parts(z1, z2, ev);
    let err = broken.parse(2, 3).unwrap_err();
    assert_eq!(
        err,
        ProofSerializationError::FailedToParseOodFrame(DecodeError::NonCanonical)
    );
}

#[test]
fn empty_frame_parses_only_with_zero_parameters() {
    let ood = OodFrame::default();
    let (frame, evals) = ood.parse(0, 0).unwrap();
    assert!(frame.current.is_empty());
    assert!(frame.next.is_empty());
    assert!(evals.is_empty());
    let ood = OodFrame::default();
    let err = ood.parse(1, 0).unwrap_err();
    assert_eq!(err, ProofSerializationError::WrongNumberOfOodTraceElements(1, 0));
}
