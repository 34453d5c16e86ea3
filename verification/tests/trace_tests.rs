use stark_trace::field::Felt;
use stark_trace::ood_frame::OodFrame;
use stark_trace::poly_table::TracePolyTable;
use stark_trace::trace_builder::TraceBuilder;
use stark_trace::trace_lde::TraceLde;
use stark_trace::trace_table::TraceTable;

fn felts(values: &[u64]) -> Vec<Felt> {
    values.iter().map(|&v| Felt::new(v)).collect()
}

fn sample_trace() -> TraceTable {
    TraceTable::new(vec![felts(&[1, 2, 3, 4]), felts(&[5, 6, 7, 8])])
}

#[test]
fn trace_table_shape() {
    let trace = sample_trace();
    assert_eq!(trace.width(), 2);
    assert_eq!(trace.length(), 4);
    assert_eq!(trace.get(0, 2).value(), 3);
    assert_eq!(trace.get(1, 0).value(), 5);
}

#[test]
fn interpolation_concrete_coefficients() {
    let polys = TraceBuilder::build(sample_trace());
    assert_eq!(polys.num_polys(), 2);
    assert_eq!(polys.poly_size(), 4);
    assert_eq!(
        polys.get_poly(0),
        &felts(&[1610612739, 506973239, 1610612736, 2714252233])
    );
    assert_eq!(
        polys.get_poly(1),
        &felts(&[1610612743, 506973239, 1610612736, 2714252233])
    );
}

#[test]
fn interpolation_reproduces_trace_at_domain_points() {
    let trace = sample_trace();
    let polys = TraceBuilder::build(sample_trace());
    let g = Felt::get_root_of_unity(4);
    for row in 0..4 {
        let point = g.exp(row as u64);
        let values = polys.evaluate_at(point);
        for col in 0..2 {
            assert_eq!(values[col], trace.get(col, row));
        }
    }
}

#[test]
fn interpolation_reproduces_longer_column() {
    let column = felts(&[3, 1, 4, 1, 5, 9, 2, 6]);
    let trace = TraceTable::new(vec![column.clone()]);
    let polys = TraceBuilder::build(trace);
    let g = Felt::get_root_of_unity(8);
    for row in 0..8 {
        let values = polys.evaluate_at(g.exp(row as u64));
        assert_eq!(values[0], column[row]);
    }
}

#[test]
fn evaluation_frame_matches_componentwise_evaluation() {
    let polys = TraceBuilder::build(sample_trace());
    let g = Felt::get_root_of_unity(4);
    let z = Felt::new(123456789);
    let frame = polys.get_evaluation_frame(z, g);
    assert_eq!(frame.current, polys.evaluate_at(z));
    assert_eq!(frame.next, polys.evaluate_at(z.mul(g)));
    assert_eq!(frame.current, felts(&[2715154844, 2715154848]));
    assert_eq!(frame.next, felts(&[2843654445, 2843654449]));
}

#[test]
fn lde_extends_over_blowup_domain() {
    let polys = TraceBuilder::build(sample_trace());
    let lde = TraceLde::new(polys, 4);
    assert_eq!(lde.num_columns(), 2);
    assert_eq!(lde.blowup_factor(), 4);
    assert_eq!(lde.domain_len(), 16);
    // Every blowup-th point of the extended domain is a trace-domain
    // point, so the original trace values reappear there.
    let trace = sample_trace();
    for col in 0..2 {
        let extended = lde.get_column(col);
        assert_eq!(extended.len(), 16);
        for row in 0..4 {
            assert_eq!(extended[row * 4], trace.get(col, row));
        }
    }
}

#[test]
fn lde_answers_arbitrary_point_queries() {
    let polys = TraceBuilder::build(sample_trace());
    let expected = polys.evaluate_at(Felt::new(987654321));
    let lde = TraceLde::new(polys, 2);
    assert_eq!(lde.evaluate_at(Felt::new(987654321)), expected);
    let g = Felt::get_root_of_unity(4);
    let z = Felt::new(123456789);
    let frame = lde.get_evaluation_frame(z, g);
    assert_eq!(frame.current, felts(&[2715154844, 2715154848]));
    assert_eq!(frame.next, felts(&[2843654445, 2843654449]));
}

#[test]
fn end_to_end_prove_side_pipeline() {
    // Trace of width 2 and length 4, extended and carried through the
    // out-of-domain frame, then parsed back with the shared parameters.
    let trace = sample_trace();
    let polys = TraceBuilder::build(trace);
    let g = Felt::get_root_of_unity(4);

    // A domain-point check: at the first domain point (g^0 == 1) the
    // columns take their first-row values.
    let at_first = polys.evaluate_at(Felt::new(1));
    assert_eq!(at_first, felts(&[1, 5]));

    // Frame at an out-of-domain point, with three constraint evaluations.
    let z = Felt::new(123456789);
    let frame = polys.get_evaluation_frame(z, g);
    let evals = felts(&[100, 200, 300]);
    let ood = OodFrame::new(frame.clone(), evals.clone());
    let mut proof_bytes: Vec<u8> = Vec::new();
    ood.write_into(&mut proof_bytes);
    assert_eq!(proof_bytes.len(), 4 * (2 + 2 + 3));

    // Verifier side: split with the known trace width and evaluation
    // count, reconstruct, and parse.
    let received = OodFrame::from_parts(
        proof_bytes[0..8].to_vec(),
        proof_bytes[8..16].to_vec(),
        proof_bytes[16..28].to_vec(),
    );
    let (parsed_frame, parsed_evals) = received.parse(2, 3).unwrap();
    assert_eq!(parsed_frame, frame);
    assert_eq!(parsed_evals, evals);
}

#[test]
fn poly_table_from_columns() {
    let polys = TracePolyTable::new(vec![felts(&[7, 0, 0, 0])]);
    // A constant polynomial evaluates to its constant everywhere.
    assert_eq!(polys.evaluate_at(Felt::new(424242))[0], Felt::new(7));
    assert_eq!(polys.num_polys(), 1);
    assert_eq!(polys.poly_size(), 4);
}
