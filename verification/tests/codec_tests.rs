use stark_trace::codec::{elements_to_canonical_bytes, read_elements_into_vec, DecodeError};
use stark_trace::field::{Felt, P};

#[test]
fn encode_is_little_endian_fixed_width() {
    let elems = vec![Felt::new(1), Felt::new(0x01020304)];
    let bytes = elements_to_canonical_bytes(&elems);
    assert_eq!(bytes, vec![1, 0, 0, 0, 4, 3, 2, 1]);
}

#[test]
fn encode_empty_is_empty() {
    let bytes = elements_to_canonical_bytes(&[]);
    assert!(bytes.is_empty());
}

#[test]
fn decode_recovers_elements() {
    let elems = vec![Felt::new(0), Felt::new(1), Felt::new(P - 1), Felt::new(123456789)];
    let bytes = elements_to_canonical_bytes(&elems);
    let back = read_elements_into_vec(&bytes).unwrap();
    assert_eq!(back, elems);
}

#[test]
fn decode_empty_is_empty() {
    let back = read_elements_into_vec(&[]).unwrap();
    assert!(back.is_empty());
}

#[test]
fn decode_rejects_partial_group() {
    let elems = vec![Felt::new(7), Felt::new(8)];
    let mut bytes = elements_to_canonical_bytes(&elems);
    bytes.pop();
    assert_eq!(read_elements_into_vec(&bytes), Err(DecodeError::InvalidLength));
}

#[test]
fn decode_rejects_non_canonical_group() {
    // 0xFFFFFFFF is P or above, so it is not a reduced representative.
    let bytes = vec![0xFF, 0xFF, 0xFF, 0xFF];
    assert_eq!(read_elements_into_vec(&bytes), Err(DecodeError::NonCanonical));
    // P itself is the smallest non-canonical value.
    let p_bytes = (P as u32).to_le_bytes().to_vec();
    assert_eq!(read_elements_into_vec(&p_bytes), Err(DecodeError::NonCanonical));
    // P - 1 is canonical.
    let ok_bytes = ((P - 1) as u32).to_le_bytes().to_vec();
    assert_eq!(read_elements_into_vec(&ok_bytes).unwrap(), vec![Felt::new(P - 1)]);
}

#[test]
fn encode_then_decode_round_trips_many_values() {
    let elems: Vec<Felt> = (0..50u64).map(|i| Felt::new(i * i * 7919 + 13)).collect();
    let bytes = elements_to_canonical_bytes(&elems);
    assert_eq!(bytes.len(), 4 * elems.len());
    let back = read_elements_into_vec(&bytes).unwrap();
    assert_eq!(back, elems);
}
