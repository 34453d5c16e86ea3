use stark_trace::field::{Felt, ELEMENT_BYTES, GENERATOR, P};

#[test]
fn new_reduces_modulo_p() {
    assert_eq!(Felt::new(0).value(), 0);
    assert_eq!(Felt::new(P).value(), 0);
    assert_eq!(Felt::new(P + 5).value(), 5);
    assert_eq!(Felt::new(u64::MAX).value(), u64::MAX % P);
}

#[test]
fn constants() {
    assert_eq!(P, 3 * (1u64 << 30) + 1);
    assert_eq!(GENERATOR, 5);
    assert_eq!(ELEMENT_BYTES, 4);
    assert_eq!(Felt::zero().value(), 0);
    assert_eq!(Felt::one().value(), 1);
}

#[test]
fn add_wraps_at_modulus() {
    assert_eq!(Felt::new(7).add(Felt::new(9)).value(), 16);
    assert_eq!(Felt::new(P - 1).add(Felt::new(5)).value(), 4);
}

#[test]
fn sub_and_neg() {
    assert_eq!(Felt::new(9).sub(Felt::new(7)).value(), 2);
    assert_eq!(Felt::new(7).sub(Felt::new(9)).value(), P - 2);
    assert_eq!(Felt::new(5).neg().value(), 3221225468);
    assert_eq!(Felt::zero().neg().value(), 0);
}

#[test]
fn mul_reduces() {
    assert_eq!(Felt::new(7).mul(Felt::new(9)).value(), 63);
    let a = Felt::new(P - 1);
    // (-1) * (-1) == 1
    assert_eq!(a.mul(a).value(), 1);
}

#[test]
fn exp_concrete() {
    assert_eq!(Felt::new(5).exp(10).value(), 9765625);
    assert_eq!(Felt::new(5).exp(0).value(), 1);
    assert_eq!(Felt::new(0).exp(0).value(), 1);
    assert_eq!(Felt::new(0).exp(3).value(), 0);
}

#[test]
fn inv_is_multiplicative_inverse() {
    assert_eq!(Felt::new(2).inv().value(), 1610612737);
    for v in [1u64, 2, 3, 17, P - 1] {
        let a = Felt::new(v);
        assert_eq!(a.mul(a.inv()).value(), 1);
    }
}

#[test]
fn generator_annihilated_by_group_order() {
    assert_eq!(Felt::new(GENERATOR).exp(P - 1).value(), 1);
    assert_eq!(Felt::new(2).exp(P - 1).value(), 1);
    assert_eq!(Felt::new(GENERATOR).exp((P - 1) / 2).value(), P - 1);
}

#[test]
fn root_of_unity_has_exact_order() {
    let w = Felt::get_root_of_unity(4);
    assert_eq!(w.value(), 1013946479);
    assert_eq!(w.exp(4).value(), 1);
    assert_ne!(w.exp(2).value(), 1);
    let w8 = Felt::get_root_of_unity(8);
    assert_eq!(w8.value(), 1031213943);
    assert_eq!(w8.mul(w8).value(), w.value());
}
