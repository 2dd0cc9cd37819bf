use miden_vm::field::Felt;
use miden_vm::field::FELT_MODULUS;

#[test]
fn felt_new_reduces_modulo_the_prime() {
    assert_eq!(Felt::new(FELT_MODULUS).as_u64(), 0);
    assert_eq!(Felt::new(FELT_MODULUS + 5).as_u64(), 5);
    assert_eq!(Felt::new(3).as_u64(), 3);
}

#[test]
fn felt_add_wraps_at_the_prime() {
    let a = Felt::new(FELT_MODULUS - 1);
    let b = Felt::new(2);
    assert_eq!(a.add(b).as_u64(), 1);
    assert_eq!(Felt::new(3).add(Felt::new(4)).as_u64(), 7);
}

#[test]
fn felt_mul_wraps_at_the_prime() {
    assert_eq!(Felt::new(5).mul(Felt::new(3)).as_u64(), 15);
    let a = Felt::new(FELT_MODULUS - 1);
    // (p - 1) * (p - 1) = p^2 - 2p + 1, which is 1 modulo p.
    assert_eq!(a.mul(a).as_u64(), 1);
}

#[test]
fn felt_neg_is_the_additive_inverse() {
    let a = Felt::new(123456);
    assert_eq!(a.add(a.neg()).as_u64(), 0);
    assert_eq!(Felt::new(0).neg().as_u64(), 0);
    assert_eq!(Felt::new(1).neg().as_u64(), FELT_MODULUS - 1);
}

#[test]
fn felt_inv_is_the_multiplicative_inverse() {
    for v in [1u64, 2, 3, 7, 1 << 20, FELT_MODULUS - 1] {
        let a = Felt::new(v);
        assert_eq!(a.mul(a.inv()).as_u64(), 1, "inverse failed for {v}");
    }
    assert_eq!(Felt::new(0).inv().as_u64(), 0);
}

#[test]
fn felt_predicates() {
    assert!(Felt::new(0).is_zero());
    assert!(Felt::new(1).is_one());
    assert!(!Felt::new(2).is_zero());
    assert!(!Felt::new(2).is_one());
    assert_eq!(Felt::zero(), Felt::new(0));
    assert_eq!(Felt::one(), Felt::new(1));
}
