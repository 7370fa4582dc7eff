use varbasemul::field::Fe;

/// The modulus minus one, little-endian.
const P_MINUS_ONE: [u64; 4] = [0x992d30ed00000000, 0x224698fc094cf91b, 0, 0x4000000000000000];

#[test]
fn add_sub_mul_small() {
    let two = Fe::from_u64(2);
    let three = Fe::from_u64(3);
    assert_eq!(two.add(&three), Fe::from_u64(5));
    assert_eq!(three.sub(&two), Fe::one());
    assert_eq!(two.mul(&three), Fe::from_u64(6));
    assert_eq!(three.square(), Fe::from_u64(9));
    assert_eq!(three.double(), Fe::from_u64(6));
}

#[test]
fn subtraction_wraps_around_the_modulus() {
    let minus_one = Fe::zero().sub(&Fe::one());
    assert_eq!(minus_one.limbs(), P_MINUS_ONE);
    assert_eq!(Fe::one().neg(), minus_one);
    assert_eq!(minus_one.add(&Fe::one()), Fe::zero());
    assert_eq!(minus_one.mul(&minus_one), Fe::one());
}

#[test]
fn division() {
    let six = Fe::from_u64(6);
    let three = Fe::from_u64(3);
    assert_eq!(six.div(&three), Fe::from_u64(2));
    let third = Fe::one().div(&three);
    assert_eq!(third.mul(&three), Fe::one());
    // 1/2 is (p + 1) / 2
    let half = Fe::one().div(&Fe::from_u64(2));
    assert_eq!(half.double(), Fe::one());
    assert_ne!(half, Fe::one());
}

#[test]
fn limbs_round_trip_and_range() {
    let x = Fe::from_limbs([1, 2, 3, 4]).unwrap();
    assert_eq!(x.limbs(), [1, 2, 3, 4]);
    assert!(Fe::from_limbs(P_MINUS_ONE).is_some());
    let mut p = P_MINUS_ONE;
    p[0] += 1;
    assert!(Fe::from_limbs(p).is_none());
    assert!(Fe::from_limbs([0, 0, 0, u64::MAX]).is_none());
}

#[test]
fn zero_and_bools() {
    assert!(Fe::zero().is_zero());
    assert!(!Fe::one().is_zero());
    assert_eq!(Fe::from_bool(true), Fe::one());
    assert_eq!(Fe::from_bool(false), Fe::zero());
}

#[test]
fn invertibility() {
    assert!(!Fe::zero().is_invertible());
    assert!(Fe::one().is_invertible());
    assert!(Fe::one().neg().is_invertible());
    assert!(Fe::from_u64(12345).is_invertible());
}
