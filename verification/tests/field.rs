use bls48581::bls48581::big;
use zkp::field::{CurveType, Scalar};

#[test]
fn test_zero_is_zero() {
    let z48 = Scalar::zero(CurveType::Bls48581);
    assert!(z48.is_zero());
    let z12 = Scalar::zero(CurveType::Bls12381);
    assert!(z12.is_zero());
}

#[test]
fn test_one_is_not_zero() {
    let o48 = Scalar::one(CurveType::Bls48581);
    assert!(!o48.is_zero());
    assert!(o48.is_one());
    let o12 = Scalar::one(CurveType::Bls12381);
    assert!(!o12.is_zero());
    assert!(o12.is_one());
}

#[test]
fn test_from_u64_roundtrip() {
    for &val in &[0u64, 1, 42, 1000, u64::MAX] {
        let s48 = Scalar::from_u64(val, CurveType::Bls48581);
        assert_eq!(s48.to_u64(), val, "BLS48-581 roundtrip failed for {}", val);

        let s12 = Scalar::from_u64(val, CurveType::Bls12381);
        assert_eq!(s12.to_u64(), val, "BLS12-381 roundtrip failed for {}", val);
    }
}

#[test]
fn test_add() {
    let a = Scalar::from_u64(10, CurveType::Bls48581);
    let b = Scalar::from_u64(20, CurveType::Bls48581);
    let c = a.add(&b);
    assert_eq!(c.to_u64(), 30);

    let a12 = Scalar::from_u64(10, CurveType::Bls12381);
    let b12 = Scalar::from_u64(20, CurveType::Bls12381);
    let c12 = a12.add(&b12);
    assert_eq!(c12.to_u64(), 30);
}

#[test]
fn test_sub() {
    let a = Scalar::from_u64(30, CurveType::Bls48581);
    let b = Scalar::from_u64(10, CurveType::Bls48581);
    let c = a.sub(&b);
    assert_eq!(c.to_u64(), 20);

    let a12 = Scalar::from_u64(30, CurveType::Bls12381);
    let b12 = Scalar::from_u64(10, CurveType::Bls12381);
    let c12 = a12.sub(&b12);
    assert_eq!(c12.to_u64(), 20);
}

#[test]
fn test_mul() {
    let a = Scalar::from_u64(6, CurveType::Bls48581);
    let b = Scalar::from_u64(7, CurveType::Bls48581);
    let c = a.mul(&b);
    assert_eq!(c.to_u64(), 42);

    let a12 = Scalar::from_u64(6, CurveType::Bls12381);
    let b12 = Scalar::from_u64(7, CurveType::Bls12381);
    let c12 = a12.mul(&b12);
    assert_eq!(c12.to_u64(), 42);
}

#[test]
fn test_neg_add_is_zero() {
    let a = Scalar::from_u64(42, CurveType::Bls48581);
    let neg_a = a.neg();
    let sum = a.add(&neg_a);
    assert!(sum.is_zero());

    let a12 = Scalar::from_u64(42, CurveType::Bls12381);
    let neg_a12 = a12.neg();
    let sum12 = a12.add(&neg_a12);
    assert!(sum12.is_zero());
}

#[test]
fn test_inverse() {
    let a48 = Scalar::from_u64(7, CurveType::Bls48581);
    let inv48 = a48.inverse();
    let prod48 = a48.mul(&inv48);
    assert!(prod48.is_one(), "BLS48-581: 7 * 7^-1 should be 1");

    let a12 = Scalar::from_u64(7, CurveType::Bls12381);
    let inv12 = a12.inverse();
    let prod12 = a12.mul(&inv12);
    assert!(prod12.is_one(), "BLS12-381: 7 * 7^-1 should be 1");
}

#[test]
fn test_inverse_large() {
    let a48 = Scalar::from_u64(123456789, CurveType::Bls48581);
    let inv48 = a48.inverse();
    let prod48 = a48.mul(&inv48);
    assert!(prod48.is_one());

    let a12 = Scalar::from_u64(123456789, CurveType::Bls12381);
    let inv12 = a12.inverse();
    let prod12 = a12.mul(&inv12);
    assert!(prod12.is_one());
}

#[test]
fn test_inverse_one() {
    let one48 = Scalar::one(CurveType::Bls48581);
    let inv48 = one48.inverse();
    assert!(inv48.is_one(), "1^-1 should be 1");

    let one12 = Scalar::one(CurveType::Bls12381);
    let inv12 = one12.inverse();
    assert!(inv12.is_one(), "1^-1 should be 1");
}

#[test]
fn test_curve_type() {
    let s48 = Scalar::zero(CurveType::Bls48581);
    assert_eq!(s48.curve_type(), CurveType::Bls48581);
    let s12 = Scalar::zero(CurveType::Bls12381);
    assert_eq!(s12.curve_type(), CurveType::Bls12381);
}

#[test]
fn test_byte_len() {
    let s48 = Scalar::zero(CurveType::Bls48581);
    assert_eq!(s48.byte_len(), big::MODBYTES);
    let s12 = Scalar::zero(CurveType::Bls12381);
    assert_eq!(s12.byte_len(), 32);
}
