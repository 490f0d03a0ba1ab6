use zkp::bls12::Fr;
use zkp::field::{CurveType, Scalar};
use zkp::poly_arith::{poly_add, poly_mul, poly_scalar_mul, poly_shift, poly_sub};

const ORDER_581: &str = "2386f8a925e2885e233a9ccc1615c0d6c635387a3f0b3cbe003fad6bc972c2e6e741969d34c4c92016a85c7cd0562303c4ccbe599467c24da118a5fe6fcd671c01";

const ORDER_381: &str = "73eda753299d7d483339d80809a1d80553bda402fffe5bfeffffffff00000001";

const CURVES: [CurveType; 2] = [CurveType::Bls48581, CurveType::Bls12381];

fn unhex(s: &str) -> Vec<u8> {
    (0..s.len() / 2).map(|i| u8::from_str_radix(&s[2 * i..2 * i + 2], 16).unwrap()).collect()
}

fn order_bytes(curve: CurveType) -> Vec<u8> {
    match curve {
        CurveType::Bls48581 => {
            let digits = unhex(ORDER_581);
            let mut b = vec![0; 73 - digits.len()];
            b.extend(digits);
            b
        },
        CurveType::Bls12381 => unhex(ORDER_381),
    }
}

/// The bytes of a scalar in the order in which `from_bytes` reads them.
fn in_reading_order(mut written: Vec<u8>, curve: CurveType) -> Vec<u8> {
    if curve == CurveType::Bls12381 {
        written.reverse();
    }
    written
}

fn small(x: u64, curve: CurveType) -> Scalar {
    Scalar::from_u64(x, curve)
}

fn list(xs: &[u64], curve: CurveType) -> Vec<Scalar> {
    xs.iter().map(|x| small(*x, curve)).collect()
}

fn numbers(xs: &[Scalar]) -> Vec<u64> {
    xs.iter().map(|x| x.to_u64()).collect()
}

#[test]
fn minus_one_is_one_below_the_order() {
    for curve in CURVES {
        let one = Scalar::one(curve);
        let mut want = order_bytes(curve);
        *want.last_mut().unwrap() -= 1;
        assert_eq!(one.neg().to_bytes(), want);
        assert_eq!(Scalar::zero(curve).sub(&one).to_bytes(), want);
        assert!(one.neg().add(&one).is_zero());
        assert!(one.neg().mul(&one.neg()).is_one());
    }
}

#[test]
fn negated_zero_is_the_order_on_bls48581_and_zero_on_bls12381() {
    let mut n = Scalar::zero(CurveType::Bls48581).neg();
    assert_eq!(n.to_bytes(), order_bytes(CurveType::Bls48581));
    assert!(!n.is_zero());
    assert!(n.add(&Scalar::zero(CurveType::Bls48581)).is_zero());
    assert!(n.inverse().is_zero());
    n.reduce();
    assert!(n.is_zero());
    assert!(Scalar::zero(CurveType::Bls12381).neg().is_zero());
}

#[test]
fn bytes_are_big_endian() {
    for curve in CURVES {
        let s = small(0x0102, curve).to_bytes();
        let n = Scalar::byte_len_for_curve(curve);
        assert_eq!(s.len(), n);
        assert_eq!(&s[n - 2..], &[1, 2]);
        assert!(s[..n - 2].iter().all(|b| *b == 0));
    }
}

#[test]
fn bytes_round_trip() {
    for curve in CURVES {
        let x = small(u64::MAX, curve).mul(&small(u64::MAX, curve)).neg();
        let b = x.to_bytes();
        let read = in_reading_order(b.clone(), curve);
        assert_eq!(Scalar::from_bytes(&read, curve).to_bytes(), b);
        assert_eq!(b.len(), Scalar::byte_len_for_curve(curve));
        assert_eq!(b.len(), x.byte_len());
    }
}

#[test]
fn short_and_long_byte_strings() {
    assert!(Scalar::from_bytes(&[], CurveType::Bls48581).is_zero());
    assert!(Scalar::from_bytes(&[], CurveType::Bls12381).is_zero());
    assert_eq!(Scalar::from_bytes(&[1, 2], CurveType::Bls48581).to_u64(), 0x0102);
    assert_eq!(Scalar::from_bytes(&[1, 2], CurveType::Bls12381).to_u64(), 0x0201);
    let mut long = vec![0u8; 73];
    long[72] = 9;
    long.push(77);
    assert_eq!(Scalar::from_bytes(&long, CurveType::Bls48581).to_u64(), 9);
    let mut long = vec![0u8; 40];
    long[0] = 9;
    long[32] = 77;
    assert_eq!(Scalar::from_bytes(&long, CurveType::Bls12381).to_u64(), 9);
}

#[test]
fn bytes_of_the_order() {
    let mut x = Scalar::from_bytes(&order_bytes(CurveType::Bls48581), CurveType::Bls48581);
    assert!(!x.is_zero());
    assert!(x.add(&Scalar::zero(CurveType::Bls48581)).is_zero());
    assert!(x.inverse().is_zero());
    x.reduce();
    assert!(x.is_zero());
    let read = in_reading_order(order_bytes(CurveType::Bls12381), CurveType::Bls12381);
    assert!(Scalar::from_bytes(&read, CurveType::Bls12381).is_zero());
}

#[test]
fn challenges_are_reduced() {
    let x = Scalar::from_challenge_bytes(&[0xff; 32], CurveType::Bls48581);
    assert_eq!(&x.to_bytes()[41..], &[0xff; 32]);
    let x = Scalar::from_challenge_bytes(&[0xff; 32], CurveType::Bls12381);
    let twice = unhex("1824b159acc5056f998c4fefecbc4ff55884b7fa0003480200000001fffffffd");
    assert_eq!(x.to_bytes(), twice);
}

#[test]
fn low_bits_of_a_large_scalar() {
    for curve in CURVES {
        let x = small(1 << 63, curve);
        assert_eq!(x.add(&x).add(&small(5, curve)).to_u64(), 5);
    }
}

#[test]
fn inverses_of_large_scalars() {
    for curve in CURVES {
        let x = small(u64::MAX, curve).mul(&small(0x1234_5678_9abc_def1, curve)).neg();
        let y = x.inverse();
        assert_ne!(y.to_bytes(), x.to_bytes());
        assert!(x.mul(&y).is_one());
    }
}

#[test]
fn reduction_of_a_number_above_the_order() {
    let mut above = order_bytes(CurveType::Bls48581);
    above[72] += 6;
    let mut x = Scalar::from_bytes(&above, CurveType::Bls48581);
    assert_eq!(x.to_bytes(), above);
    x.reduce();
    assert_eq!(x.to_u64(), 6);
    assert_eq!(&x.to_bytes()[..65], &[0; 65]);
    let mut y = small(6, CurveType::Bls12381);
    y.reduce();
    assert_eq!(y.to_u64(), 6);
}

#[test]
fn limb_scalars_agree_with_scalars() {
    let x = Fr::from_u64(7);
    assert!(!x.is_zero());
    assert!(Fr::from_u64(1).is_one());
    assert!(x.sub_mod(&x).is_zero());
    assert!(x.mul_mod(&x.inv_mod()).is_one());
}

#[test]
fn sums_and_products_obey_the_ring_laws() {
    for curve in CURVES {
        let (x, y, z) = (small(u64::MAX, curve).neg(), small(3, curve), small(11, curve).neg());
        assert_eq!(x.add(&y).to_bytes(), y.add(&x).to_bytes());
        assert_eq!(x.add(&y).add(&z).to_bytes(), x.add(&y.add(&z)).to_bytes());
        assert_eq!(x.mul(&y).to_bytes(), y.mul(&x).to_bytes());
        assert_eq!(x.mul(&y).mul(&z).to_bytes(), x.mul(&y.mul(&z)).to_bytes());
        assert_eq!(x.mul(&y.add(&z)).to_bytes(), x.mul(&y).add(&x.mul(&z)).to_bytes());
        assert_eq!(x.sub(&y).to_bytes(), x.add(&y.neg()).to_bytes());
    }
}

#[test]
fn polynomials_by_hand() {
    for curve in CURVES {
        let (a, b) = (list(&[1, 2, 3], curve), list(&[4, 5], curve));
        assert_eq!(numbers(&poly_add(&a, &b, curve)), vec![5, 7, 3]);
        assert_eq!(numbers(&poly_sub(&poly_add(&a, &b, curve), &b, curve)), vec![1, 2, 3]);
        assert_eq!(numbers(&poly_mul(&a, &b, curve)), vec![4, 13, 22, 15]);
        assert_eq!(numbers(&poly_scalar_mul(&a, &small(7, curve))), vec![7, 14, 21]);
        assert_eq!(numbers(&poly_shift(&a, &small(10, curve))), vec![1, 20, 300]);
        assert!(poly_mul(&a, &[], curve).is_empty());
    }
}
