use certified_dp::group::{Point, Scalar};
use certified_dp::pedersen::{commit, commit_with_r, setup, verify};

fn seed(b: u8) -> [u8; 32] {
    [b; 32]
}

#[test]
fn scalar_arithmetic_exact_values() {
    let two = Scalar::from_u64(2);
    let three = Scalar::from_u64(3);
    assert_eq!(two.plus(&three), Scalar::from_u64(5));
    assert_eq!(two.times(&three), Scalar::from_u64(6));
    assert_eq!(three.minus(&two), Scalar::one());
    assert_eq!(two.minus(&three).plus(&Scalar::one()), Scalar::zero());
    assert_eq!(two.negate().plus(&two), Scalar::zero());
    assert!(two.equals(&Scalar::from_u64(2)));
    assert!(!two.equals(&three));
    assert_eq!(Scalar::from_u64(258).to_bytes()[0], 2);
    assert_eq!(Scalar::from_u64(258).to_bytes()[1], 1);
}

#[test]
fn point_arithmetic_exact_values() {
    let b = Point::basepoint();
    let two_b = b.plus(&b);
    assert!(two_b.equals(&b.scale(&Scalar::from_u64(2))));
    assert!(!two_b.equals(&b));
    assert!(two_b.minus(&b).equals(&b));
    assert!(b.minus(&b).equals(&Point::identity()));
    let five = Point::lin_comb(&Scalar::from_u64(2), &b, &Scalar::from_u64(3), &b);
    assert!(five.equals(&b.scale(&Scalar::from_u64(5))));
    let bytes = two_b.to_bytes();
    let back = Point::from_bytes(bytes).unwrap();
    assert!(back.equals(&two_b));
    assert!(Point::from_bytes([0xff; 32]).is_none());
}

#[test]
fn commit_then_verify_opens() {
    let pp = setup(&seed(7));
    for v in 0..8u64 {
        let m = Scalar::from_u64(v);
        let (c, r) = commit(&m, &pp);
        assert!(verify(&c, &m, &r, &pp));
        assert!(!verify(&c, &Scalar::from_u64(v + 1), &r, &pp));
        assert!(!verify(&c, &m, &r.plus(&Scalar::one()), &pp));
        let c2 = commit_with_r(&m, &r, &pp);
        assert!(c2.equals(&c));
    }
}

#[test]
fn commitments_are_homomorphic() {
    let pp = setup(&seed(9));
    let (m1, m2) = (Scalar::from_u64(11), Scalar::from_u64(29));
    let (c1, r1) = commit(&m1, &pp);
    let (c2, r2) = commit(&m2, &pp);
    let (a, b) = (Scalar::random(), Scalar::random());
    let sum = c1.scale(&a).plus(&c2.scale(&b));
    let m = a.times(&m1).plus(&b.times(&m2));
    let r = a.times(&r1).plus(&b.times(&r2));
    assert!(verify(&sum, &m, &r, &pp));
    assert!(!verify(&sum, &m.plus(&Scalar::one()), &r, &pp));
}

#[test]
fn setup_is_deterministic_in_the_seed() {
    let p = setup(&seed(1));
    let v = setup(&seed(1));
    assert_eq!(p.g.to_bytes(), v.g.to_bytes());
    assert_eq!(p.h.to_bytes(), v.h.to_bytes());
    assert_eq!(p.h.to_bytes(), Point::basepoint().to_bytes());
    let w = setup(&seed(2));
    assert_ne!(p.g.to_bytes(), w.g.to_bytes());
    assert!(!p.g.equals(&p.h));
}
