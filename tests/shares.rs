use fdc_core::error::FdcError;
use fdc_core::keys::{PublicKey, SecretKey};
use fdc_core::shares::{Degree, Polynomial, PublicShare, Share, ShareVector};

#[test]
#[allow(non_snake_case)]
fn test_reconstruct() {
    let threshold = 16;
    let parties = 3 * threshold + 1;
    let G = PublicKey::base();

    let s = SecretKey::rand();
    let S = s.mul_point(&G);

    let poly = Polynomial::rand(s.clone(), threshold);

    let shares = poly.shares(parties);
    let S_shares = shares.mul_point(&G);

    let r_s = shares.recover();
    assert!(s == r_s);

    let r_S = S_shares.recover();
    assert!(S == r_S);
}

#[test]
fn horner_evaluation_exact() {
    // f(x) = 3 + 2x + 5x^2, f(4) = 3 + 8 + 80 = 91
    let poly = Polynomial {
        a: vec![SecretKey::from_u64(3), SecretKey::from_u64(2), SecretKey::from_u64(5)],
    };
    assert!(poly.evaluate(&SecretKey::from_u64(4)) == SecretKey::from_u64(91));
    assert_eq!(poly.degree(), 2);
    let shares = poly.shares(3);
    assert_eq!(shares.0.len(), 3);
    assert_eq!(shares.0[0].i, 1);
    assert!(shares.0[0].yi == SecretKey::from_u64(10));
    assert_eq!(shares.0[2].i, 3);
    assert!(shares.0[2].yi == SecretKey::from_u64(54));
}

#[test]
fn any_threshold_shares_recover_and_fewer_do_not() {
    let t = 16;
    let n = 49;
    let s = SecretKey::rand();
    let poly = Polynomial::rand(s, t);
    let shares = poly.shares(n);
    for start in [0usize, 10, 32] {
        let subset = ShareVector(shares.0[start..start + t + 1].to_vec());
        assert!(subset.recover() == s);
        let fewer = ShareVector(shares.0[start..start + t].to_vec());
        assert!(fewer.recover() != s);
    }
    let spread: Vec<Share> = shares.0.iter().step_by(3).take(t + 1).cloned().collect();
    assert!(ShareVector(spread).recover() == s);
}

#[test]
fn public_polynomial_verifies_shares() {
    let g = PublicKey::base();
    let poly = Polynomial::rand(SecretKey::rand(), 4);
    let public = poly.mul_point(&g);
    let shares = poly.shares(13);
    for share in shares.0.iter() {
        let ps = share.mul_point(&g);
        assert!(public.verify(&ps));
        let mut bytes = ps.Yi.to_bytes();
        bytes[0] ^= 1;
        if let Some(other) = PublicKey::from_bytes(&bytes) {
            assert!(!public.verify(&PublicShare { i: ps.i, Yi: other }));
        }
        let shifted = PublicShare { i: ps.i, Yi: ps.Yi.add(&g) };
        assert!(!public.verify(&shifted));
    }
}

#[test]
fn share_arithmetic_and_bad_share() {
    let a = Share { i: 2, yi: SecretKey::from_u64(5) };
    let b = Share { i: 2, yi: SecretKey::from_u64(7) };
    let c = Share { i: 3, yi: SecretKey::from_u64(7) };
    assert!(a.add(&b).yi == SecretKey::from_u64(12));
    assert!(b.sub(&a).yi == SecretKey::from_u64(2));
    assert!(a.mul(&SecretKey::from_u64(3)).yi == SecretKey::from_u64(15));
    assert_eq!(a.checked_add(&c), Err(FdcError::BadShare));
    assert!(a.checked_add(&b).unwrap().yi == SecretKey::from_u64(12));
    let g = PublicKey::base();
    let pa = a.mul_point(&g);
    let pc = c.mul_point(&g);
    assert_eq!(pa.checked_add(&pc), Err(FdcError::BadShare));
    assert!(pa.add(&b.mul_point(&g)).Yi == SecretKey::from_u64(12).mul_point(&g));
}

#[test]
fn polynomial_scaling_commutes_with_evaluation() {
    let g = PublicKey::base();
    let poly = Polynomial::rand(SecretKey::rand(), 3);
    let k = SecretKey::from_u64(9);
    let x = SecretKey::from_u64(6);
    assert!(poly.mul(&k).evaluate(&x) == poly.evaluate(&x).mul(&k));
    let committed = poly.mul_point(&g);
    assert!(committed.evaluate(&x) == poly.evaluate(&x).mul_point(&g));
    assert!(committed.mul(&k).evaluate(&x) == poly.evaluate(&x).mul(&k).mul_point(&g));
    assert_eq!(committed.degree(), 3);
}
