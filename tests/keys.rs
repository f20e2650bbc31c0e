use fdc_core::error::FdcError;
use fdc_core::keys::{KeyPair, KeySize, LambdaKey, PublicKey, SecretKey};
use sha2::{Digest, Sha512};

const ORDER_MINUS_ONE: [u8; 32] = [
    0xec, 0xd3, 0xf5, 0x5c, 0x1a, 0x63, 0x12, 0x58, 0xd6, 0x9c, 0xf7, 0xa2, 0xde, 0xf9, 0xde,
    0x14, 0, 0, 0, 0, 0, 0, 0, 0, 0, 0, 0, 0, 0, 0, 0, 0x10,
];

fn b64(bytes: &[u8]) -> String {
    base64::encode(bytes)
}

#[test]
fn scalar_ring_laws() {
    let a = SecretKey::rand();
    let b = SecretKey::rand();
    let c = SecretKey::rand();
    assert!(a.add(&b).add(&c) == a.add(&b.add(&c)));
    assert!(a.mul(&b).mul(&c) == a.mul(&b.mul(&c)));
    assert!(a.add(&b) == b.add(&a));
    assert!(a.mul(&b) == b.mul(&a));
    assert!(a.mul(&b.add(&c)) == a.mul(&b).add(&a.mul(&c)));
    assert!(SecretKey::zero().add(&a) == a);
    assert!(SecretKey::one().mul(&a) == a);
    assert!(a.sub(&a) == SecretKey::zero());
    assert!(a.sub(&b) == a.add(&b.neg()));
    assert!(a.mul(&a.invert()) == SecretKey::one());
}

#[test]
fn scalar_exact_values() {
    let two = SecretKey::from_u32(2);
    let three = SecretKey::from_u64(3);
    assert!(two.add(&three) == SecretKey::from_u64(5));
    assert!(two.mul(&three) == SecretKey::from_u64(6));
    assert!(three.sub(&two) == SecretKey::one());
    assert_eq!(two.sub(&three).as_bytes(), &ORDER_MINUS_ONE);
    assert_eq!(SecretKey::one().neg().as_bytes(), &ORDER_MINUS_ONE);
    // 2 · 2^-1 = 1, and 2^-1 = (l + 1) / 2
    assert!(two.mul(&two.invert()) == SecretKey::one());
    assert!(two.invert() != two);
    let mut acc = SecretKey::from_u64(10);
    acc.add_assign(&three);
    acc.mul_assign(&two);
    acc.sub_assign(&SecretKey::one());
    assert!(acc == SecretKey::from_u64(25));
    let mut wide = [0u8; 64];
    wide[0] = 7;
    wide[1] = 1;
    assert!(SecretKey::from_hash(&wide) == SecretKey::from_u64(263));
}

#[test]
fn point_group_laws() {
    let g = PublicKey::base();
    let a = SecretKey::rand();
    let b = SecretKey::rand();
    let p = a.mul_point(&g);
    let q = b.mul_point(&g);
    assert!(p.add(&q) == q.add(&p));
    assert!(a.add(&b).mul_point(&p) == a.mul_point(&p).add(&b.mul_point(&p)));
    assert!(a.mul_point(&b.mul_point(&p)) == a.mul(&b).mul_point(&p));
    assert!(SecretKey::zero().mul_point(&p) == PublicKey::zero());
    assert!(p.sub(&p) == PublicKey::zero());
    assert!(p.add(&PublicKey::zero()) == p);
    assert!(g.add(&g) == SecretKey::from_u64(2).mul_point(&g));
    assert!(p.mul(&a) == a.mul_point(&p));
    let mut r = p;
    r.add_assign(&q);
    r.sub_assign(&q);
    assert!(r == p);
    assert_eq!(PublicKey::zero().to_bytes(), [0u8; 32]);
}

#[test]
fn encodings_round_trip() {
    let s = SecretKey::rand();
    let text = s.encode();
    assert_eq!(text, b64(s.as_bytes()));
    assert!(SecretKey::decode(&text).unwrap() == s);
    let p = SecretKey::rand().mul_point(&PublicKey::base());
    let text = p.encode();
    assert!(PublicKey::decode(&text).unwrap() == p);
    assert_eq!(PublicKey::base().encode(), "4vKuCmq8TnGohKlhxQBRX1jjC2qlgt2NtqZZReCNLXY=");
    assert_eq!(SecretKey::one().encode(), "AQAAAAAAAAAAAAAAAAAAAAAAAAAAAAAAAAAAAAAAAAA=");
    let kp = KeyPair::load(&s.encode(), &p.encode()).unwrap();
    assert!(kp.secret == s && kp.key == p);
}

#[test]
fn decoding_rejects_bad_input() {
    assert_eq!(SecretKey::decode("not base64!").unwrap_err(), FdcError::BadEncoding);
    assert_eq!(SecretKey::decode(&b64(&[1u8; 31])).unwrap_err(), FdcError::BadEncoding);
    let mut order = ORDER_MINUS_ONE;
    order[0] += 1;
    assert_eq!(SecretKey::decode(&b64(&order)).unwrap_err(), FdcError::BadEncoding);
    assert!(SecretKey::decode(&b64(&ORDER_MINUS_ONE)).is_ok());
    assert_eq!(SecretKey::decode(&b64(&[0xffu8; 32])).unwrap_err(), FdcError::BadEncoding);
    assert_eq!(PublicKey::decode("***").unwrap_err(), FdcError::BadEncoding);
    assert_eq!(PublicKey::decode(&b64(&[2u8; 16])).unwrap_err(), FdcError::BadEncoding);
    assert_eq!(PublicKey::decode(&b64(&[0xffu8; 32])).unwrap_err(), FdcError::BadEncoding);
    assert!(PublicKey::from_bytes(&[0xffu8; 32]).is_none());
    assert!(KeyPair::load("***", &PublicKey::base().encode()).is_err());
    assert_eq!(FdcError::BadEncoding.message(), "bad encoding");
}

#[test]
fn key_pairs_and_lambdas() {
    let kp = KeyPair::rand();
    assert!(kp.key == kp.secret.mul_point(&PublicKey::base()));
    let lambda = LambdaKey::new(&kp.key, b"salt");
    assert_eq!(lambda.k128().len(), 16);
    assert_eq!(lambda.k192().len(), 24);
    assert_eq!(lambda.k256().len(), 32);
    assert_eq!(lambda.k512().len(), 64);
    assert_eq!(&lambda.k512()[..16], lambda.k128());
    let expected = Sha512::new().chain(kp.key.to_bytes()).chain(b"salt").result().to_vec();
    assert_eq!(lambda.as_slice(), expected.as_slice());
    assert!(lambda.clone() == lambda);
    assert!(LambdaKey::from_bytes(vec![0u8; 63]).is_none());
    assert!(LambdaKey::from_bytes(expected).unwrap() == lambda);
    assert_eq!(KeySize::S128.size(), 128);
    assert_eq!(KeySize::S192.size(), 192);
    assert_eq!(KeySize::S256.size(), 256);
    assert_eq!(KeySize::S512.size(), 512);
    assert_eq!(fdc_core::rand(33).len(), 33);
}
