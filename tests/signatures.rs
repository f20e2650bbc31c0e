use fdc_core::keys::KeyPair;
use fdc_core::signatures::{ExtSignature, Signature};
use sha2::{Digest, Sha512};

fn rand_string(n: usize) -> String {
    fdc_core::rand(n).iter().map(|b| (b'a' + b % 26) as char).collect()
}

#[test]
fn test_correct() {
    let kpa = KeyPair::rand();

    let d0 = rand_string(10);
    let d1 = rand_string(10);

    let dhash = Sha512::new().chain(d0.as_bytes()).chain(d1.as_bytes()).result();

    let sig = ExtSignature::sign(&kpa, dhash.as_slice());
    assert!(sig.verify(dhash.as_slice()) == true);
}

#[test]
fn test_incorrect() {
    let kpa = KeyPair::rand();

    let d0 = rand_string(10);
    let d1 = rand_string(10);
    let d2 = rand_string(10);

    let dhash1 = Sha512::new().chain(d0.as_bytes()).chain(d1.as_bytes()).result();

    let sig = ExtSignature::sign(&kpa, dhash1.as_slice());

    let dhash2 = Sha512::new().chain(d0.as_bytes()).chain(d2.as_bytes()).result();

    assert!(sig.verify(dhash2.as_slice()) == false);
}

#[test]
fn tampering_any_byte_of_the_digest_is_detected() {
    let kp = KeyPair::rand();
    let dhash = Sha512::digest(b"record digest").to_vec();
    let sig = Signature::sign(&kp, &dhash);
    assert!(sig.verify(&kp.key, &dhash));
    for i in 0..dhash.len() {
        let mut bad = dhash.clone();
        bad[i] ^= 0x01;
        assert!(!sig.verify(&kp.key, &bad));
    }
    let other = KeyPair::rand();
    assert!(!sig.verify(&other.key, &dhash));
}

#[test]
fn extended_signature_matches_plain_signature() {
    let kp = KeyPair::rand();
    let dhash = Sha512::digest(b"abc").to_vec();
    let ext = ExtSignature::sign(&kp, &dhash);
    assert!(ext.key == kp.key);
    assert_eq!(ext.verify(&dhash), ext.sig.verify(&ext.key, &dhash));
    let bad = Sha512::digest(b"abd").to_vec();
    assert_eq!(ext.verify(&bad), ext.sig.verify(&ext.key, &bad));
    assert!(!ext.verify(&bad));
    // signing is deterministic in the secret and the digest
    let again = Signature::sign(&kp, &dhash);
    assert!(again.c == ext.sig.c && again.p == ext.sig.p);
}
