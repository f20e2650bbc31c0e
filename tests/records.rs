use fdc_core::chain::RecordChain;
use fdc_core::error::FdcError;
use fdc_core::keys::{KeyPair, KeySize, LambdaKey, PublicKey};
use fdc_core::records::{salt, RData, Record};
use sha2::{Digest, Sha512};

#[test]
fn record_write_load() {
    let salt = salt("subject-id", "table-id");

    let ekp = KeyPair::rand(); // master key-pair
    let skp = KeyPair::rand(); // source key-pair

    let rd1 = RData::head(KeySize::S128, b"data-url");
    let (_, r1) = Record::head(&skp, &ekp.key, &salt, rd1.clone());
    assert!(r1.check().is_ok());

    let alpha = ekp.secret.mul_point(&r1.data.kn);
    let lambda = LambdaKey::new(&alpha, &salt);
    let rd2 = r1.data(&lambda).unwrap();
    assert!(rd1 == rd2);
}

#[test]
fn salt_is_digest_of_id_and_table() {
    let s = salt("alice", "accounts");
    assert_eq!(s.len(), 64);
    assert_eq!(s, Sha512::digest(b"aliceaccounts").to_vec());
    let ekp = KeyPair::rand();
    let skp = KeyPair::rand();
    let rd = RData::head(KeySize::S128, b"s3://x");
    assert_eq!(rd.dref.dn.len(), 16);
    assert!(rd.dref.ksize == KeySize::S128);
    let (_, r1) = Record::head(&skp, &ekp.key, &s, rd);
    assert_eq!(r1.hprev, s);
    assert!(*r1.owner() == skp.key);
}

#[test]
fn lambda_agreement_matches_ephemeral_key() {
    let ekp = KeyPair::rand();
    let skp = KeyPair::rand();
    let s = salt("bob", "t");
    let rd = RData::head(KeySize::S256, b"blob");
    assert_eq!(rd.dref.dn.len(), 32);
    let (lambda, r1) = Record::head(&skp, &ekp.key, &s, rd.clone());
    // e·kn = e·k·G = k·E, so the master secret derives the writer's lambda
    let alpha = ekp.secret.mul_point(&r1.data.kn);
    assert!(LambdaKey::new(&alpha, &s) == lambda);
    assert!(r1.data(&lambda).unwrap() == rd);
}

fn build_chain(n: usize) -> (KeyPair, Vec<RData>, RecordChain) {
    let ekp = KeyPair::rand();
    let skp = KeyPair::rand();
    let s = salt("carol", "ledger");
    let rd = RData::head(KeySize::S128, b"file-0");
    let (mut lambda, head) = Record::head(&skp, &ekp.key, &s, rd.clone());
    let mut plain = vec![rd];
    let mut chain = RecordChain::new("carol", "ledger", head).unwrap();
    for k in 1..n {
        let hprev = chain.lhash.clone();
        let hfile = format!("file-{}", k);
        let rd = RData::tail(KeySize::S192, lambda.clone(), hfile.as_bytes());
        let (next, tail) = Record::tail(&skp, &ekp.key, &hprev, &hprev, rd.clone());
        let dhash = tail.check().unwrap();
        chain.push(tail).unwrap();
        assert_eq!(chain.lhash, dhash);
        plain.push(rd);
        lambda = next;
    }
    (ekp, plain, chain)
}

#[test]
fn chain_append_and_invariants() {
    let (_, _, chain) = build_chain(5);
    assert_eq!(chain.chain.len(), 5);
    assert_eq!(chain.chain[0].hprev, salt("carol", "ledger"));
    for k in 1..chain.chain.len() {
        assert_eq!(chain.chain[k].hprev, chain.chain[k - 1].check().unwrap());
    }
    assert_eq!(chain.lhash, chain.chain[4].check().unwrap());
    assert!(*chain.kn() == chain.chain[4].data.kn);
}

#[test]
fn chain_full_recovery() {
    let (ekp, plain, chain) = build_chain(4);
    let recovered = chain.recover(&ekp.secret).unwrap();
    assert_eq!(recovered.len(), 4);
    for k in 0..4 {
        assert!(recovered[k] == plain[k]);
    }
    assert!(recovered[0].lprev.is_none());
    assert_eq!(recovered[3].dref.hfile, b"file-3".to_vec());
    let wrong = KeyPair::rand();
    let err = chain.recover(&wrong.secret).unwrap_err();
    assert_eq!(err.1, FdcError::DecryptFailed);
    assert_eq!(err.0, 3);
}

#[test]
fn tail_push_updates_last_hash() {
    let ekp = KeyPair::rand();
    let skp = KeyPair::rand();
    let s = salt("dave", "t");
    let (l1, r1) = Record::head(&skp, &ekp.key, &s, RData::head(KeySize::S128, b"a"));
    let h1 = r1.check().unwrap();
    let (_, r2) = Record::tail(&skp, &ekp.key, &h1, &h1, RData::tail(KeySize::S128, l1, b"b"));
    let mut chain = RecordChain::new("dave", "t", r1.clone()).unwrap();
    chain.push(r2.clone()).unwrap();
    assert_eq!(chain.lhash, r2.check().unwrap());
    // a head cannot be appended
    assert_eq!(chain.push(r1.clone()).unwrap_err(), FdcError::BrokenChain);
    assert_eq!(chain.chain.len(), 2);
    // a head of another subject is refused
    assert_eq!(RecordChain::new("dave", "u", r1.clone()).unwrap_err(), FdcError::NotHeadRecord);
}

#[test]
fn corrupted_records_fail_their_signature() {
    let ekp = KeyPair::rand();
    let skp = KeyPair::rand();
    let s = salt("erin", "t");
    let (l1, r1) = Record::head(&skp, &ekp.key, &s, RData::head(KeySize::S128, b"a"));
    let h1 = r1.check().unwrap();
    let (_, r2) = Record::tail(&skp, &ekp.key, &h1, &h1, RData::tail(KeySize::S128, l1, b"b"));
    let mut bad = r2.clone();
    bad.data.ciphertext[5] ^= 0x20;
    assert_eq!(bad.check().unwrap_err(), FdcError::InvalidSignature);
    let mut bad = r2.clone();
    bad.hprev[0] ^= 0x01;
    assert_eq!(bad.check().unwrap_err(), FdcError::InvalidSignature);
    let mut bad = r2.clone();
    bad.data.kn = bad.data.kn.add(&PublicKey::base());
    assert_eq!(bad.check().unwrap_err(), FdcError::InvalidSignature);
    let mut chain = RecordChain::new("erin", "t", r1.clone()).unwrap();
    let mut bad = r2.clone();
    bad.data.ciphertext[0] ^= 0x01;
    assert_eq!(chain.push(bad).unwrap_err(), FdcError::InvalidSignature);
    let mut bad_head = r1.clone();
    bad_head.hprev[3] ^= 0x80;
    assert_eq!(RecordChain::new("erin", "t", bad_head).unwrap_err(), FdcError::InvalidSignature);
    assert!(chain.push(r2).is_ok());
}
