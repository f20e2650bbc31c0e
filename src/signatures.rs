use vstd::prelude::*;

use crate::field::{fadd, fmul, fsub, group_order, le_nat};
use crate::hash::{append_bytes, sha512, sha512_digest};
use crate::keys::{compressed_point, KeyPair, PublicKey, SecretKey};

verus! {

/// A 64-byte digest reduced to a scalar.
pub open spec fn wide_scalar(h: Seq<u8>) -> nat {
    le_nat(h) % group_order()
}

/// The deterministic nonce `m = H(s ‖ dhash)` of the signer with secret encoding `s`.
pub open spec fn sig_nonce(s: Seq<u8>, dhash: Seq<u8>) -> nat {
    wide_scalar(sha512_digest(s + dhash))
}

/// The challenge `c = H(encode(S) ‖ encode(M) ‖ dhash)` for the key of logarithm `key` and the
/// commitment of logarithm `m`.
pub open spec fn sig_challenge(key: nat, m: nat, dhash: Seq<u8>) -> nat {
    wide_scalar(sha512_digest(compressed_point(key) + compressed_point(m) + dhash))
}

/// The verification equation: the challenge recomputed from `M' = c·S + p·G` is `c`.
pub open spec fn sig_valid(c: nat, p: nat, key: nat, dhash: Seq<u8>) -> bool {
    sig_challenge(key, fadd(fmul(c, key), fmul(p, 1)), dhash) == c
}

/// A signature made with a consistent key pair verifies under its public key.
pub proof fn lemma_sign_verifies(s: nat, s_enc: Seq<u8>, key: nat, c: nat, p: nat, dhash: Seq<u8>)
    requires
        s < group_order(),
        key == s,
        c == sig_challenge(key, sig_nonce(s_enc, dhash), dhash),
        p == fsub(sig_nonce(s_enc, dhash), fmul(c, s)),
    ensures
        sig_valid(c, p, key, dhash),
{
    let m = sig_nonce(s_enc, dhash);
    let cs = fmul(c, s);
    crate::field::lemma_fadd_bound(c, s);
    crate::field::lemma_fadd_bound(m, crate::field::fneg(cs));
    vstd::arithmetic::div_mod::lemma_small_mod(p, group_order());
    assert(fmul(p, 1) == p);
    // cs + (m - cs) = m
    crate::field::lemma_fcomm(cs, p);
    crate::field::lemma_fadd_assoc(m, crate::field::fneg(cs), cs);
    crate::field::lemma_fneg_cancel(cs);
    crate::field::lemma_fcomm(crate::field::fneg(cs), cs);
    vstd::arithmetic::div_mod::lemma_mod_bound(le_nat(sha512_digest(s_enc + dhash)) as int,
        group_order() as int);
    crate::field::lemma_fadd_reduce(m, 0);
    vstd::arithmetic::div_mod::lemma_small_mod(m, group_order());
    assert(fadd(cs, p) == m);
}

/// The challenge scalar from `encode(S) ‖ encode(M) ‖ dhash`.
fn challenge(key: &PublicKey, m: &PublicKey, dhash: &[u8]) -> (r: SecretKey)
    ensures
        r@ == sig_challenge(key@, m@, dhash@),
{
    let kb = key.to_bytes();
    let mb = m.to_bytes();
    let mut msg: Vec<u8> = Vec::new();
    append_bytes(&mut msg, kb.as_slice());
    append_bytes(&mut msg, mb.as_slice());
    append_bytes(&mut msg, dhash);
    let h = sha512(msg.as_slice());
    SecretKey::from_hash(h.as_slice())
}

/// A Schnorr signature `(c, p)` over the generator `G`.
#[derive(Clone, Copy, Debug)]
pub struct Signature {
    pub c: SecretKey,
    pub p: SecretKey,
}

impl Signature {
    /// Signs `dhash`: `m = H(s ‖ dhash)`, `M = m·G`, `c = H(S ‖ M ‖ dhash)`, `p = m − c·s`.
    pub fn sign(kp: &KeyPair, dhash: &[u8]) -> (r: Signature)
        ensures
            r.c@ == sig_challenge(kp.key@, sig_nonce(kp.secret.encoding(), dhash@), dhash@),
            r.p@ == fsub(sig_nonce(kp.secret.encoding(), dhash@), fmul(r.c@, kp.secret@)),
    {
        let sb = kp.secret.as_bytes();
        let mut msg: Vec<u8> = Vec::new();
        append_bytes(&mut msg, sb.as_slice());
        append_bytes(&mut msg, dhash);
        let h = sha512(msg.as_slice());
        let m = SecretKey::from_hash(h.as_slice());
        let big_m = m.mul_point(&PublicKey::base());
        proof {
            m.lemma_reduced();
            vstd::arithmetic::div_mod::lemma_small_mod(m@, group_order());
            assert(fmul(m@, 1) == m@);
        }
        let c = challenge(&kp.key, &big_m, dhash);
        let cs = c.mul(&kp.secret);
        let p = m.sub(&cs);
        Signature { c, p }
    }

    /// Accepts iff the challenge recomputed from `M' = c·S + p·G` equals `c`.
    pub fn verify(&self, key: &PublicKey, dhash: &[u8]) -> (r: bool)
        ensures
            r == sig_valid(self.c@, self.p@, key@, dhash@),
    {
        let cs = self.c.mul_point(key);
        let pg = self.p.mul_point(&PublicKey::base());
        let big_m = cs.add(&pg);
        let c = challenge(key, &big_m, dhash);
        c.eq(&self.c)
    }
}

/// A signature bundled with the signer's public key.
#[derive(Clone, Copy, Debug)]
pub struct ExtSignature {
    pub sig: Signature,
    pub key: PublicKey,
}

impl ExtSignature {
    pub fn sign(kp: &KeyPair, dhash: &[u8]) -> (r: ExtSignature)
        ensures
            r.key == kp.key,
            r.sig.c@ == sig_challenge(kp.key@, sig_nonce(kp.secret.encoding(), dhash@), dhash@),
            r.sig.p@ == fsub(sig_nonce(kp.secret.encoding(), dhash@), fmul(r.sig.c@, kp.secret@)),
    {
        let sig = Signature::sign(kp, dhash);
        ExtSignature { sig, key: kp.key }
    }

    /// Verifies against the bundled key.
    pub fn verify(&self, dhash: &[u8]) -> (r: bool)
        ensures
            r == sig_valid(self.sig.c@, self.sig.p@, self.key@, dhash@),
    {
        self.sig.verify(&self.key, dhash)
    }
}

} // verus!
