use vstd::prelude::*;
use vstd::utf8::encode_utf8;

use crate::codec::{parse_rdata, rdata_bytes, renc_bytes, serialize_rdata, serialize_renc};
use crate::encrypt::{cbc_open, encryptor, decryptor, scheme_key, EncryptScheme};
use crate::error::FdcError;
use crate::field::{fmul, group_order};
use crate::hash::{sha512_digest, sha512_pair};
use crate::keys::{compressed_point, lambda_of, KeyPair, KeySize, LambdaKey, PublicKey, SecretKey};
use crate::signatures::{lemma_sign_verifies, sig_valid, ExtSignature};

verus! {

/// What a data reference holds.
pub struct RDataRefView {
    pub ksize: KeySize,
    pub dn: Seq<u8>,
    pub hfile: Seq<u8>,
}

/// What a record's plaintext holds.
pub struct RDataView {
    pub lprev: Option<Seq<u8>>,
    pub dref: RDataRefView,
}

/// A reference to an external blob: its key size, a fresh nonce and an opaque locator.
#[derive(Clone, Debug, PartialEq, Eq)]
pub struct RDataRef {
    pub ksize: KeySize,
    pub dn: Vec<u8>,
    pub hfile: Vec<u8>,
}

impl View for RDataRef {
    type V = RDataRefView;

    open spec fn view(&self) -> RDataRefView {
        RDataRefView { ksize: self.ksize, dn: self.dn@, hfile: self.hfile@ }
    }
}

/// A record's plaintext: the previous record's lambda (none for a head) and the reference.
#[derive(Clone, Debug, PartialEq, Eq)]
pub struct RData {
    pub lprev: Option<LambdaKey>,
    pub dref: RDataRef,
}

impl View for RData {
    type V = RDataView;

    open spec fn view(&self) -> RDataView {
        RDataView {
            lprev: match self.lprev {
                Some(l) => Some(l@),
                None => None,
            },
            dref: self.dref@,
        }
    }
}

/// An encrypted payload: the ephemeral point `kn = k·G` and the ciphertext.
#[derive(Clone, Debug, PartialEq, Eq)]
pub struct REncData {
    pub kn: PublicKey,
    pub ciphertext: Vec<u8>,
}

/// `SHA-512(id ‖ table)`: the subject's salt, which is also its head record's previous hash.
pub open spec fn salt_of(id: Seq<char>, table: Seq<char>) -> Seq<u8> {
    sha512_digest(encode_utf8(id) + encode_utf8(table))
}

pub fn salt(id: &str, table: &str) -> (r: Vec<u8>)
    ensures
        r@ == salt_of(id@, table@),
        r@.len() == 64,
{
    sha512_pair(id.as_bytes(), table.as_bytes())
}

impl RData {
    /// The plaintext of a head record, with a fresh nonce of `ksize / 8` bytes.
    pub fn head(ksize: KeySize, hfile: &[u8]) -> (r: RData)
        ensures
            r.lprev is None,
            r.dref.ksize == ksize,
            r.dref.dn@.len() == ksize.bits() / 8,
            r.dref.hfile@ == hfile@,
    {
        let dn = crate::rand(ksize.size() / 8);
        let hfile = vstd::slice::slice_to_vec(hfile);
        RData { lprev: None, dref: RDataRef { ksize, dn, hfile } }
    }

    /// The plaintext of a tail record, which carries the previous record's lambda.
    pub fn tail(ksize: KeySize, lprev: LambdaKey, hfile: &[u8]) -> (r: RData)
        ensures
            r.lprev == Some(lprev),
            r.dref.ksize == ksize,
            r.dref.dn@.len() == ksize.bits() / 8,
            r.dref.hfile@ == hfile@,
    {
        let dn = crate::rand(ksize.size() / 8);
        let hfile = vstd::slice::slice_to_vec(hfile);
        RData { lprev: Some(lprev), dref: RDataRef { ksize, dn, hfile } }
    }
}

/// The lambda of a payload whose ephemeral point has logarithm `kn`, for the master key of
/// logarithm `ekey` and the salt `salt`: `LambdaKey(kn·ekey, salt)`.
pub open spec fn payload_lambda(kn: nat, ekey: nat, salt: Seq<u8>) -> Seq<u8> {
    lambda_of(compressed_point(fmul(kn, ekey)), salt)
}

/// What decryption under the lambda `lambda` makes of a ciphertext: the plaintext, or `None`.
pub open spec fn opened(lambda: Seq<u8>, ciphertext: Seq<u8>) -> Option<RDataView> {
    match cbc_open(scheme_key(EncryptScheme::AesCbc128, lambda), ciphertext) {
        Some(m) => parse_rdata(m),
        None => None,
    }
}

/// A plaintext whose encoding fits the encryptor.
pub open spec fn sealable(rd: RDataView) -> bool {
    rdata_bytes(rd).len() + 64 <= usize::MAX
}

impl REncData {
    /// The ciphertext decrypts, under the lambda of the ephemeral point, to the encoding of `rd`.
    pub open spec fn seals(self, ekey: nat, salt: Seq<u8>, rd: RDataView) -> bool {
        cbc_open(scheme_key(EncryptScheme::AesCbc128, payload_lambda(self.kn@, ekey, salt)),
            self.ciphertext@) == Some(rdata_bytes(rd))
    }

    /// Encrypts `rd` for the master key `ekey` under a fresh ephemeral scalar `k`:
    /// `kn = k·G` and the lambda is `LambdaKey(k·ekey, salt)`.
    pub fn new(ekey: &PublicKey, salt: &[u8], rd: &RData) -> (r: (LambdaKey, REncData))
        requires
            sealable(rd@),
        ensures
            r.0@ == payload_lambda(r.1.kn@, ekey@, salt@),
            r.1.seals(ekey@, salt@, rd@),
    {
        let k = SecretKey::rand();
        let alpha = k.mul_point(ekey);
        let lambda = LambdaKey::new(&alpha, salt);
        let from = serialize_rdata(rd);
        let ciphertext = encryptor(EncryptScheme::AesCbc128, &lambda, from.as_slice());
        let kn = k.mul_point(&PublicKey::base());
        proof {
            k.lemma_reduced();
            vstd::arithmetic::div_mod::lemma_small_mod(k@, group_order());
            assert(kn@ == k@);
        }
        (lambda, REncData { kn, ciphertext })
    }

    /// Decrypts the payload under `lambda`; fails with `DecryptFailed` where decryption or
    /// decoding fails.
    pub fn data(&self, lambda: &LambdaKey) -> (r: Result<RData, FdcError>)
        ensures
            match opened(lambda@, self.ciphertext@) {
                Some(v) => r is Ok && r->Ok_0@ == v,
                None => r == Err::<RData, FdcError>(FdcError::DecryptFailed),
            },
    {
        let to = decryptor(EncryptScheme::AesCbc128, lambda, self.ciphertext.as_slice())?;
        match crate::codec::deserialize_rdata(to.as_slice()) {
            Some(rd) => Ok(rd),
            None => Err(FdcError::DecryptFailed),
        }
    }
}

/// A signed, encrypted, hash-linked record.
#[derive(Clone, Debug)]
pub struct Record {
    pub hprev: Vec<u8>,
    pub data: REncData,
    pub sig: ExtSignature,
}

/// `SHA-512(hprev ‖ serialize(data))`, for a payload with ephemeral point encoding `kn`.
pub open spec fn record_digest(hprev: Seq<u8>, kn: Seq<u8>, ciphertext: Seq<u8>) -> Seq<u8> {
    sha512_digest(hprev + renc_bytes(kn, ciphertext))
}

impl Record {
    /// The digest that the record's signature covers.
    pub open spec fn digest(self) -> Seq<u8> {
        record_digest(self.hprev@, self.data.kn.encoding(), self.data.ciphertext@)
    }

    /// The record's signature verifies over its digest.
    pub open spec fn signature_valid(self) -> bool {
        sig_valid(self.sig.sig.c@, self.sig.sig.p@, self.sig.key@, self.digest())
    }

    /// The signer's public key.
    pub fn owner(&self) -> (r: &PublicKey)
        ensures
            *r == self.sig.key,
    {
        &self.sig.key
    }

    /// Decrypts the record's payload under `lambda`.
    pub fn data(&self, lambda: &LambdaKey) -> (r: Result<RData, FdcError>)
        ensures
            match opened(lambda@, self.data.ciphertext@) {
                Some(v) => r is Ok && r->Ok_0@ == v,
                None => r == Err::<RData, FdcError>(FdcError::DecryptFailed),
            },
    {
        self.data.data(lambda)
    }

    /// A head record: its previous hash is the salt itself.
    pub fn head(keyp: &KeyPair, ekey: &PublicKey, salt: &[u8], rd: RData) -> (r: (LambdaKey, Record))
        requires
            sealable(rd@),
        ensures
            r.1.hprev@ == salt@,
            r.0@ == payload_lambda(r.1.data.kn@, ekey@, salt@),
            r.1.data.seals(ekey@, salt@, rd@),
            r.1.sig.key == keyp.key,
            keyp.consistent() ==> r.1.signature_valid(),
    {
        Record::create(keyp, ekey, salt, salt, rd)
    }

    /// A tail record linked to the previous record's hash `hprev`.
    pub fn tail(keyp: &KeyPair, ekey: &PublicKey, hprev: &[u8], salt: &[u8], rd: RData) -> (r: (
        LambdaKey,
        Record,
    ))
        requires
            sealable(rd@),
        ensures
            r.1.hprev@ == hprev@,
            r.0@ == payload_lambda(r.1.data.kn@, ekey@, salt@),
            r.1.data.seals(ekey@, salt@, rd@),
            r.1.sig.key == keyp.key,
            keyp.consistent() ==> r.1.signature_valid(),
    {
        Record::create(keyp, ekey, hprev, salt, rd)
    }

    /// Verifies the signature; on success returns the digest, the next record's `hprev`.
    pub fn check(&self) -> (r: Result<Vec<u8>, FdcError>)
        ensures
            self.signature_valid() ==> r is Ok && r->Ok_0@ == self.digest(),
            !self.signature_valid() ==> r == Err::<Vec<u8>, FdcError>(FdcError::InvalidSignature),
    {
        let dhash = Record::hash(self.hprev.as_slice(), &self.data);
        if !self.sig.verify(dhash.as_slice()) {
            return Err(FdcError::InvalidSignature);
        }
        Ok(dhash)
    }

    /// `SHA-512(hprev ‖ serialize(red))`.
    pub fn hash(hprev: &[u8], red: &REncData) -> (r: Vec<u8>)
        ensures
            r@ == record_digest(hprev@, red.kn.encoding(), red.ciphertext@),
            r@.len() == 64,
    {
        let b_data = serialize_renc(red);
        sha512_pair(hprev, b_data.as_slice())
    }

    fn create(keyp: &KeyPair, ekey: &PublicKey, hprev: &[u8], salt: &[u8], rd: RData) -> (r: (
        LambdaKey,
        Record,
    ))
        requires
            sealable(rd@),
        ensures
            r.1.hprev@ == hprev@,
            r.0@ == payload_lambda(r.1.data.kn@, ekey@, salt@),
            r.1.data.seals(ekey@, salt@, rd@),
            r.1.sig.key == keyp.key,
            keyp.consistent() ==> r.1.signature_valid(),
    {
        let (lambda, data) = REncData::new(ekey, salt, &rd);
        let dhash = Record::hash(hprev, &data);
        let sig = ExtSignature::sign(keyp, dhash.as_slice());
        let hp = vstd::slice::slice_to_vec(hprev);
        let rec = Record { hprev: hp, data, sig };
        proof {
            if keyp.consistent() {
                keyp.secret.lemma_reduced();
                lemma_sign_verifies(keyp.secret@, keyp.secret.encoding(), keyp.key@, sig.sig.c@,
                    sig.sig.p@, dhash@);
            }
        }
        (lambda, rec)
    }
}

} // verus!
