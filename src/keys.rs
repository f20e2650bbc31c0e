use vstd::prelude::*;
use curve25519_dalek::constants::RISTRETTO_BASEPOINT_POINT;
use curve25519_dalek::ristretto::{CompressedRistretto, RistrettoPoint};
use curve25519_dalek::scalar::Scalar;

use crate::error::FdcError;
use crate::field::{fadd, fmul, fneg, fsub, group_order, is_inverse, le_nat, lemma_fadd_bound};
use crate::hash::{append_bytes, sha512, sha512_digest};
use vstd::arithmetic::div_mod::{lemma_mod_bound, lemma_small_mod};

verus! {

// ---------------------------------------------------------------------------------------------
// Scalar arithmetic of curve25519-dalek, on canonical little-endian encodings
// ---------------------------------------------------------------------------------------------

/// Relies on `Scalar::add` of curve25519-dalek: the sum of two scalars, reduced.
#[verifier::external_body]
fn scalar_add(a: &[u8; 32], b: &[u8; 32]) -> (r: [u8; 32])
    requires
        le_nat(a@) < group_order(),
        le_nat(b@) < group_order(),
    ensures
        le_nat(r@) == fadd(le_nat(a@), le_nat(b@)),
{
    (&Scalar::from_bits(*a) + &Scalar::from_bits(*b)).to_bytes()
}

/// Relies on `Scalar::sub` of curve25519-dalek: the difference of two scalars, reduced.
#[verifier::external_body]
fn scalar_sub(a: &[u8; 32], b: &[u8; 32]) -> (r: [u8; 32])
    requires
        le_nat(a@) < group_order(),
        le_nat(b@) < group_order(),
    ensures
        le_nat(r@) == fsub(le_nat(a@), le_nat(b@)),
{
    (&Scalar::from_bits(*a) - &Scalar::from_bits(*b)).to_bytes()
}

/// Relies on `Scalar::mul` of curve25519-dalek: the product of two scalars, reduced.
#[verifier::external_body]
fn scalar_mul(a: &[u8; 32], b: &[u8; 32]) -> (r: [u8; 32])
    requires
        le_nat(a@) < group_order(),
        le_nat(b@) < group_order(),
    ensures
        le_nat(r@) == fmul(le_nat(a@), le_nat(b@)),
{
    (&Scalar::from_bits(*a) * &Scalar::from_bits(*b)).to_bytes()
}

/// Relies on `Scalar::neg` of curve25519-dalek: the additive inverse, reduced.
#[verifier::external_body]
fn scalar_neg(a: &[u8; 32]) -> (r: [u8; 32])
    requires
        le_nat(a@) < group_order(),
    ensures
        le_nat(r@) == fneg(le_nat(a@)),
{
    (-&Scalar::from_bits(*a)).to_bytes()
}

/// Relies on `Scalar::invert` of curve25519-dalek: the multiplicative inverse of a nonzero scalar.
#[verifier::external_body]
fn scalar_invert(a: &[u8; 32]) -> (r: [u8; 32])
    requires
        le_nat(a@) < group_order(),
        le_nat(a@) != 0,
    ensures
        is_inverse(le_nat(a@), le_nat(r@)),
{
    Scalar::from_bits(*a).invert().to_bytes()
}

/// Relies on `Scalar::from(u64)` of curve25519-dalek: the integer itself.
#[verifier::external_body]
fn scalar_from_u64(x: u64) -> (r: [u8; 32])
    ensures
        le_nat(r@) == x as nat,
{
    Scalar::from(x).to_bytes()
}

/// Relies on `Scalar::from_bytes_mod_order_wide` of curve25519-dalek: a 512-bit
/// little-endian integer reduced modulo the group order.
#[verifier::external_body]
fn scalar_reduce_wide(b: &[u8]) -> (r: [u8; 32])
    requires
        b@.len() == 64,
    ensures
        le_nat(r@) == le_nat(b@) % group_order(),
{
    let mut wide = [0u8; 64];
    wide.copy_from_slice(b);
    Scalar::from_bytes_mod_order_wide(&wide).to_bytes()
}

/// Relies on `Scalar::from_canonical_bytes` of curve25519-dalek: it accepts exactly the
/// encodings of integers below the group order.
#[verifier::external_body]
fn scalar_is_canonical(b: &[u8; 32]) -> (r: bool)
    ensures
        r == (le_nat(b@) < group_order()),
{
    Scalar::from_canonical_bytes(*b).is_some()
}

// ---------------------------------------------------------------------------------------------
// The Ristretto group of curve25519-dalek, on compressed encodings
// ---------------------------------------------------------------------------------------------

/// The compressed encoding of the group element `x·G`, where `G` is the Ristretto basepoint.
pub uninterp spec fn compressed_point(x: nat) -> Seq<u8>;

/// `b` encodes the group element `x·G`, and no other exponent below the group order
/// gives the same encoding.
pub open spec fn encodes_point(b: Seq<u8>, x: nat) -> bool {
    &&& x < group_order()
    &&& compressed_point(x) == b
    &&& forall|y: nat| #![trigger compressed_point(y)]
        y < group_order() && compressed_point(y) == b ==> y == x
}

/// `b` is the canonical encoding of a group element.
pub open spec fn is_point(b: Seq<u8>) -> bool {
    exists|x: nat| encodes_point(b, x)
}

/// The discrete logarithm, with respect to `G`, of the element that `b` encodes.
pub open spec fn point_log(b: Seq<u8>) -> nat {
    choose|x: nat| encodes_point(b, x)
}

pub proof fn lemma_point_log(b: Seq<u8>, x: nat)
    requires
        encodes_point(b, x),
    ensures
        is_point(b),
        point_log(b) == x,
{
}

/// Relies on `CompressedRistretto::decompress` of curve25519-dalek: it accepts exactly the
/// canonical encodings of group elements.
#[verifier::external_body]
fn point_is_valid(b: &[u8; 32]) -> (r: bool)
    ensures
        r == is_point(b@),
{
    CompressedRistretto(*b).decompress().is_some()
}

/// Relies on `RistrettoPoint::add` of curve25519-dalek: the group operation.
#[verifier::external_body]
fn point_add(a: &[u8; 32], b: &[u8; 32]) -> (r: [u8; 32])
    requires
        is_point(a@),
        is_point(b@),
    ensures
        encodes_point(r@, fadd(point_log(a@), point_log(b@))),
{
    let pa = CompressedRistretto(*a).decompress().unwrap();
    let pb = CompressedRistretto(*b).decompress().unwrap();
    (pa + pb).compress().to_bytes()
}

/// Relies on `RistrettoPoint::sub` of curve25519-dalek: the group operation with the inverse.
#[verifier::external_body]
fn point_sub(a: &[u8; 32], b: &[u8; 32]) -> (r: [u8; 32])
    requires
        is_point(a@),
        is_point(b@),
    ensures
        encodes_point(r@, fsub(point_log(a@), point_log(b@))),
{
    let pa = CompressedRistretto(*a).decompress().unwrap();
    let pb = CompressedRistretto(*b).decompress().unwrap();
    (pa - pb).compress().to_bytes()
}

/// Relies on `Scalar * RistrettoPoint` of curve25519-dalek: scalar multiplication.
#[verifier::external_body]
fn point_mul(s: &[u8; 32], p: &[u8; 32]) -> (r: [u8; 32])
    requires
        le_nat(s@) < group_order(),
        is_point(p@),
    ensures
        encodes_point(r@, fmul(le_nat(s@), point_log(p@))),
{
    let pp = CompressedRistretto(*p).decompress().unwrap();
    (Scalar::from_bits(*s) * pp).compress().to_bytes()
}

/// Relies on `RistrettoPoint::default` of curve25519-dalek: the identity element.
#[verifier::external_body]
fn point_identity() -> (r: [u8; 32])
    ensures
        r@ == compressed_point(0),
        encodes_point(r@, 0),
{
    RistrettoPoint::default().compress().to_bytes()
}

/// Relies on `RISTRETTO_BASEPOINT_POINT` of curve25519-dalek: the generator `G`.
#[verifier::external_body]
fn point_base() -> (r: [u8; 32])
    ensures
        r@ == compressed_point(1),
        encodes_point(r@, 1),
{
    RISTRETTO_BASEPOINT_POINT.compress().to_bytes()
}

// ---------------------------------------------------------------------------------------------
// Base64 of the base64 crate
// ---------------------------------------------------------------------------------------------

/// The padded standard base64 text of a byte string.
pub uninterp spec fn base64_text(b: Seq<u8>) -> Seq<char>;

/// What the padded standard base64 decoder makes of a text: `None` where it rejects it.
pub uninterp spec fn base64_bytes(s: Seq<char>) -> Option<Seq<u8>>;

/// Relies on `base64::encode`: the padded standard base64 text, which decodes back to `b`.
#[verifier::external_body]
fn b64_encode(b: &[u8]) -> (r: String)
    ensures
        r@ == base64_text(b@),
        base64_bytes(r@) == Some(b@),
{
    base64::encode(b)
}

/// Relies on `base64::decode`: the decoded bytes, or `None` on malformed input.
#[verifier::external_body]
fn b64_decode(s: &str) -> (r: Option<Vec<u8>>)
    ensures
        match r {
            Some(v) => base64_bytes(s@) == Some(v@),
            None => base64_bytes(s@) is None,
        },
{
    base64::decode(s).ok()
}

/// The scalar encoding that base64 text `s` carries: the first 32 decoded bytes, where
/// there are at least 32 and they denote an integer below the group order.
pub open spec fn decoded_scalar(s: Seq<char>) -> Option<Seq<u8>> {
    match base64_bytes(s) {
        Some(d) => if d.len() >= 32 && le_nat(d.subrange(0, 32)) < group_order() {
            Some(d.subrange(0, 32))
        } else {
            None
        },
        None => None,
    }
}

/// The point encoding that base64 text `s` carries: the first 32 decoded bytes, where
/// there are at least 32 and they are the canonical encoding of a group element.
pub open spec fn decoded_point(s: Seq<char>) -> Option<Seq<u8>> {
    match base64_bytes(s) {
        Some(d) => if d.len() >= 32 && is_point(d.subrange(0, 32)) {
            Some(d.subrange(0, 32))
        } else {
            None
        },
        None => None,
    }
}

// ---------------------------------------------------------------------------------------------
// Byte helpers
// ---------------------------------------------------------------------------------------------

pub proof fn lemma_le_nat_injective(a: Seq<u8>, b: Seq<u8>)
    requires
        a.len() == b.len(),
        le_nat(a) == le_nat(b),
    ensures
        a == b,
    decreases a.len(),
{
    if a.len() > 0 {
        let ra = le_nat(a.drop_first());
        let rb = le_nat(b.drop_first());
        assert(a[0] as nat + 256 * ra == b[0] as nat + 256 * rb);
        vstd::arithmetic::div_mod::lemma_fundamental_div_mod_converse(
            le_nat(a) as int, 256, ra as int, a[0] as int);
        vstd::arithmetic::div_mod::lemma_fundamental_div_mod_converse(
            le_nat(b) as int, 256, rb as int, b[0] as int);
        lemma_le_nat_injective(a.drop_first(), b.drop_first());
        assert(a == seq![a[0]] + a.drop_first());
        assert(b == seq![b[0]] + b.drop_first());
    }
}

/// The first 32 bytes of `v`, as an array.
pub(crate) fn first32(v: &[u8]) -> (r: [u8; 32])
    requires
        v@.len() >= 32,
    ensures
        r@ == v@.subrange(0, 32),
{
    let mut r = [0u8; 32];
    let mut i: usize = 0;
    while i < 32
        invariant
            i <= 32,
            v@.len() >= 32,
            r@.len() == 32,
            forall|j: int| 0 <= j < i ==> r@[j] == v@[j],
        decreases 32 - i,
    {
        r[i] = v[i];
        i += 1;
    }
    assert(r@ == v@.subrange(0, 32));
    r
}

/// Byte-wise equality of two 32-byte arrays.
pub(crate) fn bytes32_eq(a: &[u8; 32], b: &[u8; 32]) -> (r: bool)
    ensures
        r == (a@ == b@),
{
    let mut i: usize = 0;
    while i < 32
        invariant
            i <= 32,
            a@.len() == 32,
            b@.len() == 32,
            forall|j: int| 0 <= j < i ==> a@[j] == b@[j],
        decreases 32 - i,
    {
        if a[i] != b[i] {
            return false;
        }
        i += 1;
    }
    assert(a@ == b@);
    true
}

// ---------------------------------------------------------------------------------------------
// KeySize
// ---------------------------------------------------------------------------------------------

/// The key sizes, in bits, that a record's reference may declare.
#[derive(Clone, Copy, Debug, PartialEq, Eq, Structural)]
pub enum KeySize {
    S128,
    S192,
    S256,
    S512,
}

impl KeySize {
    pub open spec fn bits(self) -> nat {
        match self {
            KeySize::S128 => 128,
            KeySize::S192 => 192,
            KeySize::S256 => 256,
            KeySize::S512 => 512,
        }
    }

    /// The size in bits.
    pub fn size(&self) -> (r: usize)
        ensures
            r == self.bits(),
    {
        match self {
            KeySize::S128 => 128,
            KeySize::S192 => 192,
            KeySize::S256 => 256,
            KeySize::S512 => 512,
        }
    }
}

// ---------------------------------------------------------------------------------------------
// SecretKey
// ---------------------------------------------------------------------------------------------

/// An element of the scalar field, held as its canonical 32-byte little-endian encoding.
#[derive(Clone, Copy, Debug)]
pub struct SecretKey {
    bytes: [u8; 32],
}

impl View for SecretKey {
    type V = nat;

    closed spec fn view(&self) -> nat {
        le_nat(self.bytes@) % group_order()
    }
}

impl SecretKey {
    #[verifier::type_invariant]
    spec fn canonical(self) -> bool {
        le_nat(self.bytes@) < group_order()
    }

    /// The canonical 32-byte little-endian encoding.
    pub closed spec fn encoding(self) -> Seq<u8> {
        self.bytes@
    }

    /// A secret key is reduced.
    pub proof fn lemma_reduced(self)
        ensures
            self@ < group_order(),
    {
        lemma_mod_bound(le_nat(self.bytes@) as int, group_order() as int);
    }

    /// Under the invariant, the view is the number that the encoding denotes.
    proof fn lemma_denotes(self)
        requires
            self.canonical(),
        ensures
            self@ == le_nat(self.bytes@),
            self.bytes@.len() == 32,
    {
        lemma_small_mod(le_nat(self.bytes@), group_order());
    }

    /// A uniformly distributed scalar: 64 random bytes reduced modulo the group order.
    pub fn rand() -> (r: SecretKey) {
        let wide = crate::rand(64);
        SecretKey::from_hash(wide.as_slice())
    }

    pub fn zero() -> (r: SecretKey)
        ensures
            r@ == 0,
    {
        SecretKey::from_u64(0)
    }

    pub fn one() -> (r: SecretKey)
        ensures
            r@ == 1,
    {
        SecretKey::from_u64(1)
    }

    pub fn from_u32(x: u32) -> (r: SecretKey)
        ensures
            r@ == x as nat,
    {
        SecretKey::from_u64(x as u64)
    }

    pub fn from_u64(x: u64) -> (r: SecretKey)
        ensures
            r@ == x as nat,
    {
        let bytes = scalar_from_u64(x);
        assert(x as nat <= u64::MAX);
        proof { lemma_small_mod(x as nat, group_order()); }
        SecretKey { bytes }
    }

    /// The wide reduction of a 64-byte digest.
    pub fn from_hash(hash: &[u8]) -> (r: SecretKey)
        requires
            hash@.len() == 64,
        ensures
            r@ == le_nat(hash@) % group_order(),
    {
        let bytes = scalar_reduce_wide(hash);
        proof { SecretKey::lemma_result(bytes@, le_nat(hash@) % group_order()); }
        SecretKey { bytes }
    }

    /// A canonical encoding of `v` makes a secret key whose view is `v`.
    proof fn lemma_result(b: Seq<u8>, v: nat)
        requires
            le_nat(b) == v,
            v < group_order(),
        ensures
            le_nat(b) % group_order() == v,
    {
        lemma_small_mod(v, group_order());
    }

    /// The multiplicative inverse; zero has none.
    pub fn invert(&self) -> (r: SecretKey)
        requires
            self@ != 0,
        ensures
            is_inverse(self@, r@),
    {
        proof {
            use_type_invariant(self);
            self.lemma_denotes();
        }
        let bytes = scalar_invert(&self.bytes);
        proof { lemma_small_mod(le_nat(bytes@), group_order()); }
        SecretKey { bytes }
    }

    pub fn add(&self, rhs: &SecretKey) -> (r: SecretKey)
        ensures
            r@ == fadd(self@, rhs@),
    {
        proof {
            use_type_invariant(self);
            use_type_invariant(rhs);
            self.lemma_denotes();
            rhs.lemma_denotes();
            lemma_fadd_bound(self@, rhs@);
        }
        let bytes = scalar_add(&self.bytes, &rhs.bytes);
        proof { SecretKey::lemma_result(bytes@, fadd(self@, rhs@)); }
        SecretKey { bytes }
    }

    pub fn sub(&self, rhs: &SecretKey) -> (r: SecretKey)
        ensures
            r@ == fsub(self@, rhs@),
    {
        proof {
            use_type_invariant(self);
            use_type_invariant(rhs);
            self.lemma_denotes();
            rhs.lemma_denotes();
            lemma_fadd_bound(self@, fneg(rhs@));
        }
        let bytes = scalar_sub(&self.bytes, &rhs.bytes);
        proof { SecretKey::lemma_result(bytes@, fsub(self@, rhs@)); }
        SecretKey { bytes }
    }

    pub fn mul(&self, rhs: &SecretKey) -> (r: SecretKey)
        ensures
            r@ == fmul(self@, rhs@),
    {
        proof {
            use_type_invariant(self);
            use_type_invariant(rhs);
            self.lemma_denotes();
            rhs.lemma_denotes();
            lemma_fadd_bound(self@, rhs@);
        }
        let bytes = scalar_mul(&self.bytes, &rhs.bytes);
        proof { SecretKey::lemma_result(bytes@, fmul(self@, rhs@)); }
        SecretKey { bytes }
    }

    pub fn neg(&self) -> (r: SecretKey)
        ensures
            r@ == fneg(self@),
    {
        proof {
            use_type_invariant(self);
            self.lemma_denotes();
            lemma_fadd_bound(self@, 0);
        }
        let bytes = scalar_neg(&self.bytes);
        proof { SecretKey::lemma_result(bytes@, fneg(self@)); }
        SecretKey { bytes }
    }

    pub fn add_assign(&mut self, rhs: &SecretKey)
        ensures
            final(self)@ == fadd(old(self)@, rhs@),
    {
        *self = self.add(rhs);
    }

    pub fn sub_assign(&mut self, rhs: &SecretKey)
        ensures
            final(self)@ == fsub(old(self)@, rhs@),
    {
        *self = self.sub(rhs);
    }

    pub fn mul_assign(&mut self, rhs: &SecretKey)
        ensures
            final(self)@ == fmul(old(self)@, rhs@),
    {
        *self = self.mul(rhs);
    }

    /// Scalar multiplication `self·p`.
    pub fn mul_point(&self, p: &PublicKey) -> (r: PublicKey)
        ensures
            r@ == fmul(self@, p@),
    {
        p.mul(self)
    }

    /// Base64 of the canonical encoding; decoding the text gives the encoding back.
    pub fn encode(&self) -> (r: String)
        ensures
            r@ == base64_text(self.encoding()),
            decoded_scalar(r@) == Some(self.encoding()),
    {
        proof { use_type_invariant(self); }
        let r = b64_encode(&self.bytes);
        assert(self.bytes@.subrange(0, 32) == self.bytes@);
        r
    }

    /// Parses the base64 text of a canonical encoding; bytes past the first 32 are ignored.
    pub fn decode(value: &str) -> (r: Result<SecretKey, FdcError>)
        ensures
            match decoded_scalar(value@) {
                None => r == Err::<SecretKey, FdcError>(FdcError::BadEncoding),
                Some(b) => r is Ok && r->Ok_0.encoding() == b,
            },
    {
        let data = match b64_decode(value) {
            Some(d) => d,
            None => return Err(FdcError::BadEncoding),
        };
        if data.len() < 32 {
            return Err(FdcError::BadEncoding);
        }
        let bytes = first32(data.as_slice());
        if !scalar_is_canonical(&bytes) {
            return Err(FdcError::BadEncoding);
        }
        Ok(SecretKey { bytes })
    }

    /// The canonical 32-byte little-endian encoding.
    pub fn as_bytes(&self) -> (r: &[u8; 32])
        ensures
            r@ == self.encoding(),
    {
        &self.bytes
    }
}

impl PartialEq for SecretKey {
    fn eq(&self, o: &SecretKey) -> (r: bool) {
        proof {
            use_type_invariant(self);
            use_type_invariant(o);
            self.lemma_denotes();
            o.lemma_denotes();
            if le_nat(self.bytes@) == le_nat(o.bytes@) {
                lemma_le_nat_injective(self.bytes@, o.bytes@);
            }
        }
        bytes32_eq(&self.bytes, &o.bytes)
    }
}

impl vstd::std_specs::cmp::PartialEqSpecImpl for SecretKey {
    open spec fn obeys_eq_spec() -> bool {
        true
    }

    open spec fn eq_spec(&self, o: &SecretKey) -> bool {
        self@ == o@
    }
}

impl Eq for SecretKey {
}

// ---------------------------------------------------------------------------------------------
// PublicKey
// ---------------------------------------------------------------------------------------------

/// An element of the Ristretto group, held as its compressed 32-byte encoding. Its view is
/// its discrete logarithm with respect to the generator `G`.
#[derive(Clone, Copy, Debug)]
pub struct PublicKey {
    bytes: [u8; 32],
}

impl View for PublicKey {
    type V = nat;

    closed spec fn view(&self) -> nat {
        point_log(self.bytes@) % group_order()
    }
}

impl PublicKey {
    #[verifier::type_invariant]
    spec fn valid(self) -> bool {
        is_point(self.bytes@)
    }

    /// The compressed 32-byte encoding.
    pub closed spec fn encoding(self) -> Seq<u8> {
        self.bytes@
    }

    /// A public key's logarithm is reduced.
    pub proof fn lemma_reduced(self)
        ensures
            self@ < group_order(),
    {
        lemma_mod_bound(point_log(self.bytes@) as int, group_order() as int);
    }

    /// Under the invariant, the view is the logarithm that the encoding carries.
    proof fn lemma_denotes(self)
        requires
            self.valid(),
        ensures
            encodes_point(self.bytes@, self@),
    {
        lemma_small_mod(point_log(self.bytes@), group_order());
    }

    /// An encoding of the element of logarithm `x` makes a public key whose view is `x`.
    proof fn lemma_result(b: Seq<u8>, x: nat)
        requires
            encodes_point(b, x),
        ensures
            is_point(b),
            point_log(b) % group_order() == x,
    {
        lemma_point_log(b, x);
        lemma_small_mod(x, group_order());
    }

    /// The identity element.
    pub fn zero() -> (r: PublicKey)
        ensures
            r@ == 0,
    {
        let bytes = point_identity();
        proof { PublicKey::lemma_result(bytes@, 0); }
        PublicKey { bytes }
    }

    /// The generator `G`.
    pub fn base() -> (r: PublicKey)
        ensures
            r@ == 1,
    {
        let bytes = point_base();
        proof { PublicKey::lemma_result(bytes@, 1); }
        PublicKey { bytes }
    }

    pub fn add(&self, rhs: &PublicKey) -> (r: PublicKey)
        ensures
            r@ == fadd(self@, rhs@),
    {
        proof {
            use_type_invariant(self);
            use_type_invariant(rhs);
            self.lemma_denotes();
            rhs.lemma_denotes();
        }
        let bytes = point_add(&self.bytes, &rhs.bytes);
        proof { PublicKey::lemma_result(bytes@, fadd(self@, rhs@)); }
        PublicKey { bytes }
    }

    pub fn sub(&self, rhs: &PublicKey) -> (r: PublicKey)
        ensures
            r@ == fsub(self@, rhs@),
    {
        proof {
            use_type_invariant(self);
            use_type_invariant(rhs);
            self.lemma_denotes();
            rhs.lemma_denotes();
        }
        let bytes = point_sub(&self.bytes, &rhs.bytes);
        proof { PublicKey::lemma_result(bytes@, fsub(self@, rhs@)); }
        PublicKey { bytes }
    }

    pub fn add_assign(&mut self, rhs: &PublicKey)
        ensures
            final(self)@ == fadd(old(self)@, rhs@),
    {
        *self = self.add(rhs);
    }

    pub fn sub_assign(&mut self, rhs: &PublicKey)
        ensures
            final(self)@ == fsub(old(self)@, rhs@),
    {
        *self = self.sub(rhs);
    }

    /// Scalar multiplication `s·self`.
    pub fn mul(&self, s: &SecretKey) -> (r: PublicKey)
        ensures
            r@ == fmul(s@, self@),
    {
        proof {
            use_type_invariant(self);
            use_type_invariant(s);
            self.lemma_denotes();
            s.lemma_denotes();
        }
        let bytes = point_mul(&s.bytes, &self.bytes);
        proof { PublicKey::lemma_result(bytes@, fmul(s@, self@)); }
        PublicKey { bytes }
    }

    /// Base64 of the compressed encoding; decoding the text gives the encoding back.
    pub fn encode(&self) -> (r: String)
        ensures
            r@ == base64_text(self.encoding()),
            decoded_point(r@) == Some(self.encoding()),
    {
        proof { use_type_invariant(self); }
        let r = b64_encode(&self.bytes);
        assert(self.bytes@.subrange(0, 32) == self.bytes@);
        r
    }

    /// Parses the base64 text of a compressed encoding; bytes past the first 32 are ignored.
    pub fn decode(value: &str) -> (r: Result<PublicKey, FdcError>)
        ensures
            match decoded_point(value@) {
                None => r == Err::<PublicKey, FdcError>(FdcError::BadEncoding),
                Some(b) => r is Ok && r->Ok_0.encoding() == b,
            },
    {
        let data = match b64_decode(value) {
            Some(d) => d,
            None => return Err(FdcError::BadEncoding),
        };
        if data.len() < 32 {
            return Err(FdcError::BadEncoding);
        }
        let bytes = first32(data.as_slice());
        if !point_is_valid(&bytes) {
            return Err(FdcError::BadEncoding);
        }
        Ok(PublicKey { bytes })
    }

    /// Builds a key from a compressed encoding, if it is one.
    pub fn from_bytes(b: &[u8; 32]) -> (r: Option<PublicKey>)
        ensures
            r is Some <==> is_point(b@),
            r is Some ==> r->Some_0.encoding() == b@,
    {
        if point_is_valid(b) {
            Some(PublicKey { bytes: *b })
        } else {
            None
        }
    }

    /// The compressed 32-byte encoding.
    pub fn to_bytes(&self) -> (r: [u8; 32])
        ensures
            r@ == self.encoding(),
            r@ == compressed_point(self@),
    {
        proof {
            use_type_invariant(self);
            self.lemma_denotes();
        }
        self.bytes
    }
}

impl PartialEq for PublicKey {
    fn eq(&self, o: &PublicKey) -> (r: bool) {
        proof {
            use_type_invariant(self);
            use_type_invariant(o);
            self.lemma_denotes();
            o.lemma_denotes();
        }
        bytes32_eq(&self.bytes, &o.bytes)
    }
}

impl vstd::std_specs::cmp::PartialEqSpecImpl for PublicKey {
    open spec fn obeys_eq_spec() -> bool {
        true
    }

    open spec fn eq_spec(&self, o: &PublicKey) -> bool {
        self@ == o@
    }
}

impl Eq for PublicKey {
}

// ---------------------------------------------------------------------------------------------
// KeyPair
// ---------------------------------------------------------------------------------------------

/// A secret scalar `s` and its public image `S = s·G`.
#[derive(Clone, Copy, Debug)]
pub struct KeyPair {
    pub secret: SecretKey,
    pub key: PublicKey,
}

impl KeyPair {
    /// The public half is the image of the secret half.
    pub open spec fn consistent(self) -> bool {
        self.key@ == self.secret@
    }

    pub fn rand() -> (r: KeyPair)
        ensures
            r.consistent(),
    {
        let secret = SecretKey::rand();
        let key = secret.mul_point(&PublicKey::base());
        proof {
            secret.lemma_reduced();
            lemma_small_mod(secret@, group_order());
        }
        KeyPair { secret, key }
    }

    /// Parses both halves; their agreement is not checked.
    pub fn load(secret: &str, key: &str) -> (r: Result<KeyPair, FdcError>)
        ensures
            match (decoded_scalar(secret@), decoded_point(key@)) {
                (Some(s), Some(k)) => r is Ok && r->Ok_0.secret.encoding() == s
                    && r->Ok_0.key.encoding() == k,
                _ => r == Err::<KeyPair, FdcError>(FdcError::BadEncoding),
            },
    {
        let secret = SecretKey::decode(secret)?;
        let key = PublicKey::decode(key)?;
        Ok(KeyPair { secret, key })
    }
}

} // verus!

verus! {

// ---------------------------------------------------------------------------------------------
// LambdaKey
// ---------------------------------------------------------------------------------------------

/// The symmetric keying material of one record: 64 bytes, `SHA-512(encode(α) ‖ salt)`.
#[derive(Debug)]
pub struct LambdaKey {
    key: Vec<u8>,
}

impl View for LambdaKey {
    type V = Seq<u8>;

    closed spec fn view(&self) -> Seq<u8> {
        self.key@
    }
}

/// The lambda that the agreement point with encoding `alpha` and the salt `salt` give.
pub open spec fn lambda_of(alpha: Seq<u8>, salt: Seq<u8>) -> Seq<u8> {
    sha512_digest(alpha + salt)
}

impl LambdaKey {
    #[verifier::type_invariant]
    spec fn full(self) -> bool {
        self.key@.len() == 64
    }

    pub fn new(alpha: &PublicKey, salt: &[u8]) -> (r: LambdaKey)
        ensures
            r@ == lambda_of(alpha.encoding(), salt@),
            r@ == lambda_of(compressed_point(alpha@), salt@),
    {
        let a = alpha.to_bytes();
        let mut m: Vec<u8> = Vec::new();
        append_bytes(&mut m, a.as_slice());
        append_bytes(&mut m, salt);
        LambdaKey { key: sha512(m.as_slice()) }
    }

    /// Keying material of 64 bytes, such as a decoded lambda.
    pub fn from_bytes(key: Vec<u8>) -> (r: Option<LambdaKey>)
        ensures
            r is Some <==> key@.len() == 64,
            r is Some ==> r->Some_0@ == key@,
    {
        if key.len() == 64 {
            Some(LambdaKey { key })
        } else {
            None
        }
    }

    /// All 64 bytes.
    pub fn as_slice(&self) -> (r: &[u8])
        ensures
            r@ == self@,
            r@.len() == 64,
    {
        proof { use_type_invariant(self); }
        self.key.as_slice()
    }

    /// A copy of the key.
    pub fn duplicate(&self) -> (r: LambdaKey)
        ensures
            r@ == self@,
    {
        proof { use_type_invariant(self); }
        let mut key: Vec<u8> = Vec::new();
        append_bytes(&mut key, self.key.as_slice());
        LambdaKey { key }
    }

    /// The first `n` bytes.
    fn prefix(&self, n: usize) -> (r: &[u8])
        requires
            n <= 64,
        ensures
            r@ == self@.subrange(0, n as int),
            r@.len() == n,
    {
        proof { use_type_invariant(self); }
        vstd::slice::slice_subrange(self.key.as_slice(), 0, n)
    }

    /// The AES-128 key: the first 16 bytes.
    pub fn k128(&self) -> (r: &[u8])
        ensures
            r@ == self@.subrange(0, 16),
            r@.len() == 16,
    {
        self.prefix(16)
    }

    /// The AES-192 key: the first 24 bytes.
    pub fn k192(&self) -> (r: &[u8])
        ensures
            r@ == self@.subrange(0, 24),
            r@.len() == 24,
    {
        self.prefix(24)
    }

    /// The AES-256 key: the first 32 bytes.
    pub fn k256(&self) -> (r: &[u8])
        ensures
            r@ == self@.subrange(0, 32),
            r@.len() == 32,
    {
        self.prefix(32)
    }

    /// All 64 bytes of keying material.
    pub fn k512(&self) -> (r: &[u8])
        ensures
            r@ == self@.subrange(0, 64),
            r@ == self@,
    {
        proof { use_type_invariant(self); }
        let r = self.prefix(64);
        assert(self@.subrange(0, 64) == self@);
        r
    }
}

/// Byte-wise equality of two byte strings.
pub(crate) fn bytes_eq(a: &[u8], b: &[u8]) -> (r: bool)
    ensures
        r == (a@ == b@),
{
    if a.len() != b.len() {
        return false;
    }
    let mut i: usize = 0;
    while i < a.len()
        invariant
            i <= a@.len(),
            a@.len() == b@.len(),
            forall|j: int| 0 <= j < i ==> a@[j] == b@[j],
        decreases a@.len() - i,
    {
        if a[i] != b[i] {
            return false;
        }
        i += 1;
    }
    assert(a@ == b@);
    true
}

impl PartialEq for LambdaKey {
    fn eq(&self, o: &LambdaKey) -> (r: bool) {
        bytes_eq(self.key.as_slice(), o.key.as_slice())
    }
}

impl vstd::std_specs::cmp::PartialEqSpecImpl for LambdaKey {
    open spec fn obeys_eq_spec() -> bool {
        true
    }

    open spec fn eq_spec(&self, o: &LambdaKey) -> bool {
        self@ == o@
    }
}

impl Eq for LambdaKey {
}

impl Clone for LambdaKey {
    fn clone(&self) -> (r: LambdaKey) {
        self.duplicate()
    }
}

} // verus!
