use vstd::prelude::*;
use crypto::aessafe::{
    AesSafe128Decryptor, AesSafe128Encryptor, AesSafe192Decryptor, AesSafe192Encryptor,
    AesSafe256Decryptor, AesSafe256Encryptor,
};
use crypto::symmetriccipher::{BlockDecryptor, BlockEncryptor};

use crate::error::FdcError;
use crate::keys::LambdaKey;

verus! {

/// The supported encryption schemes: AES in CBC mode with PKCS#7 padding.
#[derive(Clone, Copy, Debug, PartialEq, Eq, Structural)]
pub enum EncryptScheme {
    AesCbc128,
    AesCbc192,
    AesCbc256,
}

impl EncryptScheme {
    /// The AES key length in bytes.
    pub open spec fn key_len(self) -> nat {
        match self {
            EncryptScheme::AesCbc128 => 16,
            EncryptScheme::AesCbc192 => 24,
            EncryptScheme::AesCbc256 => 32,
        }
    }
}

/// The AES key that `scheme` takes from the lambda bytes `lambda`.
pub open spec fn scheme_key(scheme: EncryptScheme, lambda: Seq<u8>) -> Seq<u8> {
    lambda.subrange(0, scheme.key_len() as int)
}

/// AES encryption of one 16-byte block; the key length selects AES-128, -192 or -256.
pub uninterp spec fn aes_encrypted(key: Seq<u8>, block: Seq<u8>) -> Seq<u8>;

/// AES decryption of one 16-byte block; the key length selects AES-128, -192 or -256.
pub uninterp spec fn aes_decrypted(key: Seq<u8>, block: Seq<u8>) -> Seq<u8>;

/// Relies on `encrypt_block` of rust-crypto's `AesSafe128Encryptor`, `AesSafe192Encryptor`
/// and `AesSafe256Encryptor`: the AES permutation of one block, which decryption undoes.
#[verifier::external_body]
fn aes_encrypt_block(scheme: EncryptScheme, key: &[u8], block: &[u8]) -> (r: Vec<u8>)
    requires
        key@.len() == scheme.key_len(),
        block@.len() == 16,
    ensures
        r@ == aes_encrypted(key@, block@),
        r@.len() == 16,
        aes_decrypted(key@, r@) == block@,
{
    let mut out = [0u8; 16];
    match scheme {
        EncryptScheme::AesCbc128 => AesSafe128Encryptor::new(key).encrypt_block(block, &mut out),
        EncryptScheme::AesCbc192 => AesSafe192Encryptor::new(key).encrypt_block(block, &mut out),
        EncryptScheme::AesCbc256 => AesSafe256Encryptor::new(key).encrypt_block(block, &mut out),
    }
    out.to_vec()
}

/// Relies on `decrypt_block` of rust-crypto's `AesSafe128Decryptor`, `AesSafe192Decryptor`
/// and `AesSafe256Decryptor`: the inverse AES permutation of one block.
#[verifier::external_body]
fn aes_decrypt_block(scheme: EncryptScheme, key: &[u8], block: &[u8]) -> (r: Vec<u8>)
    requires
        key@.len() == scheme.key_len(),
        block@.len() == 16,
    ensures
        r@ == aes_decrypted(key@, block@),
        r@.len() == 16,
{
    let mut out = [0u8; 16];
    match scheme {
        EncryptScheme::AesCbc128 => AesSafe128Decryptor::new(key).decrypt_block(block, &mut out),
        EncryptScheme::AesCbc192 => AesSafe192Decryptor::new(key).decrypt_block(block, &mut out),
        EncryptScheme::AesCbc256 => AesSafe256Decryptor::new(key).decrypt_block(block, &mut out),
    }
    out.to_vec()
}

// ---------------------------------------------------------------------------------------------
// The framing: IV ‖ CBC(PKCS#7(m))
// ---------------------------------------------------------------------------------------------

/// Block `b` of `s`: bytes `16·b .. 16·b + 16`.
pub open spec fn block(s: Seq<u8>, b: int) -> Seq<u8> {
    s.subrange(16 * b, 16 * b + 16)
}

/// The padded plaintext that CBC decryption makes of `ct`, whose first block is the IV:
/// plaintext block `b` is `D(ct block b+1) ⊕ ct block b`.
pub open spec fn cbc_plain(key: Seq<u8>, ct: Seq<u8>) -> Seq<u8> {
    Seq::new((ct.len() - 16) as nat, |j: int|
        aes_decrypted(key, block(ct, j / 16 + 1))[j % 16] ^ block(ct, j / 16)[j % 16])
}

/// PKCS#7 padding to a whole number of 16-byte blocks.
pub open spec fn pkcs7_pad(m: Seq<u8>) -> Seq<u8> {
    let n = 16 - m.len() % 16;
    m + Seq::new(n as nat, |i: int| n as u8)
}

/// Removal of PKCS#7 padding; `None` where the padding is malformed.
pub open spec fn pkcs7_unpad(p: Seq<u8>) -> Option<Seq<u8>> {
    if p.len() == 0 {
        None
    } else {
        let n = p.last() as int;
        if n == 0 || n > 16 || n > p.len() {
            None
        } else if forall|i: int| p.len() - n <= i < p.len() ==> p[i] == n as u8 {
            Some(p.subrange(0, p.len() - n))
        } else {
            None
        }
    }
}

/// What decryption makes of the framed ciphertext `ct` under the AES key `key`.
pub open spec fn cbc_open(key: Seq<u8>, ct: Seq<u8>) -> Option<Seq<u8>> {
    if ct.len() >= 32 && ct.len() % 16 == 0 {
        pkcs7_unpad(cbc_plain(key, ct))
    } else {
        None
    }
}

pub proof fn lemma_xor_cancel(a: u8, b: u8)
    ensures
        (a ^ b) ^ b == a,
{
    assert((a ^ b) ^ b == a) by (bit_vector);
}

pub proof fn lemma_unpad_pad(m: Seq<u8>)
    ensures
        pkcs7_unpad(pkcs7_pad(m)) == Some(m),
        pkcs7_pad(m).len() % 16 == 0,
        pkcs7_pad(m).len() >= 16,
{
    let p = pkcs7_pad(m);
    let n = 16 - m.len() % 16;
    assert(p.last() == n as u8);
    assert(p.subrange(0, p.len() - n) == m);
}

/// The PKCS#7-padded copy of `m`.
fn pad(m: &[u8]) -> (r: Vec<u8>)
    requires
        m@.len() + 16 <= usize::MAX,
    ensures
        r@ == pkcs7_pad(m@),
{
    let n: usize = 16 - m.len() % 16;
    let mut r: Vec<u8> = Vec::new();
    crate::hash::append_bytes(&mut r, m);
    let mut k: usize = 0;
    while k < n
        invariant
            k <= n,
            n == 16 - m@.len() % 16,
            r@ == m@ + Seq::new(k as nat, |i: int| n as u8),
        decreases n - k,
    {
        r.push(n as u8);
        k += 1;
        assert(r@ == m@ + Seq::new(k as nat, |i: int| n as u8));
    }
    r
}

/// The bytes of `b` XOR-ed with block `blk` of `prev`.
fn xor_block(b: &[u8], prev: &[u8], blk: usize) -> (r: Vec<u8>)
    requires
        b@.len() >= 16,
        16 * blk + 16 <= prev@.len(),
        prev@.len() <= usize::MAX,
    ensures
        r@.len() == 16,
        forall|i: int| 0 <= i < 16 ==> r@[i] == b@[i] ^ prev@[16 * blk + i],
{
    let mut r: Vec<u8> = Vec::with_capacity(16);
    let mut i: usize = 0;
    while i < 16
        invariant
            i <= 16,
            b@.len() >= 16,
            16 * blk + 16 <= prev@.len(),
            prev@.len() <= usize::MAX,
            r@.len() == i,
            forall|j: int| 0 <= j < i ==> r@[j] == b@[j] ^ prev@[16 * blk + j],
        decreases 16 - i,
    {
        r.push(b[i] ^ prev[16 * blk + i]);
        i += 1;
    }
    r
}

/// Encrypts `data` under the AES key `key` with the given IV: `iv ‖ CBC(PKCS#7(data))`.
pub fn cbc_seal(scheme: EncryptScheme, key: &[u8], iv: &[u8], data: &[u8]) -> (r: Vec<u8>)
    requires
        key@.len() == scheme.key_len(),
        iv@.len() == 16,
        data@.len() + 64 <= usize::MAX,
    ensures
        r@.subrange(0, 16) == iv@,
        r@.len() == 16 + pkcs7_pad(data@).len(),
        cbc_open(key@, r@) == Some(data@),
{
    let p = pad(data);
    proof { lemma_unpad_pad(data@); }
    let nblocks = p.len() / 16;
    let mut out: Vec<u8> = Vec::new();
    crate::hash::append_bytes(&mut out, iv);
    let mut b: usize = 0;
    while b < nblocks
        invariant
            b <= nblocks,
            nblocks * 16 == p@.len(),
            p@ == pkcs7_pad(data@),
            p@.len() <= data@.len() + 16,
            data@.len() + 64 <= usize::MAX,
            key@.len() == scheme.key_len(),
            iv@.len() == 16,
            out@.len() == 16 * (b + 1),
            out@.subrange(0, 16) == iv@,
            forall|j: int| 0 <= j < 16 * b ==> #[trigger] cbc_plain(key@, out@)[j] == p@[j],
        decreases nblocks - b,
    {
        let pb = vstd::slice::slice_subrange(p.as_slice(), 16 * b, 16 * b + 16);
        let x = xor_block(pb, out.as_slice(), b);
        let c = aes_encrypt_block(scheme, key, x.as_slice());
        let ghost old_out = out@;
        crate::hash::append_bytes(&mut out, c.as_slice());
        proof {
            assert forall|j: int| 0 <= j < 16 * (b + 1) implies #[trigger] cbc_plain(key@, out@)[j]
                == p@[j] by {
                let q = j / 16;
                assert(block(out@, q) == block(old_out, q) || q == b);
                if j < 16 * b {
                    assert(q < b);
                    assert(block(out@, q + 1) == block(old_out, q + 1));
                    assert(block(out@, q) == block(old_out, q));
                    assert(cbc_plain(key@, old_out)[j] == p@[j]);
                } else {
                    assert(q == b);
                    assert(block(out@, q + 1) == c@);
                    assert(block(out@, q) == block(old_out, q));
                    let i = j % 16;
                    assert(j == 16 * b + i);
                    assert(x@[i] == pb@[i] ^ old_out[16 * b + i]);
                    lemma_xor_cancel(pb@[i], old_out[16 * b + i]);
                }
            }
            assert(out@.subrange(0, 16) == old_out.subrange(0, 16));
        }
        b += 1;
    }
    proof {
        assert(cbc_plain(key@, out@) =~= p@);
    }
    out
}

/// Decrypts a framed ciphertext under the AES key `key`.
pub fn cbc_unseal(scheme: EncryptScheme, key: &[u8], ct: &[u8]) -> (r: Option<Vec<u8>>)
    requires
        key@.len() == scheme.key_len(),
    ensures
        match cbc_open(key@, ct@) {
            Some(m) => r is Some && r->Some_0@ == m,
            None => r is None,
        },
{
    if ct.len() < 32 || ct.len() % 16 != 0 {
        return None;
    }
    let nblocks = ct.len() / 16 - 1;
    assert(ct@.len() <= usize::MAX);
    let mut p: Vec<u8> = Vec::new();
    let mut b: usize = 0;
    while b < nblocks
        invariant
            b <= nblocks,
            16 * (nblocks + 1) == ct@.len(),
            ct@.len() <= usize::MAX,
            key@.len() == scheme.key_len(),
            p@.len() == 16 * b,
            forall|j: int| 0 <= j < 16 * b ==> p@[j] == #[trigger] cbc_plain(key@, ct@)[j],
        decreases nblocks - b,
    {
        let cb = vstd::slice::slice_subrange(ct, 16 * (b + 1), 16 * (b + 1) + 16);
        let d = aes_decrypt_block(scheme, key, cb);
        let x = xor_block(d.as_slice(), ct, b);
        let ghost old_p = p@;
        crate::hash::append_bytes(&mut p, x.as_slice());
        proof {
            assert forall|j: int| 0 <= j < 16 * (b + 1) implies p@[j] == #[trigger] cbc_plain(
                key@, ct@)[j] by {
                if j >= 16 * b {
                    let i = j % 16;
                    assert(j / 16 == b);
                    assert(block(ct@, b + 1) == cb@);
                    assert(p@[j] == x@[i]);
                }
            }
        }
        b += 1;
    }
    proof {
        assert(p@ =~= cbc_plain(key@, ct@));
    }
    // strip the padding
    let len = p.len();
    let n = p[len - 1] as usize;
    assert(p@.last() == p@[len - 1]);
    if n == 0 || n > 16 || n > len {
        return None;
    }
    let mut k: usize = len - n;
    while k < len
        invariant
            len == p@.len(),
            len - n <= k <= len,
            1 <= n <= 16,
            n <= len,
            n == p@[len - 1] as usize,
            p@ == cbc_plain(key@, ct@),
            ct@.len() >= 32,
            ct@.len() % 16 == 0,
            p@.last() == p@[len - 1],
            forall|i: int| len - n <= i < k ==> p@[i] == n as u8,
        decreases len - k,
    {
        if p[k] != n as u8 {
            assert(!(forall|i: int| p@.len() - n <= i < p@.len() ==> p@[i] == n as u8));
            return None;
        }
        k += 1;
    }
    assert(forall|i: int| p@.len() - n <= i < p@.len() ==> p@[i] == n as u8);
    Some(vstd::slice::slice_to_vec(vstd::slice::slice_subrange(p.as_slice(), 0, len - n)))
}

/// The AES key of `scheme` within the lambda.
fn scheme_key_of(scheme: EncryptScheme, key: &LambdaKey) -> (r: &[u8])
    ensures
        r@ == scheme_key(scheme, key@),
        r@.len() == scheme.key_len(),
{
    match scheme {
        EncryptScheme::AesCbc128 => key.k128(),
        EncryptScheme::AesCbc192 => key.k192(),
        EncryptScheme::AesCbc256 => key.k256(),
    }
}

/// Encrypts `data` under the lambda with a fresh random IV.
pub fn encryptor(scheme: EncryptScheme, key: &LambdaKey, data: &[u8]) -> (r: Vec<u8>)
    requires
        data@.len() + 64 <= usize::MAX,
    ensures
        cbc_open(scheme_key(scheme, key@), r@) == Some(data@),
        r@.len() == 16 + pkcs7_pad(data@).len(),
{
    let iv = crate::rand(16);
    cbc_seal(scheme, scheme_key_of(scheme, key), iv.as_slice(), data)
}

/// Decrypts what `encryptor` produced; fails with `DecryptFailed` on a malformed ciphertext.
pub fn decryptor(scheme: EncryptScheme, key: &LambdaKey, ct: &[u8]) -> (r: Result<Vec<u8>, FdcError>)
    ensures
        match cbc_open(scheme_key(scheme, key@), ct@) {
            Some(m) => r is Ok && r->Ok_0@ == m,
            None => r == Err::<Vec<u8>, FdcError>(FdcError::DecryptFailed),
        },
{
    match cbc_unseal(scheme, scheme_key_of(scheme, key), ct) {
        Some(m) => Ok(m),
        None => Err(FdcError::DecryptFailed),
    }
}

} // verus!
