use vstd::prelude::*;
use sha2::{Digest, Sha512};

verus! {

/// The SHA-512 digest of a byte string.
pub uninterp spec fn sha512_digest(m: Seq<u8>) -> Seq<u8>;

/// Relies on `Sha512::digest` of sha2: the 64-byte SHA-512 digest of `m`.
#[verifier::external_body]
pub(crate) fn sha512(m: &[u8]) -> (r: Vec<u8>)
    ensures
        r@ == sha512_digest(m@),
        r@.len() == 64,
{
    Sha512::digest(m).to_vec()
}

/// Appends the bytes of `b` to `v`.
pub(crate) fn append_bytes(v: &mut Vec<u8>, b: &[u8])
    ensures
        final(v)@ == old(v)@ + b@,
{
    let mut i: usize = 0;
    while i < b.len()
        invariant
            i <= b@.len(),
            v@ == old(v)@ + b@.subrange(0, i as int),
        decreases b@.len() - i,
    {
        v.push(b[i]);
        i += 1;
        assert(b@.subrange(0, i as int) == b@.subrange(0, i - 1) + seq![b@[i - 1]]);
    }
    assert(b@.subrange(0, b@.len() as int) == b@);
}

/// The digest of the concatenation `a ‖ b`.
pub(crate) fn sha512_pair(a: &[u8], b: &[u8]) -> (r: Vec<u8>)
    ensures
        r@ == sha512_digest(a@ + b@),
        r@.len() == 64,
{
    let mut m: Vec<u8> = Vec::new();
    append_bytes(&mut m, a);
    append_bytes(&mut m, b);
    assert(m@ == a@ + b@);
    sha512(m.as_slice())
}

} // verus!
