//! The cryptographic core of a federated data-chaining system: the Ristretto group and its
//! scalar field, Shamir sharing with Feldman-style public verification, Schnorr signatures,
//! AES-CBC payload encryption under per-record lambda keys, and the signed, hash-linked
//! record chain of a subject, with recovery of its history from the master secret.

use vstd::prelude::*;

pub mod chain;
pub mod codec;
pub mod encrypt;
pub mod error;
pub mod field;
pub mod hash;
pub mod keys;
pub mod laws;
pub mod records;
pub mod shares;
pub mod signatures;

verus! {

/// Relies on `rand::random::<u8>`: a byte from the thread-local cryptographic generator.
#[verifier::external_body]
fn random_byte() -> (r: u8) {
    rand::random::<u8>()
}

/// `size` fresh random bytes.
pub fn rand(size: usize) -> (r: Vec<u8>)
    ensures
        r@.len() == size,
{
    let mut v: Vec<u8> = Vec::with_capacity(size);
    let mut i: usize = 0;
    while i < size
        invariant
            i <= size,
            v@.len() == i,
        decreases size - i,
    {
        v.push(random_byte());
        i += 1;
    }
    v
}

} // verus!
