use vstd::prelude::*;

verus! {

/// The kinds of failure that the core reports.
#[derive(Debug, Clone, Copy, PartialEq, Eq, Structural)]
pub enum FdcError {
    /// Base64 or binary encoding malformed, not a group element, or a non-canonical scalar.
    BadEncoding,
    /// A Schnorr signature was rejected.
    InvalidSignature,
    /// A record's previous hash does not match the chain's last hash.
    BrokenChain,
    /// A head record does not carry the subject's salt.
    NotHeadRecord,
    /// Decryption, or the decoding of the decrypted payload, failed.
    DecryptFailed,
    /// Shares with different indices were combined.
    BadShare,
}

impl FdcError {
    /// The description of each kind of failure.
    pub open spec fn description(self) -> Seq<char> {
        match self {
            FdcError::BadEncoding => "bad encoding"@,
            FdcError::InvalidSignature => "invalid signature"@,
            FdcError::BrokenChain => "broken chain"@,
            FdcError::NotHeadRecord => "not a head record"@,
            FdcError::DecryptFailed => "decryption failed"@,
            FdcError::BadShare => "bad share"@,
        }
    }

    /// A short description of the failure.
    pub fn message(&self) -> (r: String)
        ensures
            r@ == self.description(),
    {
        match self {
            FdcError::BadEncoding => String::from_str("bad encoding"),
            FdcError::InvalidSignature => String::from_str("invalid signature"),
            FdcError::BrokenChain => String::from_str("broken chain"),
            FdcError::NotHeadRecord => String::from_str("not a head record"),
            FdcError::DecryptFailed => String::from_str("decryption failed"),
            FdcError::BadShare => String::from_str("bad share"),
        }
    }
}

} // verus!
