use vstd::prelude::*;
use std::collections::HashMap;

use crate::error::FdcError;
use crate::field::fmul;
use crate::keys::{bytes_eq, compressed_point, lambda_of, LambdaKey, PublicKey, SecretKey};
use crate::records::{opened, salt, salt_of, RData, RDataView, Record};

verus! {

/// A flat string-keyed configuration; its keys are the transport's concern.
pub struct Config {
    pub values: HashMap<String, String>,
}

/// A transport that opens a session and fetches the caller's chain.
pub trait FdpNetwork: Sized {
    fn connect(secret: &SecretKey, conf: Config) -> Self;

    fn records(&self) -> RecordChain;
}

/// The lambda of a record for the holder of the master secret `e`:
/// `LambdaKey(e·kn, hprev)`, the record's previous hash being its salt.
pub open spec fn record_lambda(rec: Record, e: nat) -> Seq<u8> {
    lambda_of(compressed_point(fmul(e, rec.data.kn@)), rec.hprev@)
}

/// The plaintext of a record for the holder of `e`, or `None` where it does not decrypt.
pub open spec fn record_plain(rec: Record, e: nat) -> Option<RDataView> {
    opened(record_lambda(rec, e), rec.data.ciphertext@)
}

/// A subject's append-only, hash-linked, signed history.
#[derive(Clone, Debug)]
pub struct RecordChain {
    pub id: String,
    pub table: String,
    pub lhash: Vec<u8>,
    pub chain: Vec<Record>,
}

impl RecordChain {
    /// The chain's invariants: the head carries the subject's salt, each record carries the
    /// digest of the one before, `lhash` is the digest of the last, and every signature verifies.
    pub open spec fn valid(self) -> bool {
        &&& self.chain@.len() >= 1
        &&& self.chain@[0].hprev@ == salt_of(self.id@, self.table@)
        &&& forall|k: int| 1 <= k < self.chain@.len() ==> #[trigger] self.chain@[k].hprev@
            == self.chain@[k - 1].digest()
        &&& self.lhash@ == self.chain@.last().digest()
        &&& forall|k: int| 0 <= k < self.chain@.len() ==> #[trigger] self.chain@[k].signature_valid()
    }

    /// Every record decrypts for the holder of `e`, the head carries no previous lambda, and
    /// every other record carries the lambda of the one before.
    pub open spec fn recoverable(self, e: nat) -> bool {
        forall|k: int| 0 <= k < self.chain@.len() ==> {
            let p = #[trigger] record_plain(self.chain@[k], e);
            &&& p is Some
            &&& k == 0 ==> p->Some_0.lprev is None
            &&& k > 0 ==> p->Some_0.lprev == Some(record_lambda(self.chain@[k - 1], e))
        }
    }

    /// The ephemeral point of the last record.
    pub fn kn(&self) -> (r: &PublicKey)
        requires
            self.chain@.len() >= 1,
        ensures
            *r == self.chain@.last().data.kn,
    {
        &self.chain[self.chain.len() - 1].data.kn
    }

    /// Starts the chain of the subject `(id, table)` with its head record.
    pub fn new(id: &str, table: &str, head: Record) -> (r: Result<RecordChain, FdcError>)
        ensures
            !head.signature_valid() ==> r == Err::<RecordChain, FdcError>(FdcError::InvalidSignature),
            head.signature_valid() && head.hprev@ != salt_of(id@, table@) ==> r == Err::<
                RecordChain,
                FdcError,
            >(FdcError::NotHeadRecord),
            head.signature_valid() && head.hprev@ == salt_of(id@, table@) ==> r is Ok,
            r matches Ok(c) ==> c.valid() && c.id@ == id@ && c.table@ == table@ && c.chain@ == seq![
                head,
            ],
    {
        let lhash = head.check()?;
        let s = salt(id, table);
        if !bytes_eq(head.hprev.as_slice(), s.as_slice()) {
            return Err(FdcError::NotHeadRecord);
        }
        let mut chain: Vec<Record> = Vec::new();
        chain.push(head);
        Ok(RecordChain { id: id.to_owned(), table: table.to_owned(), lhash, chain })
    }

    /// Appends a tail whose previous hash is the chain's last hash.
    pub fn push(&mut self, tail: Record) -> (r: Result<(), FdcError>)
        ensures
            !tail.signature_valid() ==> r == Err::<(), FdcError>(FdcError::InvalidSignature)
                && *final(self) == *old(self),
            tail.signature_valid() && tail.hprev@ != old(self).lhash@ ==> r == Err::<(), FdcError>(
                FdcError::BrokenChain,
            ) && *final(self) == *old(self),
            tail.signature_valid() && tail.hprev@ == old(self).lhash@ ==> r is Ok
                && final(self).chain@ == old(self).chain@.push(tail)
                && final(self).lhash@ == tail.digest()
                && final(self).id == old(self).id
                && final(self).table == old(self).table,
            old(self).valid() ==> final(self).valid(),
    {
        let dhash = tail.check()?;
        if !bytes_eq(self.lhash.as_slice(), tail.hprev.as_slice()) {
            return Err(FdcError::BrokenChain);
        }
        self.lhash = dhash;
        self.chain.push(tail);
        proof {
            let c = final(self).chain@;
            if old(self).valid() {
                assert(c[c.len() - 1] == tail);
                assert forall|k: int| 1 <= k < c.len() implies #[trigger] c[k].hprev@ == c[k
                    - 1].digest() by {
                    if k < c.len() - 1 {
                        assert(c[k] == old(self).chain@[k]);
                        assert(c[k - 1] == old(self).chain@[k - 1]);
                    }
                }
                assert forall|k: int| 0 <= k < c.len() implies #[trigger] c[k].signature_valid() by {
                    if k < c.len() - 1 {
                        assert(c[k] == old(self).chain@[k]);
                    }
                }
            }
        }
        Ok(())
    }

    /// Decrypts every record for the holder of the master secret `e`, walking from the tail
    /// to the head, and returns the plaintexts head first. Each record's lambda is
    /// `LambdaKey(e·kn, hprev)`; each decrypted `lprev` must be the lambda of the record
    /// before. A failure reports the index of the record and the error.
    #[verifier::rlimit(50)]
    pub fn recover(&self, e: &SecretKey) -> (r: Result<Vec<RData>, (usize, FdcError)>)
        ensures
            r is Ok <==> self.recoverable(e@),
            r matches Ok(v) ==> v@.len() == self.chain@.len() && forall|k: int|
                0 <= k < self.chain@.len() ==> #[trigger] record_plain(self.chain@[k], e@) == Some(
                    v@[k]@,
                ),
            r matches Err((k, err)) ==> k < self.chain@.len() && match err {
                FdcError::DecryptFailed => record_plain(self.chain@[k as int], e@) is None,
                FdcError::BrokenChain => k > 0 && record_plain(self.chain@[k as int], e@) is Some
                    && record_plain(self.chain@[k as int], e@)->Some_0.lprev != Some(
                    record_lambda(self.chain@[k - 1], e@)),
                FdcError::NotHeadRecord => k == 0 && record_plain(self.chain@[0], e@) is Some
                    && record_plain(self.chain@[0], e@)->Some_0.lprev is Some,
                _ => false,
            },
    {
        let n = self.chain.len();
        let mut rev: Vec<RData> = Vec::new();
        let mut j: usize = n;
        while j > 0
            invariant
                j <= n,
                n == self.chain@.len(),
                rev@.len() == n - j,
                forall|k: int| j <= k < n ==> #[trigger] record_plain(self.chain@[k], e@) == Some(
                    rev@[n - 1 - k]@,
                ),
                forall|k: int| j < k < n ==> (#[trigger] record_plain(self.chain@[k], e@))->Some_0.lprev
                    == Some(record_lambda(self.chain@[k - 1], e@)),
                j == 0 && n > 0 ==> record_plain(self.chain@[0], e@)->Some_0.lprev is None,
            decreases j,
        {
            let idx = j - 1;
            let (rd, lambda) = match open_record(&self.chain[idx], e) {
                Ok(x) => x,
                Err(err) => {
                    proof { assert(!self.recoverable(e@)) by {
                        assert(record_plain(self.chain@[idx as int], e@) is None);
                    } }
                    return Err((idx, err));
                },
            };
            if idx + 1 < n {
                proof {
                    assert(record_plain(self.chain@[idx + 1], e@) == Some(rev@[n - 1 - (idx + 1)]@));
                }
                if !lprev_is(&rev[rev.len() - 1], &lambda) {
                    proof { assert(!self.recoverable(e@)) by {
                        let p = record_plain(self.chain@[idx + 1], e@);
                        assert(p->Some_0.lprev != Some(record_lambda(self.chain@[idx as int], e@)));
                    } }
                    return Err((idx + 1, FdcError::BrokenChain));
                }
            }
            if idx == 0 && rd.lprev.is_some() {
                proof { assert(!self.recoverable(e@)) by {
                    assert(record_plain(self.chain@[0], e@)->Some_0.lprev is Some);
                } }
                return Err((0, FdcError::NotHeadRecord));
            }
            rev.push(rd);
            j -= 1;
        }
        proof {
            assert forall|k: int| 0 <= k < n implies {
                let p = #[trigger] record_plain(self.chain@[k], e@);
                &&& p is Some
                &&& k == 0 ==> p->Some_0.lprev is None
                &&& k > 0 ==> p->Some_0.lprev == Some(record_lambda(self.chain@[k - 1], e@))
            } by {
                assert(record_plain(self.chain@[k], e@) == Some(rev@[n - 1 - k]@));
            }
        }
        let mut out: Vec<RData> = Vec::new();
        let mut i: usize = 0;
        while i < n
            invariant
                i <= n,
                n == self.chain@.len(),
                rev@.len() == n - i,
                out@.len() == i,
                forall|k: int| i <= k < n ==> #[trigger] record_plain(self.chain@[k], e@) == Some(
                    rev@[n - 1 - k]@,
                ),
                forall|k: int| 0 <= k < i ==> #[trigger] record_plain(self.chain@[k], e@) == Some(
                    out@[k]@,
                ),
            decreases n - i,
        {
            let rd = rev.pop().unwrap();
            proof {
                assert(record_plain(self.chain@[i as int], e@) == Some(rd@));
            }
            out.push(rd);
            i += 1;
        }
        Ok(out)
    }
}

/// Decrypts one record for the holder of `e`, returning the plaintext and the record's lambda.
fn open_record(rec: &Record, e: &SecretKey) -> (r: Result<(RData, LambdaKey), FdcError>)
    ensures
        match record_plain(*rec, e@) {
            Some(v) => r is Ok && r->Ok_0.0@ == v && r->Ok_0.1@ == record_lambda(*rec, e@),
            None => r == Err::<(RData, LambdaKey), FdcError>(FdcError::DecryptFailed),
        },
{
    let alpha = e.mul_point(&rec.data.kn);
    let lambda = LambdaKey::new(&alpha, rec.hprev.as_slice());
    let rd = rec.data(&lambda)?;
    Ok((rd, lambda))
}

/// Whether the plaintext carries `lambda` as its previous lambda.
fn lprev_is(rd: &RData, lambda: &LambdaKey) -> (r: bool)
    ensures
        r == (rd@.lprev == Some(lambda@)),
{
    match &rd.lprev {
        Some(l) => l.eq(lambda),
        None => false,
    }
}

} // verus!
