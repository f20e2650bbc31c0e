//! Laws that relate the library's operations, proved over their models.

use vstd::prelude::*;
use vstd::arithmetic::div_mod::{lemma_add_mod_noop, lemma_mul_mod_noop_left,
    lemma_mul_mod_noop_right, lemma_small_mod};

use crate::chain::{record_lambda, record_plain, RecordChain};
use crate::codec::lemma_rdata_round_trip;
use crate::field::{fadd, fmul, fneg, fsub, group_order, lemma_fadd_assoc, lemma_fadd_bound,
    lemma_fadd_reduce, lemma_fcomm, lemma_fmul_assoc, lemma_fmul_distrib, lemma_fmul_reduce,
    lemma_fneg_cancel};
use crate::keys::{compressed_point, lambda_of, KeyPair};
use crate::records::{opened, payload_lambda, RDataView, REncData};
use crate::shares::{lagrange_sum, npow, poly_eval, poly_sum};
use crate::signatures::{lemma_sign_verifies, sig_challenge, sig_nonce, sig_valid};

verus! {

/// Scalars form a commutative ring: addition and multiplication are associative and
/// commutative, multiplication distributes over addition, `0 + a = a`, `1·a = a` and
/// `a − a = 0`.
pub proof fn lemma_scalar_ring(a: nat, b: nat, c: nat)
    requires
        a < group_order(),
        b < group_order(),
        c < group_order(),
    ensures
        fadd(fadd(a, b), c) == fadd(a, fadd(b, c)),
        fmul(fmul(a, b), c) == fmul(a, fmul(b, c)),
        fadd(a, b) == fadd(b, a),
        fmul(a, b) == fmul(b, a),
        fmul(a, fadd(b, c)) == fadd(fmul(a, b), fmul(a, c)),
        fadd(0, a) == a,
        fmul(1, a) == a,
        fsub(a, a) == 0,
{
    lemma_fadd_assoc(a, b, c);
    lemma_fmul_assoc(a, b, c);
    lemma_fcomm(a, b);
    lemma_fmul_distrib(a, b, c);
    lemma_small_mod(a, group_order());
    lemma_fneg_cancel(a);
}

/// The group law on points, through their logarithms: `P + Q = Q + P`,
/// `(a+b)·P = a·P + b·P`, `a·(b·P) = (a·b)·P` and `0·P` is the identity.
pub proof fn lemma_point_group(a: nat, b: nat, p: nat, q: nat)
    requires
        a < group_order(),
        b < group_order(),
        p < group_order(),
        q < group_order(),
    ensures
        fadd(p, q) == fadd(q, p),
        fmul(fadd(a, b), p) == fadd(fmul(a, p), fmul(b, p)),
        fmul(a, fmul(b, p)) == fmul(fmul(a, b), p),
        fmul(0, p) == 0,
{
    lemma_fcomm(p, q);
    lemma_fmul_distrib(p, a, b);
    lemma_fmul_assoc(a, b, p);
    lemma_small_mod(0, group_order());
}

/// Committing a polynomial to a point commutes with evaluation: with `A[k] = a[k]·g`,
/// `A(x) = a(x)·g`. So the public image `f(i)·g` of every share verifies against the
/// committed polynomial.
pub proof fn lemma_commitment_eval(a: Seq<nat>, big_a: Seq<nat>, g: nat, x: nat)
    requires
        big_a.len() == a.len(),
        forall|k: int| 0 <= k < a.len() ==> #[trigger] big_a[k] == fmul(a[k], g),
    ensures
        poly_eval(big_a, x) == fmul(poly_eval(a, x), g),
    decreases a.len(),
{
    let l = group_order();
    if a.len() == 0 {
        lemma_small_mod(0, group_order());
        assert(poly_sum(a, x) == 0);
        assert(poly_sum(big_a, x) == 0);
        assert(0 * g == 0);
    } else {
        let n = a.len();
        lemma_commitment_eval(a.drop_last(), big_a.drop_last(), g, x);
        let sa = poly_sum(a.drop_last(), x);
        let sb = poly_sum(big_a.drop_last(), x);
        let pw = npow(x, (n - 1) as nat);
        let al = a.last();
        let bl = big_a.last();
        assert(bl == fmul(al, g));
        // sb ≡ sa·g and bl ≡ al·g, so sb + bl·pw ≡ (sa + al·pw)·g
        assert(sb % l == (sa * g) % l) by {
            lemma_fmul_reduce(sa, g);
        }
        assert((bl * pw) % l == (al * g * pw) % l) by {
            lemma_mul_mod_noop_left((al * g) as int, pw as int, l as int);
        }
        lemma_add_mod_noop(sb as int, (bl * pw) as int, l as int);
        lemma_add_mod_noop((sa * g) as int, (al * g * pw) as int, l as int);
        assert((sa + al * pw) * g == sa * g + al * g * pw) by (nonlinear_arith);
        lemma_mul_mod_noop_left((sa + al * pw) as int, g as int, l as int);
    }
}

/// Interpolating the images `ys[i]·g` gives the image of the interpolation of `ys`: the
/// public recovery of `shares·G` is the recovery of the shares times `G`.
pub proof fn lemma_public_recovery(xs: Seq<nat>, ys: Seq<nat>, zs: Seq<nat>, g: nat, n: nat)
    requires
        n <= ys.len(),
        zs.len() == ys.len(),
        forall|k: int| 0 <= k < ys.len() ==> #[trigger] zs[k] == fmul(ys[k], g),
    ensures
        lagrange_sum(xs, zs, n) == fmul(lagrange_sum(xs, ys, n), g),
    decreases n,
{
    if n == 0 {
        lemma_small_mod(0, group_order());
        assert(0 * g == 0);
    } else {
        let m = (n - 1) as nat;
        lemma_public_recovery(xs, ys, zs, g, m);
        let b = crate::shares::basis(xs, m as int);
        let s = lagrange_sum(xs, ys, m);
        // b·(y·g) = (b·y)·g
        lemma_fmul_assoc(b, ys[m as int], g);
        // s·g + (b·y)·g = (s + b·y)·g
        lemma_fmul_distrib(g, s, fmul(b, ys[m as int]));
        lemma_fcomm(g, s);
        lemma_fcomm(g, fmul(b, ys[m as int]));
        lemma_fcomm(g, fadd(s, fmul(b, ys[m as int])));
    }
}

/// A signature made with a consistent key pair verifies under the pair's public key.
pub proof fn lemma_signature_correct(kp: KeyPair, dhash: Seq<u8>)
    requires
        kp.consistent(),
    ensures
        ({
            let m = sig_nonce(kp.secret.encoding(), dhash);
            let c = sig_challenge(kp.key@, m, dhash);
            sig_valid(c, fsub(m, fmul(c, kp.secret@)), kp.key@, dhash)
        }),
{
    kp.secret.lemma_reduced();
    let m = sig_nonce(kp.secret.encoding(), dhash);
    let c = sig_challenge(kp.key@, m, dhash);
    lemma_sign_verifies(kp.secret@, kp.secret.encoding(), kp.key@, c, fsub(m, fmul(c,
        kp.secret@)), dhash);
}

/// A payload sealed for the master key `E = e·G` opens, under `LambdaKey(e·kn, salt)`, to
/// the plaintext it was sealed with.
pub proof fn lemma_payload_round_trip(d: REncData, e: nat, salt: Seq<u8>, rd: RDataView)
    requires
        d.seals(e, salt, rd),
        rd.dref.dn.len() <= u64::MAX,
        rd.dref.hfile.len() <= u64::MAX,
        rd.lprev matches Some(l) ==> l.len() == 64,
    ensures
        opened(lambda_of(compressed_point(fmul(e, d.kn@)), salt), d.ciphertext@) == Some(rd),
{
    lemma_fcomm(e, d.kn@);
    assert(payload_lambda(d.kn@, e, salt) == lambda_of(compressed_point(fmul(e, d.kn@)), salt));
    lemma_rdata_round_trip(rd);
}

/// A chain whose records were sealed for `E = e·G`, each under its previous hash, with a head
/// plaintext that has no previous lambda and tail plaintexts that carry the lambda of the
/// record before, is recoverable with `e`, and recovery gives back those plaintexts in order.
pub proof fn lemma_full_recovery(c: RecordChain, e: nat, rds: Seq<RDataView>)
    requires
        rds.len() == c.chain@.len(),
        forall|k: int| 0 <= k < rds.len() ==> (#[trigger] c.chain@[k]).data.seals(e,
            c.chain@[k].hprev@, rds[k]),
        forall|k: int| 0 <= k < rds.len() ==> (#[trigger] rds[k]).dref.dn.len() <= u64::MAX
            && rds[k].dref.hfile.len() <= u64::MAX && (rds[k].lprev matches Some(l) ==> l.len()
            == 64),
        rds.len() > 0 ==> rds[0].lprev is None,
        forall|k: int| 0 < k < rds.len() ==> (#[trigger] rds[k]).lprev == Some(
            payload_lambda(c.chain@[k - 1].data.kn@, e, c.chain@[k - 1].hprev@),
        ),
    ensures
        c.recoverable(e),
        forall|k: int| 0 <= k < rds.len() ==> #[trigger] record_plain(c.chain@[k], e) == Some(
            rds[k],
        ),
{
    assert forall|k: int| 0 <= k < rds.len() implies #[trigger] record_plain(c.chain@[k], e)
        == Some(rds[k]) by {
        let r = c.chain@[k];
        assert(r.data.seals(e, r.hprev@, rds[k]));
        lemma_payload_round_trip(r.data, e, r.hprev@, rds[k]);
    }
    assert forall|k: int| 0 < k < rds.len() implies (#[trigger] rds[k]).lprev == Some(
        record_lambda(c.chain@[k - 1], e),
    ) by {
        lemma_fcomm(c.chain@[k - 1].data.kn@, e);
    }
    assert forall|k: int| 0 <= k < c.chain@.len() implies {
        let p = #[trigger] record_plain(c.chain@[k], e);
        &&& p is Some
        &&& k == 0 ==> p->Some_0.lprev is None
        &&& k > 0 ==> p->Some_0.lprev == Some(record_lambda(c.chain@[k - 1], e))
    } by {
        assert(record_plain(c.chain@[k], e) == Some(rds[k]));
        if k > 0 {
            assert(rds[k].lprev == Some(record_lambda(c.chain@[k - 1], e)));
        }
    }
}

} // verus!
