use vstd::prelude::*;
use vstd::arithmetic::div_mod::{
    lemma_add_mod_noop, lemma_mul_mod_noop_left, lemma_mul_mod_noop_right, lemma_mod_bound,
    lemma_small_mod,
};
use vstd::arithmetic::mul::{lemma_mul_is_associative, lemma_mul_is_distributive_add};

verus! {

/// The order of the Ristretto group, which is also the size of its scalar field.
pub open spec fn group_order() -> nat {
    7237005577332262213973186563042994240857116359379907606001950938285454250989nat
}

/// The number that a little-endian byte string denotes.
pub open spec fn le_nat(b: Seq<u8>) -> nat
    decreases b.len(),
{
    if b.len() == 0 {
        0
    } else {
        b[0] as nat + 256 * le_nat(b.drop_first())
    }
}

/// Addition in the scalar field.
pub open spec fn fadd(a: nat, b: nat) -> nat {
    (a + b) % group_order()
}

/// Multiplication in the scalar field.
pub open spec fn fmul(a: nat, b: nat) -> nat {
    (a * b) % group_order()
}

/// Additive inverse in the scalar field.
pub open spec fn fneg(a: nat) -> nat {
    ((group_order() - a % group_order()) as nat) % group_order()
}

/// Subtraction in the scalar field: `a - b = a + (-b)`.
pub open spec fn fsub(a: nat, b: nat) -> nat {
    fadd(a, fneg(b))
}

/// `r` is a multiplicative inverse of `a` in the scalar field.
pub open spec fn is_inverse(a: nat, r: nat) -> bool {
    r < group_order() && fmul(a, r) == 1
}

pub proof fn lemma_fadd_bound(a: nat, b: nat)
    ensures
        fadd(a, b) < group_order(),
        fmul(a, b) < group_order(),
        fneg(a) < group_order(),
{
    lemma_mod_bound((a + b) as int, group_order() as int);
    lemma_mod_bound((a * b) as int, group_order() as int);
    lemma_mod_bound((group_order() - a % group_order()) as int, group_order() as int);
}

/// Reducing an operand first does not change a sum.
pub proof fn lemma_fadd_reduce(a: nat, b: nat)
    ensures
        fadd(a % group_order(), b) == fadd(a, b),
        fadd(a, b % group_order()) == fadd(a, b),
{
    let l = group_order() as int;
    lemma_add_mod_noop(a as int, b as int, l);
    lemma_add_mod_noop((a % group_order()) as int, b as int, l);
    lemma_add_mod_noop(a as int, (b % group_order()) as int, l);
    lemma_small_mod(a % group_order(), group_order());
    lemma_small_mod(b % group_order(), group_order());
}

/// Reducing an operand first does not change a product.
pub proof fn lemma_fmul_reduce(a: nat, b: nat)
    ensures
        fmul(a % group_order(), b) == fmul(a, b),
        fmul(a, b % group_order()) == fmul(a, b),
{
    let l = group_order() as int;
    lemma_mul_mod_noop_left(a as int, b as int, l);
    lemma_mul_mod_noop_right(a as int, b as int, l);
}

pub proof fn lemma_fadd_assoc(a: nat, b: nat, c: nat)
    ensures
        fadd(fadd(a, b), c) == fadd(a, fadd(b, c)),
{
    lemma_fadd_reduce(a + b, c);
    lemma_fadd_reduce(a, b + c);
    assert(a + b + c == a + (b + c));
}

pub proof fn lemma_fmul_assoc(a: nat, b: nat, c: nat)
    ensures
        fmul(fmul(a, b), c) == fmul(a, fmul(b, c)),
{
    lemma_fmul_reduce(a * b, c);
    lemma_fmul_reduce(a, b * c);
    lemma_mul_is_associative(a as int, b as int, c as int);
}

pub proof fn lemma_fmul_distrib(a: nat, b: nat, c: nat)
    ensures
        fmul(a, fadd(b, c)) == fadd(fmul(a, b), fmul(a, c)),
        fmul(fadd(b, c), a) == fadd(fmul(b, a), fmul(c, a)),
{
    lemma_fmul_reduce(a, b + c);
    lemma_fmul_reduce(b + c, a);
    lemma_mul_is_distributive_add(a as int, b as int, c as int);
    lemma_mul_is_distributive_add(a as int, b as int, c as int);
    assert(a * (b + c) == a * b + a * c);
    assert((b + c) * a == b * a + c * a) by (nonlinear_arith);
    let l = group_order() as int;
    lemma_add_mod_noop((a * b) as int, (a * c) as int, l);
    lemma_add_mod_noop((b * a) as int, (c * a) as int, l);
}

/// `a + (-a) = 0` in the scalar field.
pub proof fn lemma_fneg_cancel(a: nat)
    ensures
        fadd(a, fneg(a)) == 0,
        fsub(a, a) == 0,
{
    let l = group_order();
    let r = a % l;
    lemma_mod_bound(a as int, l as int);
    lemma_fadd_reduce(a, fneg(a));
    if r == 0 {
        lemma_small_mod(0, l);
        assert(fneg(a) == 0) by {
            vstd::arithmetic::div_mod::lemma_mod_self_0(l as int);
        }
        lemma_small_mod(0, l);
    } else {
        lemma_small_mod((l - r) as nat, l);
        assert(r + (l - r) == l);
        vstd::arithmetic::div_mod::lemma_mod_self_0(l as int);
    }
}

/// A sum or a product of reduced values does not depend on the order of the operands.
pub proof fn lemma_fcomm(a: nat, b: nat)
    ensures
        fadd(a, b) == fadd(b, a),
        fmul(a, b) == fmul(b, a),
{
    assert(a * b == b * a) by (nonlinear_arith);
}

} // verus!
