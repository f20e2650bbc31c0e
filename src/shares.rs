#![allow(non_snake_case)]

use vstd::prelude::*;
use vstd::arithmetic::div_mod::{lemma_small_mod, lemma_mod_bound};

use crate::field::{fadd, fmul, fsub, group_order, is_inverse, lemma_fadd_bound, lemma_fadd_reduce,
    lemma_fmul_reduce, lemma_fmul_assoc, lemma_fcomm};
use crate::error::FdcError;
use crate::keys::{PublicKey, SecretKey};

verus! {

// ---------------------------------------------------------------------------------------------
// Mathematical model
// ---------------------------------------------------------------------------------------------

/// The values of a sequence of scalars.
pub open spec fn scalars(v: Seq<SecretKey>) -> Seq<nat> {
    v.map_values(|s: SecretKey| s@)
}

/// The logarithms of a sequence of points.
pub open spec fn logs(v: Seq<PublicKey>) -> Seq<nat> {
    v.map_values(|p: PublicKey| p@)
}

/// `x^e` over the naturals.
pub open spec fn npow(x: nat, e: nat) -> nat
    decreases e,
{
    if e == 0 {
        1
    } else {
        x * npow(x, (e - 1) as nat)
    }
}

/// `a[0] + a[1]·x + … + a[n-1]·x^(n-1)` over the integers.
pub open spec fn poly_sum(a: Seq<nat>, x: nat) -> nat
    decreases a.len(),
{
    if a.len() == 0 {
        0
    } else {
        poly_sum(a.drop_last(), x) + a.last() * npow(x, (a.len() - 1) as nat)
    }
}

/// The polynomial with coefficients `a` evaluated at `x` in the scalar field.
pub open spec fn poly_eval(a: Seq<nat>, x: nat) -> nat {
    poly_sum(a, x) % group_order()
}

/// The multiplicative inverse of `a`, and zero where there is none.
pub open spec fn field_inverse(a: nat) -> nat {
    if exists|r: nat| is_inverse(a, r) {
        choose|r: nat| is_inverse(a, r)
    } else {
        0
    }
}

/// `∏ xs[j]` over `j < n`, `j ≠ i`, in the scalar field.
pub open spec fn basis_num(xs: Seq<nat>, i: int, n: nat) -> nat
    decreases n,
{
    if n == 0 {
        1
    } else if n - 1 == i {
        basis_num(xs, i, (n - 1) as nat)
    } else {
        fmul(basis_num(xs, i, (n - 1) as nat), xs[n - 1])
    }
}

/// `∏ (xs[j] − xs[i])` over `j < n`, `j ≠ i`, in the scalar field.
pub open spec fn basis_den(xs: Seq<nat>, i: int, n: nat) -> nat
    decreases n,
{
    if n == 0 {
        1
    } else if n - 1 == i {
        basis_den(xs, i, (n - 1) as nat)
    } else {
        fmul(basis_den(xs, i, (n - 1) as nat), fsub(xs[n - 1], xs[i]))
    }
}

/// The Lagrange coefficient of position `i` for interpolation at zero over the points `xs`.
pub open spec fn basis(xs: Seq<nat>, i: int) -> nat {
    fmul(basis_num(xs, i, xs.len()), field_inverse(basis_den(xs, i, xs.len())))
}

/// `Σ basis(xs, i)·ys[i]` over `i < n`, in the scalar field.
pub open spec fn lagrange_sum(xs: Seq<nat>, ys: Seq<nat>, n: nat) -> nat
    decreases n,
{
    if n == 0 {
        0
    } else {
        fadd(lagrange_sum(xs, ys, (n - 1) as nat), fmul(basis(xs, (n - 1) as int), ys[n - 1]))
    }
}

/// The interpolation at zero of the points `(xs[i], ys[i])`.
pub open spec fn lagrange_at_zero(xs: Seq<nat>, ys: Seq<nat>) -> nat {
    lagrange_sum(xs, ys, xs.len())
}

pub proof fn lemma_inverse_unique(a: nat, r: nat)
    requires
        is_inverse(a, r),
    ensures
        field_inverse(a) == r,
{
    let c = choose|c: nat| is_inverse(a, c);
    // c = c·(a·r) = (c·a)·r = r
    lemma_fmul_assoc(c, a, r);
    lemma_fcomm(c, a);
    lemma_fmul_reduce(c, a * r);
    lemma_fmul_reduce(c * a, r);
    lemma_small_mod(c, group_order());
    lemma_small_mod(r, group_order());
    assert(fmul(c, fmul(a, r)) == fmul(c, 1));
    assert(fmul(fmul(c, a), r) == fmul(fmul(a, c), r));
    assert(fmul(1, r) == r);
    assert(fmul(c, 1) == c);
}

/// Horner's step: `a[0] + x·Σ a[1..]`.
pub proof fn lemma_poly_sum_horner(a: Seq<nat>, x: nat)
    requires
        a.len() > 0,
    ensures
        poly_sum(a, x) == a[0] + x * poly_sum(a.drop_first(), x),
    decreases a.len(),
{
    if a.len() == 1 {
        assert(a.drop_last().len() == 0);
        assert(npow(x, 0) == 1);
        assert(a.drop_first().len() == 0);
        assert(poly_sum(a.drop_last(), x) == 0);
        assert(poly_sum(a.drop_first(), x) == 0);
        assert(a.last() == a[0]);
        assert(poly_sum(a, x) == a[0] * 1);
        assert(x * 0 == 0);
    } else {
        let n = a.len();
        let b = a.drop_last();
        lemma_poly_sum_horner(b, x);
        assert(b.drop_first() == a.drop_first().drop_last());
        assert(a.drop_first().last() == a.last());
        let p = npow(x, (n - 2) as nat);
        assert(npow(x, (n - 1) as nat) == x * p);
        let s = poly_sum(b.drop_first(), x);
        let l = a.last();
        assert(b[0] == a[0]);
        assert(poly_sum(b, x) == a[0] + x * s);
        assert(poly_sum(a, x) == poly_sum(b, x) + l * npow(x, (n - 1) as nat));
        assert(poly_sum(a.drop_first(), x) == s + l * p);
        assert(x * (s + l * p) == x * s + l * (x * p)) by (nonlinear_arith);
    }
}

/// One Horner step in the field: `(acc·x + c) mod L` from a reduced accumulator.
pub proof fn lemma_horner_step(a: Seq<nat>, x: nat, acc: nat)
    requires
        a.len() > 0,
        acc == poly_eval(a.drop_first(), x),
    ensures
        fadd(fmul(acc, x), a[0]) == poly_eval(a, x),
{
    lemma_poly_sum_horner(a, x);
    let s = poly_sum(a.drop_first(), x);
    lemma_fmul_reduce(s, x);
    lemma_fadd_reduce(s * x, a[0]);
    assert(s * x == x * s) by (nonlinear_arith);
    assert(s * x + a[0] == a[0] + x * s);
}

// ---------------------------------------------------------------------------------------------
// Share
// ---------------------------------------------------------------------------------------------

/// A Shamir share: the value `yi` of the polynomial at the index `i`.
#[derive(Clone, Copy, Debug, PartialEq, Eq)]
pub struct Share {
    pub i: u32,
    pub yi: SecretKey,
}

impl Share {
    /// The sum of two shares of the same index.
    pub fn add(&self, rhs: &Share) -> (r: Share)
        requires
            self.i == rhs.i,
        ensures
            r.i == self.i,
            r.yi@ == fadd(self.yi@, rhs.yi@),
    {
        Share { i: self.i, yi: self.yi.add(&rhs.yi) }
    }

    /// The sum of two shares; fails with `BadShare` when their indices differ.
    pub fn checked_add(&self, rhs: &Share) -> (r: Result<Share, FdcError>)
        ensures
            self.i != rhs.i ==> r == Err::<Share, FdcError>(FdcError::BadShare),
            self.i == rhs.i ==> r is Ok && r->Ok_0.i == self.i && r->Ok_0.yi@ == fadd(
                self.yi@,
                rhs.yi@,
            ),
    {
        if self.i != rhs.i {
            return Err(FdcError::BadShare);
        }
        Ok(self.add(rhs))
    }

    pub fn sub(&self, rhs: &Share) -> (r: Share)
        requires
            self.i == rhs.i,
        ensures
            r.i == self.i,
            r.yi@ == fsub(self.yi@, rhs.yi@),
    {
        Share { i: self.i, yi: self.yi.sub(&rhs.yi) }
    }

    pub fn add_scalar(&self, s: &SecretKey) -> (r: Share)
        ensures
            r.i == self.i,
            r.yi@ == fadd(self.yi@, s@),
    {
        Share { i: self.i, yi: self.yi.add(s) }
    }

    pub fn sub_scalar(&self, s: &SecretKey) -> (r: Share)
        ensures
            r.i == self.i,
            r.yi@ == fsub(self.yi@, s@),
    {
        Share { i: self.i, yi: self.yi.sub(s) }
    }

    pub fn mul(&self, s: &SecretKey) -> (r: Share)
        ensures
            r.i == self.i,
            r.yi@ == fmul(self.yi@, s@),
    {
        Share { i: self.i, yi: self.yi.mul(s) }
    }

    /// The public image `yi·p`.
    pub fn mul_point(&self, p: &PublicKey) -> (r: PublicShare)
        ensures
            r.i == self.i,
            r.Yi@ == fmul(self.yi@, p@),
    {
        PublicShare { i: self.i, Yi: self.yi.mul_point(p) }
    }
}

// ---------------------------------------------------------------------------------------------
// PublicShare
// ---------------------------------------------------------------------------------------------

/// The image of a share in the group: `Yi = yi·P`.
#[derive(Clone, Copy, Debug, PartialEq, Eq)]
pub struct PublicShare {
    pub i: u32,
    pub Yi: PublicKey,
}

impl PublicShare {
    /// The sum of two public shares; fails with `BadShare` when their indices differ.
    pub fn checked_add(&self, rhs: &PublicShare) -> (r: Result<PublicShare, FdcError>)
        ensures
            self.i != rhs.i ==> r == Err::<PublicShare, FdcError>(FdcError::BadShare),
            self.i == rhs.i ==> r is Ok && r->Ok_0.i == self.i && r->Ok_0.Yi@ == fadd(
                self.Yi@,
                rhs.Yi@,
            ),
    {
        if self.i != rhs.i {
            return Err(FdcError::BadShare);
        }
        Ok(self.add(rhs))
    }

    pub fn add(&self, rhs: &PublicShare) -> (r: PublicShare)
        requires
            self.i == rhs.i,
        ensures
            r.i == self.i,
            r.Yi@ == fadd(self.Yi@, rhs.Yi@),
    {
        PublicShare { i: self.i, Yi: self.Yi.add(&rhs.Yi) }
    }

    pub fn sub(&self, rhs: &PublicShare) -> (r: PublicShare)
        requires
            self.i == rhs.i,
        ensures
            r.i == self.i,
            r.Yi@ == fsub(self.Yi@, rhs.Yi@),
    {
        PublicShare { i: self.i, Yi: self.Yi.sub(&rhs.Yi) }
    }

    pub fn add_point(&self, p: &PublicKey) -> (r: PublicShare)
        ensures
            r.i == self.i,
            r.Yi@ == fadd(self.Yi@, p@),
    {
        PublicShare { i: self.i, Yi: self.Yi.add(p) }
    }

    pub fn sub_point(&self, p: &PublicKey) -> (r: PublicShare)
        ensures
            r.i == self.i,
            r.Yi@ == fsub(self.Yi@, p@),
    {
        PublicShare { i: self.i, Yi: self.Yi.sub(p) }
    }

    pub fn mul(&self, s: &SecretKey) -> (r: PublicShare)
        ensures
            r.i == self.i,
            r.Yi@ == fmul(s@, self.Yi@),
    {
        PublicShare { i: self.i, Yi: self.Yi.mul(s) }
    }
}

// ---------------------------------------------------------------------------------------------
// ShareVector and PublicShareVector
// ---------------------------------------------------------------------------------------------

/// The indices of a sequence of shares.
pub open spec fn share_indices(v: Seq<Share>) -> Seq<nat> {
    v.map_values(|s: Share| s.i as nat)
}

/// The values of a sequence of shares.
pub open spec fn share_values(v: Seq<Share>) -> Seq<nat> {
    v.map_values(|s: Share| s.yi@)
}

/// The indices of a sequence of public shares.
pub open spec fn public_share_indices(v: Seq<PublicShare>) -> Seq<nat> {
    v.map_values(|s: PublicShare| s.i as nat)
}

/// The logarithms of the values of a sequence of public shares.
pub open spec fn public_share_values(v: Seq<PublicShare>) -> Seq<nat> {
    v.map_values(|s: PublicShare| s.Yi@)
}

/// The Lagrange coefficient at zero of position `i` among the points `range`.
fn l_i(range: &Vec<SecretKey>, i: usize) -> (r: SecretKey)
    requires
        i < range@.len(),
    ensures
        r@ == basis(scalars(range@), i as int),
{
    let ghost xs = scalars(range@);
    let mut num = SecretKey::one();
    let mut den = SecretKey::one();
    let mut j: usize = 0;
    while j < range.len()
        invariant
            j <= range@.len(),
            i < range@.len(),
            xs == scalars(range@),
            num@ == basis_num(xs, i as int, j as nat),
            den@ == basis_den(xs, i as int, j as nat),
        decreases range@.len() - j,
    {
        if j != i {
            num = num.mul(&range[j]);
            let d = range[j].sub(&range[i]);
            den = den.mul(&d);
        }
        j += 1;
    }
    if den.eq(&SecretKey::zero()) {
        proof {
            assert(!(exists|r: nat| is_inverse(0, r)));
            lemma_small_mod(0, group_order());
            assert(num@ * 0 == 0);
        }
        SecretKey::zero()
    } else {
        let inv = den.invert();
        proof { lemma_inverse_unique(den@, inv@); }
        num.mul(&inv)
    }
}

/// A set of Shamir shares.
#[derive(Clone, Debug, PartialEq, Eq)]
pub struct ShareVector(pub Vec<Share>);

impl ShareVector {
    /// Lagrange interpolation at zero over the shares' indices. The indices should be pairwise
    /// distinct and at least one more than the degree for the result to be the secret.
    pub fn recover(&self) -> (r: SecretKey)
        ensures
            r@ == lagrange_at_zero(share_indices(self.0@), share_values(self.0@)),
    {
        let n = self.0.len();
        let mut range: Vec<SecretKey> = Vec::with_capacity(n);
        let mut k: usize = 0;
        while k < n
            invariant
                k <= n,
                n == self.0@.len(),
                range@.len() == k,
                forall|j: int| 0 <= j < k ==> #[trigger] range@[j]@ == self.0@[j].i as nat,
            decreases n - k,
        {
            range.push(SecretKey::from_u32(self.0[k].i));
            k += 1;
        }
        let ghost xs = share_indices(self.0@);
        let ghost ys = share_values(self.0@);
        assert(scalars(range@) =~= xs);
        let mut acc = SecretKey::zero();
        let mut i: usize = 0;
        while i < n
            invariant
                i <= n,
                n == self.0@.len(),
                range@.len() == n,
                scalars(range@) == xs,
                xs == share_indices(self.0@),
                ys == share_values(self.0@),
                acc@ == lagrange_sum(xs, ys, i as nat),
            decreases n - i,
        {
            let l = l_i(&range, i);
            let t = l.mul(&self.0[i].yi);
            acc = acc.add(&t);
            i += 1;
        }
        acc
    }

    /// The public image of every share: `yi·p`.
    pub fn mul_point(&self, p: &PublicKey) -> (r: PublicShareVector)
        ensures
            r.0@.len() == self.0@.len(),
            forall|j: int| 0 <= j < self.0@.len() ==> (#[trigger] r.0@[j]).i == self.0@[j].i
                && r.0@[j].Yi@ == fmul(self.0@[j].yi@, p@),
    {
        let n = self.0.len();
        let mut v: Vec<PublicShare> = Vec::with_capacity(n);
        let mut k: usize = 0;
        while k < n
            invariant
                k <= n,
                n == self.0@.len(),
                v@.len() == k,
                forall|j: int| 0 <= j < k ==> (#[trigger] v@[j]).i == self.0@[j].i
                    && v@[j].Yi@ == fmul(self.0@[j].yi@, p@),
            decreases n - k,
        {
            v.push(self.0[k].mul_point(p));
            k += 1;
        }
        PublicShareVector(v)
    }
}

/// A set of public shares.
#[derive(Clone, Debug, PartialEq, Eq)]
pub struct PublicShareVector(pub Vec<PublicShare>);

impl PublicShareVector {
    /// Lagrange interpolation at zero in the group.
    pub fn recover(&self) -> (r: PublicKey)
        ensures
            r@ == lagrange_at_zero(public_share_indices(self.0@), public_share_values(self.0@)),
    {
        let n = self.0.len();
        let mut range: Vec<SecretKey> = Vec::with_capacity(n);
        let mut k: usize = 0;
        while k < n
            invariant
                k <= n,
                n == self.0@.len(),
                range@.len() == k,
                forall|j: int| 0 <= j < k ==> #[trigger] range@[j]@ == self.0@[j].i as nat,
            decreases n - k,
        {
            range.push(SecretKey::from_u32(self.0[k].i));
            k += 1;
        }
        let ghost xs = public_share_indices(self.0@);
        let ghost ys = public_share_values(self.0@);
        assert(scalars(range@) =~= xs);
        let mut acc = PublicKey::zero();
        let mut i: usize = 0;
        while i < n
            invariant
                i <= n,
                n == self.0@.len(),
                range@.len() == n,
                scalars(range@) == xs,
                xs == public_share_indices(self.0@),
                ys == public_share_values(self.0@),
                acc@ == lagrange_sum(xs, ys, i as nat),
            decreases n - i,
        {
            let l = l_i(&range, i);
            let t = self.0[i].Yi.mul(&l);
            acc = acc.add(&t);
            i += 1;
        }
        acc
    }
}

// ---------------------------------------------------------------------------------------------
// Polynomial and PublicPolynomial
// ---------------------------------------------------------------------------------------------

/// Evaluation of a polynomial at a scalar.
pub trait Evaluate {
    type Output;

    fn evaluate(&self, x: &SecretKey) -> Self::Output
        requires
            self.coefficients_present(),
    ;

    /// The polynomial has at least one coefficient.
    spec fn coefficients_present(&self) -> bool;
}

/// The degree of a polynomial.
pub trait Degree {
    /// The number of coefficients.
    spec fn coefficient_count(&self) -> nat;

    fn degree(&self) -> (r: usize)
        requires
            self.coefficient_count() >= 1,
        ensures
            r == self.coefficient_count() - 1,
    ;
}

/// A polynomial over the scalar field; `a[0]` is the shared secret.
#[derive(Clone, Debug, PartialEq, Eq)]
pub struct Polynomial {
    pub a: Vec<SecretKey>,
}

impl Polynomial {
    /// `secret` followed by `degree` fresh random coefficients.
    pub fn rand(secret: SecretKey, degree: usize) -> (r: Polynomial)
        requires
            degree < usize::MAX,
        ensures
            r.a@.len() == degree + 1,
            r.a@[0] == secret,
    {
        let mut a: Vec<SecretKey> = Vec::with_capacity(degree + 1);
        a.push(secret);
        let mut k: usize = 0;
        while k < degree
            invariant
                k <= degree,
                a@.len() == k + 1,
                a@[0] == secret,
            decreases degree - k,
        {
            a.push(SecretKey::rand());
            k += 1;
        }
        Polynomial { a }
    }

    /// `a0 + a1·x + … + at·x^t`, by Horner's rule from the highest coefficient down.
    pub fn evaluate(&self, x: &SecretKey) -> (r: SecretKey)
        requires
            self.a@.len() >= 1,
        ensures
            r@ == poly_eval(scalars(self.a@), x@),
    {
        let n = self.a.len();
        let ghost c = scalars(self.a@);
        let mut acc = self.a[n - 1];
        proof {
            let last = c.subrange(n - 1, n as int);
            assert(last.drop_first().len() == 0);
            assert(poly_sum(last.drop_first(), x@) == 0);
            lemma_poly_sum_horner(last, x@);
            acc.lemma_reduced();
            lemma_small_mod(acc@, group_order());
        }
        let mut k: usize = n - 1;
        while k > 0
            invariant
                k < n,
                n == self.a@.len(),
                c == scalars(self.a@),
                acc@ == poly_eval(c.subrange(k as int, n as int), x@),
            decreases k,
        {
            let t = acc.mul(x);
            acc = t.add(&self.a[k - 1]);
            proof {
                let sub = c.subrange(k - 1, n as int);
                assert(sub.drop_first() == c.subrange(k as int, n as int));
                lemma_horner_step(sub, x@, poly_eval(c.subrange(k as int, n as int), x@));
            }
            k -= 1;
        }
        assert(c.subrange(0, n as int) == c);
        acc
    }

    /// The shares `(j, f(j))` for `j = 1..n`.
    pub fn shares(&self, n: usize) -> (r: ShareVector)
        requires
            self.a@.len() >= 1,
            n <= u32::MAX,
        ensures
            r.0@.len() == n,
            forall|j: int| 0 <= j < n ==> (#[trigger] r.0@[j]).i == j + 1
                && r.0@[j].yi@ == poly_eval(scalars(self.a@), (j + 1) as nat),
    {
        let mut v: Vec<Share> = Vec::with_capacity(n);
        let mut j: usize = 0;
        while j < n
            invariant
                j <= n,
                n <= u32::MAX,
                self.a@.len() >= 1,
                v@.len() == j,
                forall|k: int| 0 <= k < j ==> (#[trigger] v@[k]).i == k + 1
                    && v@[k].yi@ == poly_eval(scalars(self.a@), (k + 1) as nat),
            decreases n - j,
        {
            let x = SecretKey::from_u64((j + 1) as u64);
            let yi = self.evaluate(&x);
            v.push(Share { i: (j + 1) as u32, yi });
            j += 1;
        }
        ShareVector(v)
    }

    /// Every coefficient times `s`.
    pub fn mul(&self, s: &SecretKey) -> (r: Polynomial)
        ensures
            r.a@.len() == self.a@.len(),
            forall|k: int| 0 <= k < self.a@.len() ==> (#[trigger] r.a@[k])@ == fmul(self.a@[k]@, s@),
    {
        let n = self.a.len();
        let mut a: Vec<SecretKey> = Vec::with_capacity(n);
        let mut k: usize = 0;
        while k < n
            invariant
                k <= n,
                n == self.a@.len(),
                a@.len() == k,
                forall|j: int| 0 <= j < k ==> (#[trigger] a@[j])@ == fmul(self.a@[j]@, s@),
            decreases n - k,
        {
            a.push(self.a[k].mul(s));
            k += 1;
        }
        Polynomial { a }
    }

    /// The committed coefficients `ak·p`.
    pub fn mul_point(&self, p: &PublicKey) -> (r: PublicPolynomial)
        ensures
            r.A@.len() == self.a@.len(),
            forall|k: int| 0 <= k < self.a@.len() ==> (#[trigger] r.A@[k])@ == fmul(self.a@[k]@, p@),
    {
        let n = self.a.len();
        let mut A: Vec<PublicKey> = Vec::with_capacity(n);
        let mut k: usize = 0;
        while k < n
            invariant
                k <= n,
                n == self.a@.len(),
                A@.len() == k,
                forall|j: int| 0 <= j < k ==> (#[trigger] A@[j])@ == fmul(self.a@[j]@, p@),
            decreases n - k,
        {
            A.push(self.a[k].mul_point(p));
            k += 1;
        }
        PublicPolynomial { A }
    }
}

impl Evaluate for Polynomial {
    type Output = SecretKey;

    fn evaluate(&self, x: &SecretKey) -> SecretKey {
        Polynomial::evaluate(self, x)
    }

    open spec fn coefficients_present(&self) -> bool {
        self.a@.len() >= 1
    }
}

impl Degree for Polynomial {
    open spec fn coefficient_count(&self) -> nat {
        self.a@.len()
    }

    fn degree(&self) -> (r: usize) {
        self.a.len() - 1
    }
}

/// A polynomial committed in the group: `Ak = ak·P`.
#[derive(Clone, Debug, PartialEq, Eq)]
pub struct PublicPolynomial {
    pub A: Vec<PublicKey>,
}

impl PublicPolynomial {
    /// Every coefficient times `s`.
    pub fn mul(&self, s: &SecretKey) -> (r: PublicPolynomial)
        ensures
            r.A@.len() == self.A@.len(),
            forall|k: int| 0 <= k < self.A@.len() ==> (#[trigger] r.A@[k])@ == fmul(s@, self.A@[k]@),
    {
        let n = self.A.len();
        let mut A: Vec<PublicKey> = Vec::with_capacity(n);
        let mut k: usize = 0;
        while k < n
            invariant
                k <= n,
                n == self.A@.len(),
                A@.len() == k,
                forall|j: int| 0 <= j < k ==> (#[trigger] A@[j])@ == fmul(s@, self.A@[j]@),
            decreases n - k,
        {
            A.push(self.A[k].mul(s));
            k += 1;
        }
        PublicPolynomial { A }
    }

    /// `A0 + x·A1 + … + x^t·At`, by Horner's rule.
    pub fn evaluate(&self, x: &SecretKey) -> (r: PublicKey)
        requires
            self.A@.len() >= 1,
        ensures
            r@ == poly_eval(logs(self.A@), x@),
    {
        let n = self.A.len();
        let ghost c = logs(self.A@);
        let mut acc = self.A[n - 1];
        proof {
            let last = c.subrange(n - 1, n as int);
            assert(last.drop_first().len() == 0);
            assert(poly_sum(last.drop_first(), x@) == 0);
            lemma_poly_sum_horner(last, x@);
            acc.lemma_reduced();
            lemma_small_mod(acc@, group_order());
        }
        let mut k: usize = n - 1;
        while k > 0
            invariant
                k < n,
                n == self.A@.len(),
                c == logs(self.A@),
                acc@ == poly_eval(c.subrange(k as int, n as int), x@),
            decreases k,
        {
            let old_acc = acc;
            let t = acc.mul(x);
            acc = t.add(&self.A[k - 1]);
            proof {
                let sub = c.subrange(k - 1, n as int);
                assert(sub.drop_first() == c.subrange(k as int, n as int));
                lemma_fcomm(x@, old_acc@);
                lemma_horner_step(sub, x@, poly_eval(c.subrange(k as int, n as int), x@));
            }
            k -= 1;
        }
        assert(c.subrange(0, n as int) == c);
        acc
    }

    /// Whether `share` is the committed polynomial's value at the share's index.
    pub fn verify(&self, share: &PublicShare) -> (r: bool)
        requires
            self.A@.len() >= 1,
        ensures
            r == (share.Yi@ == poly_eval(logs(self.A@), share.i as nat)),
    {
        let x = SecretKey::from_u64(share.i as u64);
        let y = self.evaluate(&x);
        share.Yi.eq(&y)
    }
}

impl Evaluate for PublicPolynomial {
    type Output = PublicKey;

    fn evaluate(&self, x: &SecretKey) -> PublicKey {
        PublicPolynomial::evaluate(self, x)
    }

    open spec fn coefficients_present(&self) -> bool {
        self.A@.len() >= 1
    }
}

impl Degree for PublicPolynomial {
    open spec fn coefficient_count(&self) -> nat {
        self.A@.len()
    }

    fn degree(&self) -> (r: usize) {
        self.A.len() - 1
    }
}

} // verus!
