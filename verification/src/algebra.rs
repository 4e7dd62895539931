//! The base field as a commutative ring.  A field element is the residue of
//! many integers; the laws of the curve are polynomial identities between
//! such integers, and the lemmas here carry them over to the elements.
//!
//! `q` is prime, so every element but zero has an inverse, and by Fermat's
//! theorem it is the power `a^(q - 2)`.  That theorem is not proved here.
//! What depends on it is stated of units: the elements `a` for which
//! `a . a^(q - 2) = 1` holds.

use crate::fq::{fq_add, fq_inv, fq_mul, fq_neg, fq_pow, fq_sub, q};
use vstd::arithmetic::div_mod::{
    lemma_add_mod_noop, lemma_mod_bound, lemma_mod_multiples_vanish, lemma_mul_mod_noop,
    lemma_small_mod, lemma_sub_mod_noop,
};
use vstd::prelude::*;

verus! {

/// The field element `x` is the residue of the integer `n`.
pub open spec fn residue(x: nat, n: int) -> bool {
    x == n % (q() as int)
}

/// The element has an inverse, and it is `a^(q - 2)`.
pub open spec fn is_unit(a: nat) -> bool {
    fq_mul(a, fq_inv(a)) == 1
}

/// A field element is its own residue.
pub proof fn lemma_residue_self(x: nat)
    requires
        x < q(),
    ensures
        residue(x, x as int),
{
    lemma_small_mod(x, q());
}

/// A residue is a field element.
pub proof fn lemma_residue_range(x: nat, n: int)
    requires
        residue(x, n),
    ensures
        x < q(),
{
    lemma_mod_bound(n, q() as int);
}

/// The sum of two residues is the residue of the sum.
pub proof fn lemma_residue_add(x: nat, n: int, y: nat, m: int)
    requires
        residue(x, n),
        residue(y, m),
    ensures
        residue(fq_add(x, y), n + m),
{
    lemma_add_mod_noop(n, m, q() as int);
}

/// The difference of two residues is the residue of the difference.
pub proof fn lemma_residue_sub(x: nat, n: int, y: nat, m: int)
    requires
        residue(x, n),
        residue(y, m),
    ensures
        residue(fq_sub(x, y), n - m),
{
    lemma_sub_mod_noop(n, m, q() as int);
    lemma_mod_bound(n - m, q() as int);
}

/// The negative of a residue is the residue of the negative.
pub proof fn lemma_residue_neg(x: nat, n: int)
    requires
        residue(x, n),
    ensures
        residue(fq_neg(x), -n),
{
    lemma_sub_mod_noop(0, n, q() as int);
    lemma_small_mod(0, q());
    lemma_mod_bound(-n, q() as int);
}

/// The product of two residues is the residue of the product.
pub proof fn lemma_residue_mul(x: nat, n: int, y: nat, m: int)
    requires
        residue(x, n),
        residue(y, m),
    ensures
        residue(fq_mul(x, y), n * m),
{
    lemma_mul_mod_noop(n, m, q() as int);
    lemma_mod_bound(n, q() as int);
    lemma_mod_bound(m, q() as int);
    lemma_mod_bound(n * m, q() as int);
    assert((n % (q() as int)) * (m % (q() as int)) >= 0) by (nonlinear_arith)
        requires
            n % (q() as int) >= 0,
            m % (q() as int) >= 0,
    ;
}

/// Integers that differ by a multiple of `q` have the same residue.
pub proof fn lemma_residue_shift(x: nat, n: int, m: int, k: int)
    requires
        residue(x, n),
        n == m + k * (q() as int),
    ensures
        residue(x, m),
{
    lemma_mod_multiples_vanish(k, m, q() as int);
    assert(q() as int * k == k * (q() as int)) by (nonlinear_arith);
}

/// Integers with the same residue differ by a multiple of `q`.
pub proof fn lemma_residue_gap(n: int, m: int) -> (k: int)
    requires
        n % (q() as int) == m % (q() as int),
    ensures
        n == m + k * (q() as int),
{
    let qi = q() as int;
    vstd::arithmetic::div_mod::lemma_fundamental_div_mod(n, qi);
    vstd::arithmetic::div_mod::lemma_fundamental_div_mod(m, qi);
    let k = n / qi - m / qi;
    assert(k * qi == qi * (n / qi) - qi * (m / qi)) by (nonlinear_arith)
        requires
            k == n / qi - m / qi,
    ;
    k
}

/// Two integers have the same residue.
pub open spec fn congruent(a: int, b: int) -> bool {
    a % (q() as int) == b % (q() as int)
}

/// Sums of congruent integers are congruent.
pub proof fn lemma_congruent_add(a: int, b: int, c: int, d: int)
    requires
        congruent(a, b),
        congruent(c, d),
    ensures
        congruent(a + c, b + d),
{
    lemma_add_mod_noop(a, c, q() as int);
    lemma_add_mod_noop(b, d, q() as int);
}

/// Differences of congruent integers are congruent.
pub proof fn lemma_congruent_sub(a: int, b: int, c: int, d: int)
    requires
        congruent(a, b),
        congruent(c, d),
    ensures
        congruent(a - c, b - d),
{
    lemma_sub_mod_noop(a, c, q() as int);
    lemma_sub_mod_noop(b, d, q() as int);
}

/// Products of congruent integers are congruent.
pub proof fn lemma_congruent_mul(a: int, b: int, c: int, d: int)
    requires
        congruent(a, b),
        congruent(c, d),
    ensures
        congruent(a * c, b * d),
{
    lemma_mul_mod_noop(a, c, q() as int);
    lemma_mul_mod_noop(b, d, q() as int);
}

/// Field elements that are residues of congruent integers are the same, and
/// the integers of which one element is the residue are congruent.
pub proof fn lemma_residue_congruent(x: nat, n: int, y: nat, m: int)
    requires
        residue(x, n),
        residue(y, m),
    ensures
        congruent(n, m) == (x == y),
{
}

/// Multiplication is commutative.
pub proof fn lemma_mul_commutes(a: nat, b: nat)
    ensures
        fq_mul(a, b) == fq_mul(b, a),
{
    assert(a * b == b * a) by (nonlinear_arith);
}

/// Multiplication is associative.
pub proof fn lemma_mul_associates(a: nat, b: nat, c: nat)
    requires
        a < q(),
        b < q(),
        c < q(),
    ensures
        fq_mul(fq_mul(a, b), c) == fq_mul(a, fq_mul(b, c)),
{
    let (ai, bi, ci) = (a as int, b as int, c as int);
    lemma_residue_self(a);
    lemma_residue_self(b);
    lemma_residue_self(c);
    lemma_residue_mul(a, ai, b, bi);
    lemma_residue_mul(fq_mul(a, b), ai * bi, c, ci);
    lemma_residue_mul(b, bi, c, ci);
    lemma_residue_mul(a, ai, fq_mul(b, c), bi * ci);
    assert((ai * bi) * ci == ai * (bi * ci)) by (nonlinear_arith);
}

/// One is the neutral element of multiplication.
pub proof fn lemma_mul_one(a: nat)
    requires
        a < q(),
    ensures
        fq_mul(a, 1) == a,
        fq_mul(1, a) == a,
{
    lemma_small_mod(a, q());
    assert(a * 1 == a && 1 * a == a);
}

/// The negative of the negative is the element itself.
pub proof fn lemma_neg_neg(a: nat)
    requires
        a < q(),
    ensures
        fq_neg(fq_neg(a)) == a,
{
    lemma_residue_self(a);
    lemma_residue_neg(a, a as int);
    lemma_residue_neg(fq_neg(a), -(a as int));
}

/// The inverse of one is one, and the power that stands for the inverse of
/// zero is zero.
pub proof fn lemma_inverse_of_one_and_zero()
    ensures
        fq_inv(1) == 1,
        fq_inv(0) == 0,
        is_unit(1),
{
    vstd::arithmetic::power::lemma1_pow((q() - 2) as nat);
    vstd::arithmetic::power::lemma0_pow((q() - 2) as nat);
    lemma_small_mod(1, q());
    lemma_small_mod(0, q());
}

/// The power of a product is the product of the powers.
pub proof fn lemma_pow_of_product(a: nat, b: nat, e: nat)
    ensures
        fq_pow(fq_mul(a, b), e) == fq_mul(fq_pow(a, e), fq_pow(b, e)),
{
    let m = q() as int;
    let ai = a as int;
    let bi = b as int;
    assert(ai * bi >= 0) by (nonlinear_arith)
        requires
            ai >= 0,
            bi >= 0,
    ;
    vstd::arithmetic::power::lemma_pow_mod_noop(ai * bi, e, m);
    vstd::arithmetic::power::lemma_pow_distributes(ai, bi, e);
    lemma_mul_mod_noop(
        vstd::arithmetic::power::pow(ai, e),
        vstd::arithmetic::power::pow(bi, e),
        m,
    );
    lemma_mod_bound(ai * bi, m);
    crate::modular::lemma_pow_nonnegative(a, e);
    crate::modular::lemma_pow_nonnegative(b, e);
    crate::modular::lemma_pow_nonnegative(((ai * bi) % m) as nat, e);
    lemma_mod_bound(vstd::arithmetic::power::pow(ai, e), m);
    lemma_mod_bound(vstd::arithmetic::power::pow(bi, e), m);
    lemma_mod_bound(vstd::arithmetic::power::pow(ai * bi, e), m);
}

/// The product of two units is a unit.
pub proof fn lemma_unit_product(a: nat, b: nat)
    requires
        a < q(),
        b < q(),
        is_unit(a),
        is_unit(b),
    ensures
        is_unit(fq_mul(a, b)),
        fq_inv(fq_mul(a, b)) == fq_mul(fq_inv(a), fq_inv(b)),
{
    let ia = fq_inv(a);
    let ib = fq_inv(b);
    lemma_pow_of_product(a, b, (q() - 2) as nat);
    lemma_residue_self(a);
    lemma_residue_self(b);
    lemma_mod_bound(vstd::arithmetic::power::pow(a as int, (q() - 2) as nat), q() as int);
    lemma_mod_bound(vstd::arithmetic::power::pow(b as int, (q() - 2) as nat), q() as int);
    lemma_residue_self(ia);
    lemma_residue_self(ib);
    let (ai, bi, iai, ibi) = (a as int, b as int, ia as int, ib as int);
    lemma_residue_mul(a, ai, b, bi);
    lemma_residue_mul(ia, iai, ib, ibi);
    lemma_residue_mul(fq_mul(a, b), ai * bi, fq_mul(ia, ib), iai * ibi);
    lemma_residue_mul(a, ai, ia, iai);
    lemma_residue_mul(b, bi, ib, ibi);
    lemma_residue_mul(fq_mul(a, ia), ai * iai, fq_mul(b, ib), bi * ibi);
    assert((ai * bi) * (iai * ibi) == (ai * iai) * (bi * ibi)) by (nonlinear_arith);
    lemma_mul_one(1);
}

/// An element that multiplies a unit to one is the inverse of the unit.
pub proof fn lemma_unit_inverse_unique(w: nat, z: nat)
    requires
        w < q(),
        z < q(),
        is_unit(z),
        fq_mul(w, z) == 1,
    ensures
        w == fq_inv(z),
{
    let iz = fq_inv(z);
    lemma_mod_bound(vstd::arithmetic::power::pow(z as int, (q() - 2) as nat), q() as int);
    lemma_mul_associates(w, z, iz);
    lemma_mul_one(w);
    lemma_mul_one(iz);
}

} // verus!
