//! Residues modulo `m` as natural numbers below `m`, and the congruences
//! that the limb arithmetic is proved against.

use vstd::arithmetic::div_mod::{
    lemma_add_mod_noop, lemma_mod_bound, lemma_mul_mod_noop, lemma_mul_mod_noop_left,
    lemma_mul_mod_noop_right, lemma_small_mod, lemma_sub_mod_noop,
};
use vstd::arithmetic::power::{lemma_pow0, lemma_pow1, lemma_pow_adds, lemma_pow_positive, pow};
use vstd::prelude::*;

verus! {

/// The sum of two residues.
pub open spec fn mod_add(a: nat, b: nat, m: nat) -> nat {
    (a + b) % m
}

/// The difference of two residues.
pub open spec fn mod_sub(a: nat, b: nat, m: nat) -> nat {
    ((a - b) % (m as int)) as nat
}

/// The additive inverse of a residue.
pub open spec fn mod_neg(a: nat, m: nat) -> nat {
    ((0 - a) % (m as int)) as nat
}

/// The product of two residues.
pub open spec fn mod_mul(a: nat, b: nat, m: nat) -> nat {
    (a * b) % m
}

/// The `e`-th power of a residue.
pub open spec fn mod_pow(a: nat, e: nat, m: nat) -> nat {
    (pow(a as int, e) % (m as int)) as nat
}

/// The residue that a number `n` stands for in Montgomery form, where `rinv`
/// is the inverse of `2^256` modulo `m`.
pub open spec fn mont_value(n: nat, rinv: nat, m: nat) -> nat {
    (n * rinv) % m
}

/// `rinv` is the inverse of `2^256` modulo `m`.
pub open spec fn is_radix_inverse(rinv: nat, m: nat) -> bool {
    &&& 1 < m
    &&& (0x1_0000_0000_0000_0000_0000_0000_0000_0000_0000_0000_0000_0000_0000_0000_0000_0000nat
        * rinv) % m == 1
}

/// Congruent numbers stay congruent when both are multiplied by `c`.
pub proof fn lemma_congruent_mul(a: int, b: int, c: int, m: int)
    requires
        0 < m,
        a % m == b % m,
    ensures
        (a * c) % m == (b * c) % m,
{
    lemma_mul_mod_noop_left(a, c, m);
    lemma_mul_mod_noop_left(b, c, m);
}

/// A factor congruent to one can be dropped.
pub proof fn lemma_unit_factor(a: int, u: int, m: int)
    requires
        1 < m,
        u % m == 1,
    ensures
        (a * u) % m == a % m,
{
    lemma_mul_mod_noop_right(a, u, m);
    assert(a * 1 == a);
}

/// The Montgomery form of a sum of residues stands for the sum of what they
/// stand for.
pub proof fn lemma_mont_add(a: nat, b: nat, rinv: nat, m: nat)
    requires
        0 < m,
    ensures
        mont_value((a + b) % m, rinv, m) == mod_add(mont_value(a, rinv, m), mont_value(b, rinv, m), m),
{
    let mi = m as int;
    lemma_mul_mod_noop_left((a + b) as int, rinv as int, mi);
    assert((a + b) * rinv == a * rinv + b * rinv) by (nonlinear_arith);
    lemma_add_mod_noop((a * rinv) as int, (b * rinv) as int, mi);
}

/// The Montgomery form of a difference of residues stands for the
/// difference of what they stand for.
pub proof fn lemma_mont_sub(a: nat, b: nat, rinv: nat, m: nat)
    requires
        0 < m,
    ensures
        mont_value(((a - b) % (m as int)) as nat, rinv, m) == mod_sub(
            mont_value(a, rinv, m),
            mont_value(b, rinv, m),
            m,
        ),
{
    let mi = m as int;
    lemma_mod_bound(a - b, mi);
    lemma_mul_mod_noop_left(a - b, rinv as int, mi);
    assert((a - b) * rinv == a * rinv - b * rinv) by (nonlinear_arith);
    lemma_sub_mod_noop((a * rinv) as int, (b * rinv) as int, mi);
    lemma_mod_bound((a * rinv) as int % mi - (b * rinv) as int % mi, mi);
}

/// A residue `r` with `r * 2^256` congruent to `a * b` stands for the
/// product of what `a` and `b` stand for.
pub proof fn lemma_mont_mul(r: nat, a: nat, b: nat, rinv: nat, m: nat)
    requires
        is_radix_inverse(rinv, m),
        (r * 0x1_0000_0000_0000_0000_0000_0000_0000_0000_0000_0000_0000_0000_0000_0000_0000_0000nat)
            % m == (a * b) % m,
    ensures
        mont_value(r, rinv, m) == mod_mul(mont_value(a, rinv, m), mont_value(b, rinv, m), m),
{
    let mi = m as int;
    let w = 0x1_0000_0000_0000_0000_0000_0000_0000_0000_0000_0000_0000_0000_0000_0000_0000_0000int;
    let ri = rinv as int;
    // r * rinv is congruent to (r * rinv) * (w * rinv) = (r * w) * (rinv * rinv)
    lemma_unit_factor(r * ri, w * ri, mi);
    assert((r * ri) * (w * ri) == (r * w) * (ri * ri)) by (nonlinear_arith);
    lemma_congruent_mul(r * w, (a * b) as int, ri * ri, mi);
    assert((a * b) * (ri * ri) == (a * ri) * (b * ri)) by (nonlinear_arith);
    lemma_mul_mod_noop((a * ri) as int, (b * ri) as int, mi);
}

/// Two residues that stand for the same number are the same.
pub proof fn lemma_mont_injective(a: nat, b: nat, rinv: nat, m: nat)
    requires
        is_radix_inverse(rinv, m),
        a < m,
        b < m,
        mont_value(a, rinv, m) == mont_value(b, rinv, m),
    ensures
        a == b,
{
    let mi = m as int;
    let w = 0x1_0000_0000_0000_0000_0000_0000_0000_0000_0000_0000_0000_0000_0000_0000_0000_0000int;
    let ri = rinv as int;
    lemma_congruent_mul(a * ri, b * ri, w, mi);
    assert((a * ri) * w == a * (w * ri)) by (nonlinear_arith);
    assert((b * ri) * w == b * (w * ri)) by (nonlinear_arith);
    lemma_unit_factor(a as int, w * ri, mi);
    lemma_unit_factor(b as int, w * ri, mi);
    lemma_small_mod(a, m);
    lemma_small_mod(b, m);
}

/// A residue `r` with `r * 2^256` congruent to `n` is what `n` stands for.
pub proof fn lemma_mont_canonical(r: nat, n: nat, rinv: nat, m: nat)
    requires
        is_radix_inverse(rinv, m),
        r < m,
        (r * 0x1_0000_0000_0000_0000_0000_0000_0000_0000_0000_0000_0000_0000_0000_0000_0000_0000nat)
            % m == n % m,
    ensures
        r == mont_value(n, rinv, m),
{
    let mi = m as int;
    let w = 0x1_0000_0000_0000_0000_0000_0000_0000_0000_0000_0000_0000_0000_0000_0000_0000_0000int;
    let ri = rinv as int;
    lemma_congruent_mul(r * w, n as int, ri, mi);
    assert((r * w) * ri == r * (w * ri)) by (nonlinear_arith);
    lemma_unit_factor(r as int, w * ri, mi);
    lemma_small_mod(r, m);
}

/// The Montgomery form of `2^256 mod m` stands for one, and that of
/// `2^512 mod m` stands for `2^256 mod m`.
pub proof fn lemma_mont_constants(rinv: nat, m: nat)
    requires
        is_radix_inverse(rinv, m),
    ensures
        mont_value(0, rinv, m) == 0,
        mont_value(
            0x1_0000_0000_0000_0000_0000_0000_0000_0000_0000_0000_0000_0000_0000_0000_0000_0000nat
                % m,
            rinv,
            m,
        ) == 1,
        mont_value(
            (0x1_0000_0000_0000_0000_0000_0000_0000_0000_0000_0000_0000_0000_0000_0000_0000_0000nat
                * 0x1_0000_0000_0000_0000_0000_0000_0000_0000_0000_0000_0000_0000_0000_0000_0000_0000nat)
                % m,
            rinv,
            m,
        ) == 0x1_0000_0000_0000_0000_0000_0000_0000_0000_0000_0000_0000_0000_0000_0000_0000_0000nat
            % m,
{
    let mi = m as int;
    let w = 0x1_0000_0000_0000_0000_0000_0000_0000_0000_0000_0000_0000_0000_0000_0000_0000_0000int;
    let ri = rinv as int;
    assert(0 * ri == 0);
    lemma_small_mod(0, m);
    lemma_mul_mod_noop_left(w, ri, mi);
    lemma_mul_mod_noop_left(w * w, ri, mi);
    assert((w * w) * ri == w * (w * ri)) by (nonlinear_arith);
    lemma_unit_factor(w, w * ri, mi);
}

/// The zeroth power is one, and the first power is the residue itself.
pub proof fn lemma_mod_pow_base(a: nat, m: nat)
    requires
        1 < m,
    ensures
        mod_pow(a, 0, m) == 1,
        mod_pow(a, 1, m) == a % m,
{
    lemma_pow0(a as int);
    lemma_pow1(a as int);
    lemma_small_mod(1, m);
}

/// Squaring a power doubles its exponent.
pub proof fn lemma_mod_pow_square(a: nat, e: nat, m: nat)
    requires
        0 < m,
    ensures
        mod_mul(mod_pow(a, e, m), mod_pow(a, e, m), m) == mod_pow(a, 2 * e, m),
{
    let p = pow(a as int, e);
    lemma_pow_nonnegative(a, e);
    lemma_pow_nonnegative(a, 2 * e);
    lemma_pow_adds(a as int, e, e);
    lemma_mul_mod_noop(p, p, m as int);
    lemma_mod_bound(p, m as int);
}

/// Multiplying a power by its base raises the exponent by one.
pub proof fn lemma_mod_pow_step(a: nat, e: nat, m: nat)
    requires
        0 < m,
    ensures
        mod_mul(mod_pow(a, e, m), a % m, m) == mod_pow(a, e + 1, m),
{
    let p = pow(a as int, e);
    lemma_pow_nonnegative(a, e);
    lemma_pow_nonnegative(a, e + 1);
    lemma_pow_adds(a as int, e, 1);
    lemma_pow1(a as int);
    lemma_mul_mod_noop(p, a as int, m as int);
    lemma_mod_bound(p, m as int);
}

/// A power of a natural number is not negative.
pub proof fn lemma_pow_nonnegative(a: nat, e: nat)
    ensures
        0 <= pow(a as int, e),
{
    if a == 0 {
        if e == 0 {
            lemma_pow0(0);
        } else {
            vstd::arithmetic::power::lemma0_pow(e);
        }
    } else {
        lemma_pow_positive(a as int, e);
    }
}

} // verus!
