//! Arithmetic modulo an odd number below `2^255`, on four-limb numbers: sums
//! and differences on plain residues, products by Montgomery reduction.

use crate::choice::{ct_eq_u64, select_u64, Choice};
use crate::limbs::{
    adc, lemma_limbs_injective, lemma_scale_limbs, limbs8_value, limbs_value, mac_row, sbb, split,
};
use crate::modular::{
    is_radix_inverse, lemma_mod_pow_base, lemma_mod_pow_square, lemma_mod_pow_step,
    lemma_mont_add, lemma_mont_canonical, lemma_mont_constants, lemma_mont_injective,
    lemma_mont_mul, lemma_mont_sub, mod_add, mod_mul, mod_neg, mod_pow,
    mod_sub, mont_value,
};
use vstd::arithmetic::div_mod::{lemma_mod_multiples_vanish, lemma_small_mod};
use vstd::arithmetic::power2::{lemma2_to64, lemma2_to64_rest, lemma_pow2_unfold, pow2};
use vstd::prelude::*;

verus! {

/// What the reduction needs of a modulus `m` and its companion word `inv`:
/// `m` is below `2^255`, and `m * inv` is `-1` modulo `2^64` (so `m` is odd).
pub open spec fn modulus_ok(m: [u64; 4], inv: u64) -> bool {
    &&& 1 < limbs_value(m)
    &&& limbs_value(m) < 0x8000_0000_0000_0000_0000_0000_0000_0000_0000_0000_0000_0000_0000_0000_0000_0000nat
    &&& (m[0] * inv + 1) % 0x1_0000_0000_0000_0000 == 0
}

/// `x` when the bit is set, zero otherwise, by masking.
fn masked(x: u64, bit: u64) -> (r: u64)
    requires
        bit <= 1,
    ensures
        r == (if bit == 1 { x } else { 0 }),
{
    let mask: u64 = 0u64.wrapping_sub(bit);
    assert(x & 0 == 0) by (bit_vector);
    assert(x & 0xffff_ffff_ffff_ffff == x) by (bit_vector);
    x & mask
}

/// The sum of two four-limb numbers, as four limbs and the carry out of
/// them.
pub fn add_limbs(a: &[u64; 4], b: &[u64; 4]) -> (r: ([u64; 4], u64))
    ensures
        r.1 <= 1,
        limbs_value(r.0) + r.1
            * 0x1_0000_0000_0000_0000_0000_0000_0000_0000_0000_0000_0000_0000_0000_0000_0000_0000nat
            == limbs_value(*a) + limbs_value(*b),
{
    let (s0, c0) = adc(a[0], b[0], 0);
    let (s1, c1) = adc(a[1], b[1], c0);
    let (s2, c2) = adc(a[2], b[2], c1);
    let (s3, c3) = adc(a[3], b[3], c2);
    ([s0, s1, s2, s3], c3)
}

/// The difference of two four-limb numbers, as four limbs and the borrow
/// out of them.
pub fn sub_limbs(a: &[u64; 4], b: &[u64; 4]) -> (r: ([u64; 4], u64))
    ensures
        r.1 <= 1,
        limbs_value(r.0) - r.1
            * 0x1_0000_0000_0000_0000_0000_0000_0000_0000_0000_0000_0000_0000_0000_0000_0000_0000nat
            == limbs_value(*a) - limbs_value(*b),
        (r.1 == 1) == (limbs_value(*a) < limbs_value(*b)),
{
    let (d0, w0) = sbb(a[0], b[0], 0);
    let (d1, w1) = sbb(a[1], b[1], w0);
    let (d2, w2) = sbb(a[2], b[2], w1);
    let (d3, w3) = sbb(a[3], b[3], w2);
    let d = [d0, d1, d2, d3];
    proof {
        crate::limbs::lemma_limbs_bound(d);
    }
    (d, w3)
}

/// The four-limb number when the bit is set, zero otherwise, by masking.
fn masked_limbs(x: &[u64; 4], bit: u64) -> (r: [u64; 4])
    requires
        bit <= 1,
    ensures
        limbs_value(r) == (if bit == 1 { limbs_value(*x) } else { 0 }),
{
    [masked(x[0], bit), masked(x[1], bit), masked(x[2], bit), masked(x[3], bit)]
}

/// The difference `a - b`, brought back into range by adding `m` when it is
/// negative.
pub fn sub_mod(a: &[u64; 4], b: &[u64; 4], m: &[u64; 4]) -> (r: [u64; 4])
    requires
        limbs_value(*a) < limbs_value(*b) + limbs_value(*m),
        limbs_value(*b) <= limbs_value(*a) + limbs_value(*m),
    ensures
        limbs_value(r) == (if limbs_value(*a) >= limbs_value(*b) {
            limbs_value(*a) - limbs_value(*b)
        } else {
            limbs_value(*a) + limbs_value(*m) - limbs_value(*b)
        }),
{
    let (d, borrow) = sub_limbs(a, b);
    let (e, carry) = add_limbs(&d, &masked_limbs(m, borrow));
    proof {
        crate::limbs::lemma_limbs_bound(e);
        crate::limbs::lemma_limbs_bound(d);
    }
    e
}

/// The sum of two residues, reduced.
pub fn add_mod(a: &[u64; 4], b: &[u64; 4], m: &[u64; 4]) -> (r: [u64; 4])
    requires
        limbs_value(*m) < 0x8000_0000_0000_0000_0000_0000_0000_0000_0000_0000_0000_0000_0000_0000_0000_0000nat,
        limbs_value(*a) < limbs_value(*m),
        limbs_value(*b) < limbs_value(*m),
    ensures
        limbs_value(r) == (limbs_value(*a) + limbs_value(*b)) % limbs_value(*m),
        limbs_value(r) < limbs_value(*m),
{
    let (s, carry) = add_limbs(a, b);
    let r = sub_mod(&s, m, m);
    proof {
        let n = limbs_value(*m);
        let t = limbs_value(*a) + limbs_value(*b);
        assert(limbs_value(s) == t);
        if t < n {
            lemma_small_mod(t, n);
        } else {
            lemma_small_mod((t - n) as nat, n);
            lemma_mod_multiples_vanish(1, t - n, n as int);
        }
    }
    r
}

/// The difference of two residues, reduced.
pub fn sub_residues(a: &[u64; 4], b: &[u64; 4], m: &[u64; 4]) -> (r: [u64; 4])
    requires
        limbs_value(*a) < limbs_value(*m),
        limbs_value(*b) < limbs_value(*m),
    ensures
        limbs_value(r) == (limbs_value(*a) - limbs_value(*b)) % (limbs_value(*m) as int),
        limbs_value(r) < limbs_value(*m),
{
    let r = sub_mod(a, b, m);
    proof {
        let n = limbs_value(*m);
        let t = limbs_value(*a) - limbs_value(*b);
        if t >= 0 {
            lemma_small_mod(t as nat, n);
        } else {
            lemma_small_mod((t + n) as nat, n);
            lemma_mod_multiples_vanish(1, t, n as int);
        }
    }
    r
}

/// The product of two four-limb numbers.
pub fn mul_wide(a: &[u64; 4], b: &[u64; 4]) -> (r: [u64; 8])
    ensures
        limbs8_value(r) == limbs_value(*a) * limbs_value(*b),
{
    let r0 = mac_row(&[0, 0, 0, 0], a[0], b);
    let r1 = mac_row(&[r0[1], r0[2], r0[3], r0[4]], a[1], b);
    let r2 = mac_row(&[r1[1], r1[2], r1[3], r1[4]], a[2], b);
    let r3 = mac_row(&[r2[1], r2[2], r2[3], r2[4]], a[3], b);
    let r = [r0[0], r1[0], r2[0], r3[0], r3[1], r3[2], r3[3], r3[4]];
    proof {
        let n = limbs_value(*b);
        lemma_scale_limbs(n, *a);
        assert(a[0] * n == n * a[0]) by (nonlinear_arith);
        assert(a[1] * n == n * a[1]) by (nonlinear_arith);
        assert(a[2] * n == n * a[2]) by (nonlinear_arith);
        assert(a[3] * n == n * a[3]) by (nonlinear_arith);
        assert(limbs_value(*a) * n == n * limbs_value(*a)) by (nonlinear_arith);
    }
    r
}

/// One round of the reduction: adds the multiple `k * m` that clears the
/// lowest limb of the window `x`, and shifts the window down by one limb,
/// taking in `top` and the carry of the round before.
fn reduce_round(x: &[u64; 4], top: u64, carry: u64, m: &[u64; 4], inv: u64) -> (r: (
    [u64; 4],
    u64,
    u64,
))
    requires
        carry <= 1,
        (m[0] * inv + 1) % 0x1_0000_0000_0000_0000 == 0,
    ensures
        r.1 <= 1,
        limbs_value(*x) + (top + carry)
            * 0x1_0000_0000_0000_0000_0000_0000_0000_0000_0000_0000_0000_0000_0000_0000_0000_0000nat
            + r.2 * limbs_value(*m) == 0x1_0000_0000_0000_0000 * (limbs_value(r.0) + r.1
            * 0x1_0000_0000_0000_0000_0000_0000_0000_0000_0000_0000_0000_0000_0000_0000_0000_0000nat),
{
    assert(x[0] * inv <= 0xffff_ffff_ffff_fffe_0000_0000_0000_0001) by (nonlinear_arith)
        requires
            x[0] <= 0xffff_ffff_ffff_ffff,
            inv <= 0xffff_ffff_ffff_ffff,
    ;
    let (k, hi) = split((x[0] as u128) * (inv as u128));
    let y = mac_row(x, k, m);
    let (z, c) = adc(top, carry, y[4]);
    proof {
        let w = 0x1_0000_0000_0000_0000int;
        let q = (m[0] * inv + 1) / w;
        let x0 = x[0] as int;
        let m0 = m[0] as int;
        let i = inv as int;
        let k = k as int;
        let hi = hi as int;
        assert(m0 * i + 1 == q * w);
        assert(k * m0 + x0 == w * (x0 * q - hi * m0)) by (nonlinear_arith)
            requires
                k + hi * w == x0 * i,
                m0 * i + 1 == q * w,
        ;
        lemma_scale_limbs(k as nat, *m);
        let rest = x[1] + x[2] * w + x[3] * 0x1_0000_0000_0000_0000_0000_0000_0000_0000 + (k
            * m[1]) + (k * m[2]) * w + (k * m[3]) * 0x1_0000_0000_0000_0000_0000_0000_0000_0000
            - y[1] - y[2] * w - y[3] * 0x1_0000_0000_0000_0000_0000_0000_0000_0000 - y[4]
            * 0x1_0000_0000_0000_0000_0000_0000_0000_0000_0000_0000_0000_0000int;
        assert(y[0] == w * (x0 * q - hi * m0 + rest));
        assert(y[0] == 0) by (nonlinear_arith)
            requires
                y[0] == w * (x0 * q - hi * m0 + rest),
                0 <= y[0] < w,
                w == 0x1_0000_0000_0000_0000int,
        ;
    }
    ([y[1], y[2], y[3], z], c, k)
}

/// Montgomery reduction: from a number `t` below `m * 2^256`, the residue
/// `r` with `r * 2^256` congruent to `t` modulo `m`.
pub fn montgomery_reduce(t: &[u64; 8], m: &[u64; 4], inv: u64) -> (r: [u64; 4])
    requires
        modulus_ok(*m, inv),
        limbs8_value(*t) < limbs_value(*m)
            * 0x1_0000_0000_0000_0000_0000_0000_0000_0000_0000_0000_0000_0000_0000_0000_0000_0000nat,
    ensures
        limbs_value(r) < limbs_value(*m),
        (limbs_value(r)
            * 0x1_0000_0000_0000_0000_0000_0000_0000_0000_0000_0000_0000_0000_0000_0000_0000_0000nat)
            % limbs_value(*m) == limbs8_value(*t) % limbs_value(*m),
{
    let (w1, c1, k0) = reduce_round(&[t[0], t[1], t[2], t[3]], t[4], 0, m, inv);
    let (w2, c2, k1) = reduce_round(&w1, t[5], c1, m, inv);
    let (w3, c3, k2) = reduce_round(&w2, t[6], c2, m, inv);
    let (w4, c4, k3) = reduce_round(&w3, t[7], c3, m, inv);
    proof {
        let n = limbs_value(*m) as int;
        lemma_mul_bound(k0 as int, n);
        lemma_mul_bound(k1 as int, n);
        lemma_mul_bound(k2 as int, n);
        lemma_mul_bound(k3 as int, n);
        assert(limbs_value(w4) + c4
            * 0x1_0000_0000_0000_0000_0000_0000_0000_0000_0000_0000_0000_0000_0000_0000_0000_0000int
            < 2 * n);
        assert(c4 == 0);
    }
    let r = sub_mod(&w4, m, m);
    proof {
        let n = limbs_value(*m) as int;
        let r256 =
            0x1_0000_0000_0000_0000_0000_0000_0000_0000_0000_0000_0000_0000_0000_0000_0000_0000int;
        let d: int = if limbs_value(w4) >= n { 1 } else { 0 };
        let j = k0 + k1 * 0x1_0000_0000_0000_0000 + k2 * 0x1_0000_0000_0000_0000_0000_0000_0000_0000
            + k3 * 0x1_0000_0000_0000_0000_0000_0000_0000_0000_0000_0000_0000_0000int - d * r256;
        assert(n * j == k0 * n + (k1 * n) * 0x1_0000_0000_0000_0000 + (k2 * n)
            * 0x1_0000_0000_0000_0000_0000_0000_0000_0000 + (k3 * n)
            * 0x1_0000_0000_0000_0000_0000_0000_0000_0000_0000_0000_0000_0000int - d * n * r256)
            by (nonlinear_arith)
            requires
                j == k0 + k1 * 0x1_0000_0000_0000_0000 + k2
                    * 0x1_0000_0000_0000_0000_0000_0000_0000_0000 + k3
                    * 0x1_0000_0000_0000_0000_0000_0000_0000_0000_0000_0000_0000_0000int - d * r256,
        ;
        assert(limbs_value(r) * r256 == n * j + limbs8_value(*t));
        lemma_mod_multiples_vanish(j, limbs8_value(*t) as int, n);
    }
    r
}

/// A word times `n` is at most `2^64 - 1` times `n`.
proof fn lemma_mul_bound(k: int, n: int)
    by (nonlinear_arith)
    requires
        0 <= k <= 0xffff_ffff_ffff_ffff,
        0 <= n,
    ensures
        0 <= k * n <= 0xffff_ffff_ffff_ffff * n,
{
}

/// The residues modulo an odd number below `2^255`, held in Montgomery form:
/// a residue `x` is stored as the four limbs of `x * 2^256 mod m`.
pub struct Ring {
    /// The modulus `m`.
    pub modulus: [u64; 4],
    /// `-1 / m` modulo `2^64`.
    pub inv: u64,
    /// `2^256 mod m`, the form of one.
    pub one: [u64; 4],
    /// `2^512 mod m`, the factor that brings a plain number into the form.
    pub r2: [u64; 4],
    /// The inverse of `2^256` modulo `m`.
    pub rinv: Ghost<nat>,
}

impl Ring {
    /// The modulus as a number.
    pub open spec fn m(&self) -> nat {
        limbs_value(self.modulus)
    }

    /// The constants belong to the modulus.
    pub open spec fn wf(&self) -> bool {
        &&& modulus_ok(self.modulus, self.inv)
        &&& is_radix_inverse(self.rinv@, self.m())
        &&& limbs_value(self.one)
            == 0x1_0000_0000_0000_0000_0000_0000_0000_0000_0000_0000_0000_0000_0000_0000_0000_0000nat
            % self.m()
        &&& limbs_value(self.r2) == (
        0x1_0000_0000_0000_0000_0000_0000_0000_0000_0000_0000_0000_0000_0000_0000_0000_0000nat
            * 0x1_0000_0000_0000_0000_0000_0000_0000_0000_0000_0000_0000_0000_0000_0000_0000_0000nat)
            % self.m()
    }

    /// The limbs spell a number below the modulus.
    pub open spec fn reduced(&self, x: [u64; 4]) -> bool {
        limbs_value(x) < self.m()
    }

    /// The residue that the limbs stand for.
    pub open spec fn value(&self, x: [u64; 4]) -> nat {
        mont_value(limbs_value(x), self.rinv@, self.m())
    }

    /// The form of zero.
    pub fn zero(&self) -> (r: [u64; 4])
        requires
            self.wf(),
        ensures
            self.reduced(r),
            self.value(r) == 0,
    {
        proof {
            lemma_mont_constants(self.rinv@, self.m());
        }
        [0, 0, 0, 0]
    }

    /// The form of one.
    pub fn one(&self) -> (r: [u64; 4])
        requires
            self.wf(),
        ensures
            self.reduced(r),
            self.value(r) == 1,
    {
        proof {
            lemma_mont_constants(self.rinv@, self.m());
            vstd::arithmetic::div_mod::lemma_mod_bound(
                0x1_0000_0000_0000_0000_0000_0000_0000_0000_0000_0000_0000_0000_0000_0000_0000_0000int,
                self.m() as int,
            );
        }
        self.one
    }

    /// The sum of two residues.
    pub fn add(&self, a: &[u64; 4], b: &[u64; 4]) -> (r: [u64; 4])
        requires
            self.wf(),
            self.reduced(*a),
            self.reduced(*b),
        ensures
            self.reduced(r),
            self.value(r) == mod_add(self.value(*a), self.value(*b), self.m()),
    {
        proof {
            lemma_mont_add(limbs_value(*a), limbs_value(*b), self.rinv@, self.m());
        }
        add_mod(a, b, &self.modulus)
    }

    /// The difference of two residues.
    pub fn sub(&self, a: &[u64; 4], b: &[u64; 4]) -> (r: [u64; 4])
        requires
            self.wf(),
            self.reduced(*a),
            self.reduced(*b),
        ensures
            self.reduced(r),
            self.value(r) == mod_sub(self.value(*a), self.value(*b), self.m()),
    {
        proof {
            lemma_mont_sub(limbs_value(*a), limbs_value(*b), self.rinv@, self.m());
        }
        sub_residues(a, b, &self.modulus)
    }

    /// The additive inverse of a residue.
    pub fn neg(&self, a: &[u64; 4]) -> (r: [u64; 4])
        requires
            self.wf(),
            self.reduced(*a),
        ensures
            self.reduced(r),
            self.value(r) == mod_neg(self.value(*a), self.m()),
    {
        let z = self.zero();
        self.sub(&z, a)
    }

    /// The product of two residues.
    pub fn mul(&self, a: &[u64; 4], b: &[u64; 4]) -> (r: [u64; 4])
        requires
            self.wf(),
            self.reduced(*a),
            self.reduced(*b),
        ensures
            self.reduced(r),
            self.value(r) == mod_mul(self.value(*a), self.value(*b), self.m()),
    {
        let t = mul_wide(a, b);
        proof {
            lemma_product_bound(limbs_value(*a), limbs_value(*b), self.m());
        }
        let r = montgomery_reduce(&t, &self.modulus, self.inv);
        proof {
            lemma_mont_mul(
                limbs_value(r),
                limbs_value(*a),
                limbs_value(*b),
                self.rinv@,
                self.m(),
            );
        }
        r
    }

    /// The residue of a plain four-limb number, brought into the form.
    pub fn from_raw(&self, v: &[u64; 4]) -> (r: [u64; 4])
        requires
            self.wf(),
        ensures
            self.reduced(r),
            self.value(r) == limbs_value(*v) % self.m(),
    {
        let t = mul_wide(v, &self.r2);
        proof {
            vstd::arithmetic::div_mod::lemma_mod_bound(
                0x1_0000_0000_0000_0000_0000_0000_0000_0000_0000_0000_0000_0000_0000_0000_0000_0000int
                    * 0x1_0000_0000_0000_0000_0000_0000_0000_0000_0000_0000_0000_0000_0000_0000_0000_0000int,
                self.m() as int,
            );
            crate::limbs::lemma_limbs_bound(*v);
            lemma_product_bound(limbs_value(self.r2), limbs_value(*v), self.m());
            assert(limbs_value(*v) * limbs_value(self.r2) == limbs_value(self.r2) * limbs_value(*v))
                by (nonlinear_arith);
        }
        let r = montgomery_reduce(&t, &self.modulus, self.inv);
        proof {
            let w =
                0x1_0000_0000_0000_0000_0000_0000_0000_0000_0000_0000_0000_0000_0000_0000_0000_0000nat;
            lemma_mont_mul(
                limbs_value(r),
                limbs_value(*v),
                limbs_value(self.r2),
                self.rinv@,
                self.m(),
            );
            lemma_mont_constants(self.rinv@, self.m());
            // value(r) = ((v * rinv) % m) * (w % m) % m = (v * rinv * w) % m = v % m
            let vi = limbs_value(*v) as int;
            let ri = self.rinv@ as int;
            let mi = self.m() as int;
            vstd::arithmetic::div_mod::lemma_mul_mod_noop(vi * ri, w as int, mi);
            assert((vi * ri) * w == vi * (w * ri)) by (nonlinear_arith);
            crate::modular::lemma_unit_factor(vi, w * ri, mi);
        }
        r
    }

    /// The residue that the limbs stand for, as a plain four-limb number.
    pub fn to_raw(&self, a: &[u64; 4]) -> (r: [u64; 4])
        requires
            self.wf(),
            self.reduced(*a),
        ensures
            limbs_value(r) == self.value(*a),
    {
        let t = [a[0], a[1], a[2], a[3], 0, 0, 0, 0];
        proof {
            assert(limbs8_value(t) == limbs_value(*a));
            assert(limbs_value(*a) < self.m()
                * 0x1_0000_0000_0000_0000_0000_0000_0000_0000_0000_0000_0000_0000_0000_0000_0000_0000nat)
                by (nonlinear_arith)
                requires
                    limbs_value(*a) < self.m(),
            ;
        }
        let r = montgomery_reduce(&t, &self.modulus, self.inv);
        proof {
            lemma_mont_canonical(limbs_value(r), limbs_value(*a), self.rinv@, self.m());
        }
        r
    }

    /// Whether two residues are the same, without branching on them.
    pub fn ct_eq(&self, a: &[u64; 4], b: &[u64; 4]) -> (r: Choice)
        requires
            self.wf(),
            self.reduced(*a),
            self.reduced(*b),
        ensures
            r@ == (self.value(*a) == self.value(*b)),
            r@ == (limbs_value(*a) == limbs_value(*b)),
    {
        let r = ct_eq_u64(a[0], b[0]).and(ct_eq_u64(a[1], b[1])).and(ct_eq_u64(a[2], b[2])).and(
            ct_eq_u64(a[3], b[3]),
        );
        proof {
            if limbs_value(*a) == limbs_value(*b) {
                lemma_limbs_injective(*a, *b);
            }
            if self.value(*a) == self.value(*b) {
                lemma_mont_injective(limbs_value(*a), limbs_value(*b), self.rinv@, self.m());
            }
        }
        r
    }

    /// The power of a residue to a four-limb exponent, by squaring and
    /// multiplying from the highest bit down.  The running time depends on
    /// the exponent, not on the base.
    pub fn pow_vartime(&self, base: &[u64; 4], exp: &[u64; 4]) -> (r: [u64; 4])
        requires
            self.wf(),
            self.reduced(*base),
        ensures
            self.reduced(r),
            self.value(r) == mod_pow(self.value(*base), limbs_value(*exp), self.m()),
    {
        let ghost b = self.value(*base);
        let ghost m = self.m();
        let mut acc = self.one();
        let ghost mut e: nat = 0;
        let mut i: usize = 4;
        proof {
            lemma_mod_pow_base(b, m);
            vstd::arithmetic::div_mod::lemma_mod_bound((limbs_value(*base) * self.rinv@) as int, m as int);
            lemma_small_mod(b, m);
        }
        while i > 0
            invariant
                self.wf(),
                self.reduced(*base),
                self.reduced(acc),
                b == self.value(*base),
                b % m == b,
                m == self.m(),
                i <= 4,
                e == limbs_above(*exp, i as int),
                self.value(acc) == mod_pow(b, e, m),
            decreases i,
        {
            i = i - 1;
            let limb: u64 = exp[i];
            let ghost e0 = e;
            let mut j: u64 = 64;
            proof {
                vstd::arithmetic::power2::lemma2_to64();
                assert(e0 * pow2(0) == e0) by (nonlinear_arith)
                    requires
                        pow2(0) == 1,
                ;
            }
            while j > 0
                invariant
                    self.wf(),
                    self.reduced(*base),
                    self.reduced(acc),
                    b == self.value(*base),
                    b % m == b,
                    m == self.m(),
                    j <= 64,
                    e == e0 * pow2((64 - j) as nat) + high_bits(limb, j),
                    self.value(acc) == mod_pow(b, e, m),
                decreases j,
            {
                j = j - 1;
                let ghost e1 = e;
                acc = self.mul(&acc, &acc);
                proof {
                    lemma_mod_pow_square(b, e, m);
                    e = 2 * e;
                }
                let bit: u64 = (limb >> j) & 1;
                if bit == 1 {
                    acc = self.mul(&acc, base);
                    proof {
                        lemma_mod_pow_step(b, e, m);
                        e = e + 1;
                    }
                }
                proof {
                    lemma_high_bits_step(limb, j);
                    lemma_pow2_unfold((64 - j) as nat);
                    let p = pow2((63 - j) as nat);
                    assert(2 * (e0 * p) == e0 * (2 * p)) by (nonlinear_arith);
                }
            }
            proof {
                lemma2_to64_rest();
                lemma_high_bits_step(limb, 0);
                assert(e0 * pow2(64) == e0 * 0x1_0000_0000_0000_0000) by (nonlinear_arith)
                    requires
                        pow2(64) == 0x1_0000_0000_0000_0000,
                ;
            }
        }
        acc
    }
}

/// The second of two four-limb numbers when the choice is set, the first
/// otherwise, without branching on the choice.
pub fn select_limbs(a: &[u64; 4], b: &[u64; 4], choice: Choice) -> (r: [u64; 4])
    ensures
        r == (if choice@ { *b } else { *a }),
{
    let r = [
        select_u64(a[0], b[0], choice),
        select_u64(a[1], b[1], choice),
        select_u64(a[2], b[2], choice),
        select_u64(a[3], b[3], choice),
    ];
    assert(r =~= (if choice@ { *b } else { *a }));
    r
}

/// A product of numbers below two bounds is below the product of the
/// bounds.
proof fn lemma_product_bound(a: nat, b: nat, m: nat)
    by (nonlinear_arith)
    requires
        a < m,
        b < 0x1_0000_0000_0000_0000_0000_0000_0000_0000_0000_0000_0000_0000_0000_0000_0000_0000nat,
    ensures
        a * b < m
            * 0x1_0000_0000_0000_0000_0000_0000_0000_0000_0000_0000_0000_0000_0000_0000_0000_0000nat,
{
}

/// The number that the limbs from index `i` up spell.
pub open spec fn limbs_above(l: [u64; 4], i: int) -> nat {
    if i >= 4 {
        0
    } else if i == 3 {
        l[3] as nat
    } else if i == 2 {
        (l[2] + l[3] * 0x1_0000_0000_0000_0000) as nat
    } else if i == 1 {
        (l[1] + l[2] * 0x1_0000_0000_0000_0000 + l[3] * 0x1_0000_0000_0000_0000_0000_0000_0000_0000) as nat
    } else {
        limbs_value(l)
    }
}

/// The number that the bits of a word from position `j` up spell.
pub open spec fn high_bits(x: u64, j: u64) -> nat {
    if j >= 64 {
        0
    } else {
        (x >> j) as nat
    }
}

/// Taking one more bit in doubles the number that the higher bits spell and
/// adds the bit.
pub proof fn lemma_high_bits_step(x: u64, j: u64)
    requires
        j < 64,
    ensures
        (x >> j) & 1 <= 1,
        high_bits(x, j) == 2 * high_bits(x, (j + 1) as u64) + ((x >> j) & 1),
        high_bits(x, 0) == x,
{
    assert((x >> j) & 1 <= 1) by (bit_vector);
    assert(x >> 0 == x) by (bit_vector);
    if j == 63 {
        assert((x >> 63) == (x >> 63) & 1) by (bit_vector);
    } else {
        let k: u64 = (j + 1) as u64;
        assert((x >> j) == 2 * (x >> k) + ((x >> j) & 1)) by (bit_vector)
            requires
                j < 63,
                k == j + 1,
        ;
    }
}

} // verus!
