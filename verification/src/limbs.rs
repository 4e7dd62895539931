//! Multi-word natural numbers: 64-bit limbs, least significant first, and the
//! carry-propagating steps that add, subtract and multiply them.

use vstd::prelude::*;

verus! {

/// The number that four limbs spell.
pub open spec fn limbs_value(l: [u64; 4]) -> nat {
    (l[0] + l[1] * 0x1_0000_0000_0000_0000 + l[2] * 0x1_0000_0000_0000_0000_0000_0000_0000_0000
        + l[3] * 0x1_0000_0000_0000_0000_0000_0000_0000_0000_0000_0000_0000_0000nat) as nat
}

/// The number that five limbs spell.
pub open spec fn limbs5_value(l: [u64; 5]) -> nat {
    (l[0] + l[1] * 0x1_0000_0000_0000_0000 + l[2] * 0x1_0000_0000_0000_0000_0000_0000_0000_0000
        + l[3] * 0x1_0000_0000_0000_0000_0000_0000_0000_0000_0000_0000_0000_0000nat
        + l[4] * 0x1_0000_0000_0000_0000_0000_0000_0000_0000_0000_0000_0000_0000_0000_0000_0000_0000nat) as nat
}

/// The number that eight limbs spell: the low four, and the high four times
/// `2^256`.
pub open spec fn limbs8_value(l: [u64; 8]) -> nat {
    limbs_value([l[0], l[1], l[2], l[3]]) + limbs_value([l[4], l[5], l[6], l[7]])
        * 0x1_0000_0000_0000_0000_0000_0000_0000_0000_0000_0000_0000_0000_0000_0000_0000_0000nat
}

/// Splits a double word into its low and high words.
pub fn split(s: u128) -> (r: (u64, u64))
    ensures
        r.0 + r.1 * 0x1_0000_0000_0000_0000 == s,
{
    let lo: u64 = #[verifier::truncate] (s as u64);
    let hi: u64 = (s >> 64) as u64;
    assert(lo + hi * 0x1_0000_0000_0000_0000 == s) by (bit_vector)
        requires
            lo == s as u64,
            hi == (s >> 64) as u64,
    ;
    (lo, hi)
}

/// `a + b + carry`, as a word and the carry out of it.
pub fn adc(a: u64, b: u64, carry: u64) -> (r: (u64, u64))
    ensures
        r.0 + r.1 * 0x1_0000_0000_0000_0000 == a + b + carry,
        r.1 <= 2,
        carry <= 1 ==> r.1 <= 1,
{
    let s: u128 = (a as u128) + (b as u128) + (carry as u128);
    split(s)
}

/// `a - b - borrow`, as a word and the borrow out of it.
pub fn sbb(a: u64, b: u64, borrow: u64) -> (r: (u64, u64))
    requires
        borrow <= 1,
    ensures
        r.0 - r.1 * 0x1_0000_0000_0000_0000 == a - b - borrow,
        r.1 <= 1,
{
    let s: u128 = (a as u128) + 0x1_0000_0000_0000_0000u128 - (b as u128) - (borrow as u128);
    let (lo, hi) = split(s);
    (lo, 1 - hi)
}

/// `a + b * c + carry`, as a word and the carry out of it.
pub fn mac(a: u64, b: u64, c: u64, carry: u64) -> (r: (u64, u64))
    ensures
        r.0 + r.1 * 0x1_0000_0000_0000_0000 == a + b * c + carry,
{
    assert(b * c <= 0xffff_ffff_ffff_fffe_0000_0000_0000_0001) by (nonlinear_arith)
        requires
            b <= 0xffff_ffff_ffff_ffff,
            c <= 0xffff_ffff_ffff_ffff,
    ;
    let s: u128 = (a as u128) + (b as u128) * (c as u128) + (carry as u128);
    split(s)
}

/// Adds `a` times the four-limb number `b` to the four-limb number `w`.
pub fn mac_row(w: &[u64; 4], a: u64, b: &[u64; 4]) -> (r: [u64; 5])
    ensures
        limbs5_value(r) == limbs_value(*w) + a * limbs_value(*b),
{
    let (y0, c0) = mac(w[0], a, b[0], 0);
    let (y1, c1) = mac(w[1], a, b[1], c0);
    let (y2, c2) = mac(w[2], a, b[2], c1);
    let (y3, c3) = mac(w[3], a, b[3], c2);
    let r = [y0, y1, y2, y3, c3];
    proof {
        lemma_scale_limbs(a as nat, *b);
    }
    r
}

/// A multiple of a four-limb number is the sum of the multiples of its
/// limbs, each at its weight.
pub proof fn lemma_scale_limbs(a: nat, b: [u64; 4])
    ensures
        a * limbs_value(b) == a * b[0] + (a * b[1]) * 0x1_0000_0000_0000_0000 + (a * b[2])
            * 0x1_0000_0000_0000_0000_0000_0000_0000_0000 + (a * b[3])
            * 0x1_0000_0000_0000_0000_0000_0000_0000_0000_0000_0000_0000_0000nat,
{
    let b0 = b[0] as int;
    let b1 = b[1] as int;
    let b2 = b[2] as int;
    let b3 = b[3] as int;
    let n = limbs_value(b) as int;
    let a = a as int;
    assert(a * (b0 + b1 * 0x1_0000_0000_0000_0000 + b2 * 0x1_0000_0000_0000_0000_0000_0000_0000_0000
        + b3 * 0x1_0000_0000_0000_0000_0000_0000_0000_0000_0000_0000_0000_0000int) == a * b0 + (a
        * b1) * 0x1_0000_0000_0000_0000 + (a * b2) * 0x1_0000_0000_0000_0000_0000_0000_0000_0000
        + (a * b3) * 0x1_0000_0000_0000_0000_0000_0000_0000_0000_0000_0000_0000_0000int)
        by (nonlinear_arith);
}

/// Four limbs spell a number below `2^256`.
pub proof fn lemma_limbs_bound(a: [u64; 4])
    ensures
        limbs_value(a)
            < 0x1_0000_0000_0000_0000_0000_0000_0000_0000_0000_0000_0000_0000_0000_0000_0000_0000nat,
{
}

/// Limbs that spell the same number are the same.
pub proof fn lemma_limbs_injective(a: [u64; 4], b: [u64; 4])
    requires
        limbs_value(a) == limbs_value(b),
    ensures
        a[0] == b[0],
        a[1] == b[1],
        a[2] == b[2],
        a[3] == b[3],
        a == b,
{
    let w = 0x1_0000_0000_0000_0000int;
    lemma_small_multiple(
        a[0] - b[0],
        (b[1] - a[1]) + (b[2] - a[2]) * w + (b[3] - a[3]) * 0x1_0000_0000_0000_0000_0000_0000_0000_0000,
        w,
    );
    lemma_small_multiple(a[1] - b[1], (b[2] - a[2]) + (b[3] - a[3]) * w, w);
    lemma_small_multiple(a[2] - b[2], b[3] - a[3], w);
    assert(a =~= b);
}

/// A four-limb number has the parity of its lowest limb.
pub proof fn lemma_limbs_parity(a: [u64; 4])
    ensures
        limbs_value(a) % 2 == a[0] % 2,
{
    let rest = a[1] * 0x8000_0000_0000_0000 + a[2] * 0x8000_0000_0000_0000_0000_0000_0000_0000
        + a[3] * 0x8000_0000_0000_0000_0000_0000_0000_0000_0000_0000_0000_0000int;
    assert(limbs_value(a) == 2 * rest + a[0]);
    vstd::arithmetic::div_mod::lemma_mod_multiples_vanish(rest, a[0] as int, 2);
}

/// A multiple of `w` strictly between `-w` and `w` is zero.
proof fn lemma_small_multiple(d: int, k: int, w: int)
    by (nonlinear_arith)
    requires
        d == w * k,
        -w < d < w,
    ensures
        d == 0,
        k == 0,
{
}

} // verus!
