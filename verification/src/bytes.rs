//! Numbers below `2^256` as thirty-two bytes, least significant first.

use crate::limbs::limbs_value;
use vstd::prelude::*;

verus! {

/// The number that the eight bytes from index `8 * k` spell.
pub open spec fn le_word(b: [u8; 32], k: int) -> nat {
    (b[8 * k] + b[8 * k + 1] * 0x100 + b[8 * k + 2] * 0x1_0000 + b[8 * k + 3] * 0x100_0000 + b[8
        * k + 4] * 0x1_0000_0000 + b[8 * k + 5] * 0x100_0000_0000 + b[8 * k + 6]
        * 0x1_0000_0000_0000 + b[8 * k + 7] * 0x100_0000_0000_0000) as nat
}

/// The number that thirty-two bytes spell.
pub open spec fn bytes_value(b: [u8; 32]) -> nat {
    le_word(b, 0) + le_word(b, 1) * 0x1_0000_0000_0000_0000 + le_word(b, 2)
        * 0x1_0000_0000_0000_0000_0000_0000_0000_0000 + le_word(b, 3)
        * 0x1_0000_0000_0000_0000_0000_0000_0000_0000_0000_0000_0000_0000nat
}

/// Thirty-two bytes spell a number below `2^256`.
pub proof fn lemma_bytes_bound(b: [u8; 32])
    ensures
        bytes_value(b)
            < 0x1_0000_0000_0000_0000_0000_0000_0000_0000_0000_0000_0000_0000_0000_0000_0000_0000nat,
{
    assert(le_word(b, 0) < 0x1_0000_0000_0000_0000);
    assert(le_word(b, 1) < 0x1_0000_0000_0000_0000);
    assert(le_word(b, 2) < 0x1_0000_0000_0000_0000);
    assert(le_word(b, 3) < 0x1_0000_0000_0000_0000);
}

/// The word that the eight bytes from index `at` spell.
fn word_from_bytes(b: &[u8; 32], at: usize) -> (r: u64)
    requires
        at == 0 || at == 8 || at == 16 || at == 24,
    ensures
        r == le_word(*b, at as int / 8),
{
    (b[at] as u64) + (b[at + 1] as u64) * 0x100 + (b[at + 2] as u64) * 0x1_0000 + (b[at + 3] as u64)
        * 0x100_0000 + (b[at + 4] as u64) * 0x1_0000_0000 + (b[at + 5] as u64) * 0x100_0000_0000 + (
    b[at + 6] as u64) * 0x1_0000_0000_0000 + (b[at + 7] as u64) * 0x100_0000_0000_0000
}

/// The four limbs of the number that thirty-two bytes spell.
pub fn limbs_from_bytes(b: &[u8; 32]) -> (r: [u64; 4])
    ensures
        limbs_value(r) == bytes_value(*b),
{
    [word_from_bytes(b, 0), word_from_bytes(b, 8), word_from_bytes(b, 16), word_from_bytes(b, 24)]
}

/// The eight bytes of a word.
fn word_bytes(x: u64) -> (r: [u8; 8])
    ensures
        x == r[0] + r[1] * 0x100 + r[2] * 0x1_0000 + r[3] * 0x100_0000 + r[4] * 0x1_0000_0000
            + r[5] * 0x100_0000_0000 + r[6] * 0x1_0000_0000_0000 + r[7] * 0x100_0000_0000_0000,
{
    let x1: u64 = x / 0x100;
    let x2: u64 = x1 / 0x100;
    let x3: u64 = x2 / 0x100;
    let x4: u64 = x3 / 0x100;
    let x5: u64 = x4 / 0x100;
    let x6: u64 = x5 / 0x100;
    let x7: u64 = x6 / 0x100;
    [
        (x % 0x100) as u8,
        (x1 % 0x100) as u8,
        (x2 % 0x100) as u8,
        (x3 % 0x100) as u8,
        (x4 % 0x100) as u8,
        (x5 % 0x100) as u8,
        (x6 % 0x100) as u8,
        x7 as u8,
    ]
}

/// The thirty-two bytes of a four-limb number.
pub fn bytes_from_limbs(l: &[u64; 4]) -> (r: [u8; 32])
    ensures
        bytes_value(r) == limbs_value(*l),
{
    let a = word_bytes(l[0]);
    let b = word_bytes(l[1]);
    let c = word_bytes(l[2]);
    let d = word_bytes(l[3]);
    let r = [
        a[0], a[1], a[2], a[3], a[4], a[5], a[6], a[7],
        b[0], b[1], b[2], b[3], b[4], b[5], b[6], b[7],
        c[0], c[1], c[2], c[3], c[4], c[5], c[6], c[7],
        d[0], d[1], d[2], d[3], d[4], d[5], d[6], d[7],
    ];
    proof {
        assert(le_word(r, 0) == l[0]);
        assert(le_word(r, 1) == l[1]);
        assert(le_word(r, 2) == l[2]);
        assert(le_word(r, 3) == l[3]);
    }
    r
}

} // verus!
