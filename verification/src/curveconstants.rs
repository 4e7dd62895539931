//! The constants of the curve.

use crate::bytes::bytes_value;
use crate::curve::{d, d2, r};
use crate::fq::Fq;
use vstd::prelude::*;

verus! {

/// The order `r` of the scalar field as thirty-two bytes, least significant
/// first.
pub const FR_MODULUS_BYTES: [u8; 32] = [
    183, 44, 247, 214, 94, 14, 151, 208, 130, 16, 200, 204, 147, 32, 104, 166, 0, 59, 52, 1, 1, 59,
    103, 6, 169, 175, 51, 101, 234, 180, 125, 14,
];

/// The bytes spell `r`.
pub proof fn lemma_fr_modulus_bytes()
    ensures
        bytes_value(FR_MODULUS_BYTES) == r(),
{
    let b = FR_MODULUS_BYTES;
    assert(crate::bytes::le_word(b, 0) == 0xd0970e5ed6f72cb7);
    assert(crate::bytes::le_word(b, 1) == 0xa6682093ccc81082);
    assert(crate::bytes::le_word(b, 2) == 0x06673b0101343b00);
    assert(crate::bytes::le_word(b, 3) == 0x0e7db4ea6533afa9);
}

/// The curve constant `d = -(10240/10241)`.
pub fn edwards_d() -> (c: Fq)
    ensures
        c@ == d(),
{
    Fq::from_raw([0x01065fd6d6343eb1, 0x292d7f6d37579d26, 0xf5fd9207e6bd7fd4, 0x2a9318e74bfa2b48])
}

/// Twice the curve constant.
pub fn edwards_d2() -> (c: Fq)
    ensures
        c@ == d2(),
{
    Fq::from_raw([0x020cbfadac687d62, 0x525afeda6eaf3a4c, 0xebfb240fcd7affa8, 0x552631ce97f45691])
}

/// `d2` is twice `d`.
pub proof fn lemma_d2_is_twice_d()
    ensures
        d2() == crate::fq::fq_add(d(), d()),
{
}

} // verus!
