//! The scalar field of the curve: the integers modulo
//! `r = 0x0e7db4ea6533afa906673b0101343b00a6682093ccc81082d0970e5ed6f72cb7`,
//! the order of the prime-order subgroup.

use crate::bytes::{bytes_from_limbs, bytes_value};
use crate::choice::{Choice, ConditionallySelectable};
use crate::curve::r;
use crate::limbs::limbs_value;
use crate::modular::{mod_add, mod_mul, mod_neg, mod_sub, mont_value};
use crate::montgomery::{select_limbs, Ring};
use vstd::prelude::*;

verus! {

/// The inverse of `2^256` modulo `r`.
pub closed spec fn r_radix_inverse() -> nat {
    0x0377_0b6e_fd93_2e71_fc5c_01c9_786f_f12e_d184_64ec_5269_7f10_b676_cc17_e023_3211nat
}

/// `r_radix_inverse` is the inverse of `2^256` modulo `r`.
pub proof fn lemma_r_radix_inverse()
    ensures
        crate::modular::is_radix_inverse(r_radix_inverse(), r()),
{
    assert((0x1_0000_0000_0000_0000_0000_0000_0000_0000_0000_0000_0000_0000_0000_0000_0000_0000nat
        * 0x0377_0b6e_fd93_2e71_fc5c_01c9_786f_f12e_d184_64ec_5269_7f10_b676_cc17_e023_3211nat)
        % 0x0e7d_b4ea_6533_afa9_0667_3b01_0134_3b00_a668_2093_ccc8_1082_d097_0e5e_d6f7_2cb7nat
        == 1);
}

/// The limbs of `r`, of `2^256 mod r` and of `2^512 mod r`, and the word
/// that is `-1/r` modulo `2^64`.
proof fn lemma_r_constants()
    ensures
        limbs_value(
            [0xd0970e5ed6f72cb7, 0xa6682093ccc81082, 0x06673b0101343b00, 0x0e7db4ea6533afa9],
        ) == r(),
        (0xd0970e5ed6f72cb7u64 * 0x1ba3a358ef788ef9u64 + 1) % 0x1_0000_0000_0000_0000 == 0,
        limbs_value(
            [0x25f80bb3b99607d9, 0xf315d62f66b6e750, 0x932514eeeb8814f4, 0x09a6fc6f479155c6],
        ) == 0x1_0000_0000_0000_0000_0000_0000_0000_0000_0000_0000_0000_0000_0000_0000_0000_0000nat
            % r(),
        limbs_value(
            [0x67719aa495e57731, 0x51b0cef09ce3fc26, 0x69dab7fac026e9a5, 0x04f6547b8d127688],
        ) == (
        0x1_0000_0000_0000_0000_0000_0000_0000_0000_0000_0000_0000_0000_0000_0000_0000_0000nat
            * 0x1_0000_0000_0000_0000_0000_0000_0000_0000_0000_0000_0000_0000_0000_0000_0000_0000nat)
            % r(),
{
    assert(0x1_0000_0000_0000_0000_0000_0000_0000_0000_0000_0000_0000_0000_0000_0000_0000_0000nat
        % 0x0e7d_b4ea_6533_afa9_0667_3b01_0134_3b00_a668_2093_ccc8_1082_d097_0e5e_d6f7_2cb7nat
        == 0x09a6_fc6f_4791_55c6_9325_14ee_eb88_14f4_f315_d62f_66b6_e750_25f8_0bb3_b996_07d9nat);
    assert((0x1_0000_0000_0000_0000_0000_0000_0000_0000_0000_0000_0000_0000_0000_0000_0000_0000nat
        * 0x1_0000_0000_0000_0000_0000_0000_0000_0000_0000_0000_0000_0000_0000_0000_0000_0000nat)
        % 0x0e7d_b4ea_6533_afa9_0667_3b01_0134_3b00_a668_2093_ccc8_1082_d097_0e5e_d6f7_2cb7nat
        == 0x04f6_547b_8d12_7688_69da_b7fa_c026_e9a5_51b0_cef0_9ce3_fc26_6771_9aa4_95e5_7731nat);
}

/// The sum of two scalars.
pub open spec fn fr_add(a: nat, b: nat) -> nat {
    mod_add(a, b, r())
}

/// The difference of two scalars.
pub open spec fn fr_sub(a: nat, b: nat) -> nat {
    mod_sub(a, b, r())
}

/// The additive inverse of a scalar.
pub open spec fn fr_neg(a: nat) -> nat {
    mod_neg(a, r())
}

/// The product of two scalars.
pub open spec fn fr_mul(a: nat, b: nat) -> nat {
    mod_mul(a, b, r())
}

/// An element of the scalar field.  It is held in Montgomery form, as the
/// four limbs of a number below `r`.
#[derive(Clone, Copy, Debug, PartialEq, Eq)]
pub struct Fr(pub(crate) [u64; 4]);

impl View for Fr {
    type V = nat;

    /// The scalar as a number below `r`.
    closed spec fn view(&self) -> nat {
        mont_value(limbs_value(self.0), r_radix_inverse(), r())
    }
}

impl Fr {
    #[verifier::type_invariant]
    spec fn is_reduced(self) -> bool {
        limbs_value(self.0) < r()
    }

    /// The constants of the field.
    pub(crate) fn ring() -> (ring: Ring)
        ensures
            ring.wf(),
            ring.m() == r(),
            ring.rinv@ == r_radix_inverse(),
    {
        let ring = Ring {
            modulus: [
                0xd0970e5ed6f72cb7,
                0xa6682093ccc81082,
                0x06673b0101343b00,
                0x0e7db4ea6533afa9,
            ],
            inv: 0x1ba3a358ef788ef9,
            one: [0x25f80bb3b99607d9, 0xf315d62f66b6e750, 0x932514eeeb8814f4, 0x09a6fc6f479155c6],
            r2: [0x67719aa495e57731, 0x51b0cef09ce3fc26, 0x69dab7fac026e9a5, 0x04f6547b8d127688],
            rinv: Ghost(r_radix_inverse()),
        };
        proof {
            lemma_r_radix_inverse();
            lemma_r_constants();
        }
        ring
    }

    /// The scalar is below `r`.
    pub proof fn lemma_range(self)
        ensures
            self@ < r(),
    {
        vstd::arithmetic::div_mod::lemma_mod_bound(
            (limbs_value(self.0) * r_radix_inverse()) as int,
            r() as int,
        );
    }

    /// The additive identity.
    pub fn zero() -> (s: Fr)
        ensures
            s@ == 0,
    {
        let ring = Fr::ring();
        Fr(ring.zero())
    }

    /// The multiplicative identity.
    pub fn one() -> (s: Fr)
        ensures
            s@ == 1,
    {
        let ring = Fr::ring();
        Fr(ring.one())
    }

    /// The scalar that a word stands for.
    pub fn from_u64(v: u64) -> (s: Fr)
        ensures
            s@ == v,
    {
        let ring = Fr::ring();
        let s = Fr(ring.from_raw(&[v, 0, 0, 0]));
        proof {
            vstd::arithmetic::div_mod::lemma_small_mod(v as nat, r());
        }
        s
    }

    /// The scalar that a four-limb number stands for, least significant
    /// limb first.
    pub fn from_raw(v: [u64; 4]) -> (s: Fr)
        ensures
            s@ == limbs_value(v) % r(),
    {
        let ring = Fr::ring();
        Fr(ring.from_raw(&v))
    }

    /// The scalar whose Montgomery form the four limbs are: they spell
    /// `x * 2^256 mod r` for the scalar `x`.
    pub fn from_montgomery(v: [u64; 4]) -> (s: Fr)
        requires
            limbs_value(v) < r(),
        ensures
            (s@ * 0x1_0000_0000_0000_0000_0000_0000_0000_0000_0000_0000_0000_0000_0000_0000_0000_0000nat)
                % r() == limbs_value(v),
    {
        proof {
            lemma_r_radix_inverse();
            let w =
                0x1_0000_0000_0000_0000_0000_0000_0000_0000_0000_0000_0000_0000_0000_0000_0000_0000int;
            let n = limbs_value(v) as int;
            let ri = r_radix_inverse() as int;
            vstd::arithmetic::div_mod::lemma_mul_mod_noop_left(n * ri, w, r() as int);
            assert((n * ri) * w == n * (w * ri)) by (nonlinear_arith);
            crate::modular::lemma_unit_factor(n, w * ri, r() as int);
            vstd::arithmetic::div_mod::lemma_small_mod(n as nat, r());
        }
        Fr(v)
    }

    /// The sum of two scalars.
    pub fn add(&self, rhs: &Fr) -> (s: Fr)
        ensures
            s@ == fr_add(self@, rhs@),
    {
        proof {
            use_type_invariant(self);
            use_type_invariant(rhs);
        }
        let ring = Fr::ring();
        Fr(ring.add(&self.0, &rhs.0))
    }

    /// The difference of two scalars.
    pub fn sub(&self, rhs: &Fr) -> (s: Fr)
        ensures
            s@ == fr_sub(self@, rhs@),
    {
        proof {
            use_type_invariant(self);
            use_type_invariant(rhs);
        }
        let ring = Fr::ring();
        Fr(ring.sub(&self.0, &rhs.0))
    }

    /// The additive inverse.
    pub fn neg(&self) -> (s: Fr)
        ensures
            s@ == fr_neg(self@),
    {
        proof {
            use_type_invariant(self);
        }
        let ring = Fr::ring();
        Fr(ring.neg(&self.0))
    }

    /// Twice the scalar.
    pub fn double(&self) -> (s: Fr)
        ensures
            s@ == fr_add(self@, self@),
    {
        self.add(self)
    }

    /// The product of two scalars.
    pub fn mul(&self, rhs: &Fr) -> (s: Fr)
        ensures
            s@ == fr_mul(self@, rhs@),
    {
        proof {
            use_type_invariant(self);
            use_type_invariant(rhs);
        }
        let ring = Fr::ring();
        Fr(ring.mul(&self.0, &rhs.0))
    }

    /// The square of the scalar.
    pub fn square(&self) -> (s: Fr)
        ensures
            s@ == fr_mul(self@, self@),
    {
        self.mul(self)
    }

    /// Whether two scalars are the same, without branching on them.
    pub fn ct_eq(&self, other: &Fr) -> (c: Choice)
        ensures
            c@ == (self@ == other@),
    {
        proof {
            use_type_invariant(self);
            use_type_invariant(other);
        }
        let ring = Fr::ring();
        ring.ct_eq(&self.0, &other.0)
    }

    /// The scalar as thirty-two bytes, least significant first.
    pub fn into_bytes(&self) -> (b: [u8; 32])
        ensures
            bytes_value(b) == self@,
    {
        proof {
            use_type_invariant(self);
        }
        let ring = Fr::ring();
        let raw = ring.to_raw(&self.0);
        bytes_from_limbs(&raw)
    }
}

impl ConditionallySelectable for Fr {
    fn conditional_select(a: &Fr, b: &Fr, choice: Choice) -> (s: Fr) {
        proof {
            use_type_invariant(a);
            use_type_invariant(b);
        }
        Fr(select_limbs(&a.0, &b.0, choice))
    }
}

} // verus!
