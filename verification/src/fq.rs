//! The base field of the curve: the integers modulo
//! `q = 0x73eda753299d7d483339d80809a1d80553bda402fffe5bfeffffffff00000001`.

use crate::bytes::{bytes_from_limbs, bytes_value, limbs_from_bytes};
use crate::choice::{Choice, ConditionallySelectable};
use crate::ctoption::CtOption;
use crate::limbs::limbs_value;
use crate::modular::{mod_add, mod_mul, mod_neg, mod_pow, mod_sub, mont_value};
use crate::montgomery::{select_limbs, sub_limbs, Ring};
use crate::modular::{lemma_mod_pow_base, lemma_mod_pow_square};
use vstd::arithmetic::power2::{lemma2_to64, lemma_pow2_unfold, pow2};
use vstd::prelude::*;

verus! {

/// The order of the field.
pub open spec fn q() -> nat {
    0x73ed_a753_299d_7d48_3339_d808_09a1_d805_53bd_a402_fffe_5bfe_ffff_ffff_0000_0001nat
}

/// The inverse of `2^256` modulo `q`.
pub closed spec fn q_radix_inverse() -> nat {
    0x1bbe_8693_3000_9d57_7204_078a_4f77_266a_ab6f_ca8f_09dc_705f_13f7_5b69_fe75_c040nat
}

/// `q_radix_inverse` is the inverse of `2^256` modulo `q`.
pub proof fn lemma_q_radix_inverse()
    ensures
        crate::modular::is_radix_inverse(q_radix_inverse(), q()),
{
    assert((0x1_0000_0000_0000_0000_0000_0000_0000_0000_0000_0000_0000_0000_0000_0000_0000_0000nat
        * 0x1bbe_8693_3000_9d57_7204_078a_4f77_266a_ab6f_ca8f_09dc_705f_13f7_5b69_fe75_c040nat)
        % 0x73ed_a753_299d_7d48_3339_d808_09a1_d805_53bd_a402_fffe_5bfe_ffff_ffff_0000_0001nat
        == 1);
}

/// The limbs of `q`, of `2^256 mod q` and of `2^512 mod q`, and the word
/// that is `-1/q` modulo `2^64`.
proof fn lemma_q_constants()
    ensures
        limbs_value(
            [0xffffffff00000001, 0x53bda402fffe5bfe, 0x3339d80809a1d805, 0x73eda753299d7d48],
        ) == q(),
        (0xffffffff00000001u64 * 0xfffffffeffffffffu64 + 1) % 0x1_0000_0000_0000_0000 == 0,
        limbs_value(
            [0x00000001fffffffe, 0x5884b7fa00034802, 0x998c4fefecbc4ff5, 0x1824b159acc5056f],
        ) == 0x1_0000_0000_0000_0000_0000_0000_0000_0000_0000_0000_0000_0000_0000_0000_0000_0000nat
            % q(),
        limbs_value(
            [0xc999e990f3f29c6d, 0x2b6cedcb87925c23, 0x05d314967254398f, 0x0748d9d99f59ff11],
        ) == (
        0x1_0000_0000_0000_0000_0000_0000_0000_0000_0000_0000_0000_0000_0000_0000_0000_0000nat
            * 0x1_0000_0000_0000_0000_0000_0000_0000_0000_0000_0000_0000_0000_0000_0000_0000_0000nat)
            % q(),
{
    assert(0x1_0000_0000_0000_0000_0000_0000_0000_0000_0000_0000_0000_0000_0000_0000_0000_0000nat
        % 0x73ed_a753_299d_7d48_3339_d808_09a1_d805_53bd_a402_fffe_5bfe_ffff_ffff_0000_0001nat
        == 0x1824_b159_acc5_056f_998c_4fef_ecbc_4ff5_5884_b7fa_0003_4802_0000_0001_ffff_fffenat);
    assert((0x1_0000_0000_0000_0000_0000_0000_0000_0000_0000_0000_0000_0000_0000_0000_0000_0000nat
        * 0x1_0000_0000_0000_0000_0000_0000_0000_0000_0000_0000_0000_0000_0000_0000_0000_0000nat)
        % 0x73ed_a753_299d_7d48_3339_d808_09a1_d805_53bd_a402_fffe_5bfe_ffff_ffff_0000_0001nat
        == 0x0748_d9d9_9f59_ff11_05d3_1496_7254_398f_2b6c_edcb_8792_5c23_c999_e990_f3f2_9c6dnat);
}

/// The sum of two field elements.
pub open spec fn fq_add(a: nat, b: nat) -> nat {
    mod_add(a, b, q())
}

/// The difference of two field elements.
pub open spec fn fq_sub(a: nat, b: nat) -> nat {
    mod_sub(a, b, q())
}

/// The additive inverse of a field element.
pub open spec fn fq_neg(a: nat) -> nat {
    mod_neg(a, q())
}

/// The product of two field elements.
pub open spec fn fq_mul(a: nat, b: nat) -> nat {
    mod_mul(a, b, q())
}

/// The `e`-th power of a field element.
pub open spec fn fq_pow(a: nat, e: nat) -> nat {
    mod_pow(a, e, q())
}

/// The power `a^(q - 2)`: zero for zero, and otherwise, `q` being prime, the
/// multiplicative inverse of `a`.
pub open spec fn fq_inv(a: nat) -> nat {
    mod_pow(a, (q() - 2) as nat, q())
}

/// Sums, differences, negatives and products are field elements.
pub proof fn lemma_ops_in_field()
    ensures
        forall|a: nat, b: nat| #[trigger] fq_add(a, b) < q(),
        forall|a: nat, b: nat| #[trigger] fq_sub(a, b) < q(),
        forall|a: nat, b: nat| #[trigger] fq_mul(a, b) < q(),
        forall|a: nat| #[trigger] fq_neg(a) < q(),
{
    assert forall|a: nat, b: nat| #[trigger] fq_add(a, b) < q() by {
        vstd::arithmetic::div_mod::lemma_mod_bound((a + b) as int, q() as int);
    }
    assert forall|a: nat, b: nat| #[trigger] fq_sub(a, b) < q() by {
        vstd::arithmetic::div_mod::lemma_mod_bound(a - b, q() as int);
    }
    assert forall|a: nat, b: nat| #[trigger] fq_mul(a, b) < q() by {
        vstd::arithmetic::div_mod::lemma_mod_bound((a * b) as int, q() as int);
    }
    assert forall|a: nat| #[trigger] fq_neg(a) < q() by {
        vstd::arithmetic::div_mod::lemma_mod_bound(0 - a, q() as int);
    }
}

/// A generator of the `2^32`-th roots of unity: `7^t` for the odd `t` with
/// `q - 1 = t * 2^32`.
pub open spec fn root_of_unity() -> nat {
    0x16a2_a19e_dfe8_1f20_d09b_6819_22c8_13b4_b636_8350_8c22_80b9_3829_971f_439f_0d2bnat
}

/// Half of `t - 1`, for the odd `t` with `q - 1 = t * 2^32`.
pub open spec fn half_odd_part() -> nat {
    0x39f6_d3a9_94ce_bea4_199c_ec04_04d0_ec02_a9de_d201_7fff_2dff_7fff_ffffnat
}

/// The correction that the square-root search has found after `i` rounds,
/// for `b = x^t`.  Round `i` raises `b.c^2` to the power `2^(31 - i)`; where
/// that is not one, it multiplies `c` by the root of unity to the power
/// `2^(i - 1)`, which makes it one.
pub open spec fn sqrt_correction(b: nat, i: nat) -> nat
    decreases i,
{
    if i == 0 {
        1
    } else {
        let c = sqrt_correction(b, (i - 1) as nat);
        if fq_pow(fq_mul(b, fq_mul(c, c)), pow2((31 - i) as nat)) == 1 {
            c
        } else {
            fq_mul(c, fq_pow(root_of_unity(), pow2((i - 1) as nat)))
        }
    }
}

/// What the square-root search (Tonelli and Shanks) arrives at for `x`:
/// `x^((t + 1) / 2)` times the correction after thirty-one rounds.  It is a
/// square root of `x` exactly when its square is `x`; `q` being prime, that
/// is so for every `x` that has a square root.
pub open spec fn sqrt_candidate(x: nat) -> nat {
    let w = fq_pow(x, half_odd_part());
    let a = fq_mul(x, w);
    let b = fq_mul(a, w);
    fq_mul(a, sqrt_correction(b, 31))
}

/// An element of the base field.  It is held in Montgomery form, as the
/// four limbs of a number below `q`.
#[derive(Clone, Copy, Debug, PartialEq, Eq)]
pub struct Fq(pub(crate) [u64; 4]);

impl View for Fq {
    type V = nat;

    /// The element as a number below `q`.
    closed spec fn view(&self) -> nat {
        mont_value(limbs_value(self.0), q_radix_inverse(), q())
    }
}

impl Fq {
    #[verifier::type_invariant]
    spec fn is_reduced(self) -> bool {
        limbs_value(self.0) < q()
    }

    /// The constants of the field.
    pub(crate) fn ring() -> (r: Ring)
        ensures
            r.wf(),
            r.m() == q(),
            r.rinv@ == q_radix_inverse(),
    {
        let r = Ring {
            modulus: [
                0xffffffff00000001,
                0x53bda402fffe5bfe,
                0x3339d80809a1d805,
                0x73eda753299d7d48,
            ],
            inv: 0xfffffffeffffffff,
            one: [0x00000001fffffffe, 0x5884b7fa00034802, 0x998c4fefecbc4ff5, 0x1824b159acc5056f],
            r2: [0xc999e990f3f29c6d, 0x2b6cedcb87925c23, 0x05d314967254398f, 0x0748d9d99f59ff11],
            rinv: Ghost(q_radix_inverse()),
        };
        proof {
            lemma_q_radix_inverse();
            lemma_q_constants();
        }
        r
    }

    /// The element is below `q`.
    pub proof fn lemma_range(self)
        ensures
            self@ < q(),
    {
        vstd::arithmetic::div_mod::lemma_mod_bound(
            (limbs_value(self.0) * q_radix_inverse()) as int,
            q() as int,
        );
    }

    /// The additive identity.
    pub fn zero() -> (r: Fq)
        ensures
            r@ == 0,
    {
        let ring = Fq::ring();
        Fq(ring.zero())
    }

    /// The multiplicative identity.
    pub fn one() -> (r: Fq)
        ensures
            r@ == 1,
    {
        let ring = Fq::ring();
        Fq(ring.one())
    }

    /// The element that a four-limb number stands for, least significant
    /// limb first.
    pub fn from_raw(v: [u64; 4]) -> (r: Fq)
        ensures
            r@ == limbs_value(v) % q(),
    {
        let ring = Fq::ring();
        Fq(ring.from_raw(&v))
    }

    /// The element whose Montgomery form the four limbs are: they spell
    /// `x * 2^256 mod q` for the element `x`.
    pub fn from_montgomery(v: [u64; 4]) -> (r: Fq)
        requires
            limbs_value(v) < q(),
        ensures
            (r@ * 0x1_0000_0000_0000_0000_0000_0000_0000_0000_0000_0000_0000_0000_0000_0000_0000_0000nat)
                % q() == limbs_value(v),
    {
        proof {
            lemma_q_radix_inverse();
            let w =
                0x1_0000_0000_0000_0000_0000_0000_0000_0000_0000_0000_0000_0000_0000_0000_0000_0000int;
            let n = limbs_value(v) as int;
            let ri = q_radix_inverse() as int;
            vstd::arithmetic::div_mod::lemma_mul_mod_noop_left(n * ri, w, q() as int);
            assert((n * ri) * w == n * (w * ri)) by (nonlinear_arith);
            crate::modular::lemma_unit_factor(n, w * ri, q() as int);
            vstd::arithmetic::div_mod::lemma_small_mod(n as nat, q());
        }
        Fq(v)
    }

    /// The sum of two elements.
    pub fn add(&self, rhs: &Fq) -> (r: Fq)
        ensures
            r@ == fq_add(self@, rhs@),
    {
        proof {
            use_type_invariant(self);
            use_type_invariant(rhs);
        }
        let ring = Fq::ring();
        Fq(ring.add(&self.0, &rhs.0))
    }

    /// The difference of two elements.
    pub fn sub(&self, rhs: &Fq) -> (r: Fq)
        ensures
            r@ == fq_sub(self@, rhs@),
    {
        proof {
            use_type_invariant(self);
            use_type_invariant(rhs);
        }
        let ring = Fq::ring();
        Fq(ring.sub(&self.0, &rhs.0))
    }

    /// The additive inverse.
    pub fn neg(&self) -> (r: Fq)
        ensures
            r@ == fq_neg(self@),
    {
        proof {
            use_type_invariant(self);
        }
        let ring = Fq::ring();
        Fq(ring.neg(&self.0))
    }

    /// Twice the element.
    pub fn double(&self) -> (r: Fq)
        ensures
            r@ == fq_add(self@, self@),
    {
        self.add(self)
    }

    /// The product of two elements.
    pub fn mul(&self, rhs: &Fq) -> (r: Fq)
        ensures
            r@ == fq_mul(self@, rhs@),
    {
        proof {
            use_type_invariant(self);
            use_type_invariant(rhs);
        }
        let ring = Fq::ring();
        Fq(ring.mul(&self.0, &rhs.0))
    }

    /// The square of the element.
    pub fn square(&self) -> (r: Fq)
        ensures
            r@ == fq_mul(self@, self@),
    {
        self.mul(self)
    }

    /// Whether two elements are the same, without branching on them.
    pub fn ct_eq(&self, other: &Fq) -> (r: Choice)
        ensures
            r@ == (self@ == other@),
    {
        proof {
            use_type_invariant(self);
            use_type_invariant(other);
        }
        let ring = Fq::ring();
        ring.ct_eq(&self.0, &other.0)
    }

    /// The power of the element to a four-limb exponent.  The running time
    /// depends on the exponent.
    pub fn pow_vartime(&self, exp: &[u64; 4]) -> (r: Fq)
        ensures
            r@ == fq_pow(self@, limbs_value(*exp)),
    {
        proof {
            use_type_invariant(self);
        }
        let ring = Fq::ring();
        Fq(ring.pow_vartime(&self.0, exp))
    }

    /// The multiplicative inverse, absent for zero.  What is stored is
    /// `self^(q - 2)` in either case.
    pub fn invert(&self) -> (r: CtOption<Fq>)
        ensures
            r@.is_some() == (self@ != 0),
            r@.is_some() ==> r@.unwrap()@ == fq_inv(self@),
    {
        let exp: [u64; 4] = [
            0xfffffffeffffffff,
            0x53bda402fffe5bfe,
            0x3339d80809a1d805,
            0x73eda753299d7d48,
        ];
        assert(limbs_value(exp) == q() - 2);
        let inverse = self.pow_vartime(&exp);
        let nonzero = self.ct_eq(&Fq::zero()).not();
        CtOption::new(inverse, nonzero)
    }

    /// The generator of the `2^32`-th roots of unity.
    pub fn root_of_unity() -> (r: Fq)
        ensures
            r@ == root_of_unity(),
    {
        Fq::from_raw(
            [0x3829971f439f0d2b, 0xb63683508c2280b9, 0xd09b681922c813b4, 0x16a2a19edfe81f20],
        )
    }

    /// The element squared `k` times.
    fn square_times(&self, k: u32) -> (r: Fq)
        ensures
            r@ == fq_pow(self@, pow2(k as nat)),
    {
        let mut acc = *self;
        let mut j: u32 = 0;
        proof {
            lemma2_to64();
            lemma_mod_pow_base(self@, q());
            self.lemma_range();
            vstd::arithmetic::div_mod::lemma_small_mod(self@, q());
        }
        while j < k
            invariant
                j <= k,
                acc@ == fq_pow(self@, pow2(j as nat)),
            decreases k - j,
        {
            proof {
                lemma_mod_pow_square(self@, pow2(j as nat), q());
                lemma_pow2_unfold((j + 1) as nat);
            }
            acc = acc.square();
            j = j + 1;
        }
        acc
    }

    /// A square root of the element, absent when the search does not arrive
    /// at one.  The search takes the same steps for every element.
    pub fn sqrt(&self) -> (r: CtOption<Fq>)
        ensures
            r@.is_some() == (fq_mul(sqrt_candidate(self@), sqrt_candidate(self@)) == self@),
            r@.is_some() ==> r@.unwrap()@ == sqrt_candidate(self@),
            r@.is_some() ==> fq_mul(r@.unwrap()@, r@.unwrap()@) == self@,
    {
        let exp: [u64; 4] = [
            0x7fff2dff7fffffff,
            0x04d0ec02a9ded201,
            0x94cebea4199cec04,
            0x0000000039f6d3a9,
        ];
        assert(limbs_value(exp) == half_odd_part());
        let w = self.pow_vartime(&exp);
        let a = self.mul(&w);
        let b = a.mul(&w);
        let one = Fq::one();
        let mut c = Fq::one();
        let mut z = Fq::root_of_unity();
        let mut i: u32 = 1;
        proof {
            lemma2_to64();
            lemma_mod_pow_base(root_of_unity(), q());
            vstd::arithmetic::div_mod::lemma_small_mod(root_of_unity(), q());
        }
        while i < 32
            invariant
                1 <= i <= 32,
                one@ == 1,
                c@ == sqrt_correction(b@, (i - 1) as nat),
                z@ == fq_pow(root_of_unity(), pow2((i - 1) as nat)),
            decreases 32 - i,
        {
            let raised = b.mul(&c.square()).square_times(31 - i);
            c = Fq::conditional_select(&c.mul(&z), &c, raised.ct_eq(&one));
            proof {
                lemma_mod_pow_square(root_of_unity(), pow2((i - 1) as nat), q());
                lemma_pow2_unfold(i as nat);
            }
            z = z.square();
            i = i + 1;
        }
        let root = a.mul(&c);
        CtOption::new(root, root.square().ct_eq(self))
    }

    /// The element as thirty-two bytes, least significant first.
    pub fn into_bytes(&self) -> (r: [u8; 32])
        ensures
            bytes_value(r) == self@,
    {
        proof {
            use_type_invariant(self);
        }
        let ring = Fq::ring();
        let raw = ring.to_raw(&self.0);
        bytes_from_limbs(&raw)
    }

    /// The element that thirty-two bytes spell, least significant first;
    /// absent when the number is not below `q`.
    pub fn from_bytes(bytes: [u8; 32]) -> (r: CtOption<Fq>)
        ensures
            r@.is_some() == (bytes_value(bytes) < q()),
            r@.is_some() ==> r@.unwrap()@ == bytes_value(bytes),
    {
        let ring = Fq::ring();
        let raw = limbs_from_bytes(&bytes);
        let (_, borrow) = sub_limbs(&raw, &ring.modulus);
        let value = Fq(ring.from_raw(&raw));
        proof {
            if bytes_value(bytes) < q() {
                vstd::arithmetic::div_mod::lemma_small_mod(bytes_value(bytes), q());
            }
        }
        CtOption::new(value, Choice::from_u8(borrow as u8))
    }

    /// The lowest bit of the element as a number below `q`.
    pub fn lsb(&self) -> (r: u8)
        ensures
            r == self@ % 2,
    {
        proof {
            use_type_invariant(self);
        }
        let ring = Fq::ring();
        let raw = ring.to_raw(&self.0);
        proof {
            crate::limbs::lemma_limbs_parity(raw);
        }
        (raw[0] % 2) as u8
    }
}

impl ConditionallySelectable for Fq {
    fn conditional_select(a: &Fq, b: &Fq, choice: Choice) -> (r: Fq) {
        proof {
            use_type_invariant(a);
            use_type_invariant(b);
        }
        Fq(select_limbs(&a.0, &b.0, choice))
    }
}

} // verus!
