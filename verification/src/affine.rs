//! Points in affine coordinates, their cached form, and their encoding in
//! thirty-two bytes.

use crate::bytes::bytes_value;
use crate::choice::{Choice, ConditionallySelectable};
use crate::ctoption::CtOption;
use crate::curve::{decode, AffineCoords, AffineNielsCoords};
use crate::curveconstants::{edwards_d, edwards_d2};
use crate::extended::ExtendedPoint;
use crate::fq::{q, Fq};
use vstd::prelude::*;
use vstd::std_specs::cmp::PartialEqSpecImpl;

verus! {

/// A point `(u, v)` in affine coordinates.
#[derive(Clone, Copy, Debug)]
pub struct AffinePoint {
    pub u: Fq,
    pub v: Fq,
}

/// The cached form `(v + u, v - u, 2d.u.v)` of an affine point.
#[derive(Clone, Copy, Debug)]
pub struct AffineNielsPoint {
    pub v_plus_u: Fq,
    pub v_minus_u: Fq,
    pub t2d: Fq,
}

impl View for AffinePoint {
    type V = AffineCoords;

    open spec fn view(&self) -> AffineCoords {
        AffineCoords { u: self.u@, v: self.v@ }
    }
}

impl View for AffineNielsPoint {
    type V = AffineNielsCoords;

    open spec fn view(&self) -> AffineNielsCoords {
        AffineNielsCoords {
            v_plus_u: self.v_plus_u@,
            v_minus_u: self.v_minus_u@,
            t2d: self.t2d@,
        }
    }
}

impl ConditionallySelectable for AffinePoint {
    fn conditional_select(a: &Self, b: &Self, choice: Choice) -> (r: Self) {
        AffinePoint {
            u: Fq::conditional_select(&a.u, &b.u, choice),
            v: Fq::conditional_select(&a.v, &b.v, choice),
        }
    }
}

impl ConditionallySelectable for AffineNielsPoint {
    fn conditional_select(a: &Self, b: &Self, choice: Choice) -> (r: Self) {
        AffineNielsPoint {
            v_plus_u: Fq::conditional_select(&a.v_plus_u, &b.v_plus_u, choice),
            v_minus_u: Fq::conditional_select(&a.v_minus_u, &b.v_minus_u, choice),
            t2d: Fq::conditional_select(&a.t2d, &b.t2d, choice),
        }
    }
}

impl PartialEq for AffinePoint {
    /// The two points have the same coordinates.
    fn eq(&self, other: &Self) -> (r: bool) {
        self.ct_eq(other).unwrap_u8() == 1
    }
}

impl PartialEqSpecImpl for AffinePoint {
    open spec fn obeys_eq_spec() -> bool {
        true
    }

    open spec fn eq_spec(&self, other: &Self) -> bool {
        self@ == other@
    }
}

impl Default for AffinePoint {
    /// The neutral element.
    fn default() -> (r: AffinePoint)
        ensures
            r@ == AffineCoords::identity(),
    {
        AffinePoint::identity()
    }
}

impl AffinePoint {
    /// The neutral element `(0, 1)`.
    pub fn identity() -> (r: AffinePoint)
        ensures
            r@ == AffineCoords::identity(),
    {
        AffinePoint { u: Fq::zero(), v: Fq::one() }
    }

    /// The point with the given coordinates, which are not checked against
    /// the curve equation.
    pub fn from_raw_unchecked(u: Fq, v: Fq) -> (r: AffinePoint)
        ensures
            r.u == u,
            r.v == v,
    {
        AffinePoint { u, v }
    }

    /// The affine point `(U/Z, V/Z)` for an extended point whose `Z` is not
    /// zero.
    pub fn from_extended(extended: &ExtendedPoint) -> (r: AffinePoint)
        requires
            extended@.z != 0,
        ensures
            r@ == extended@.to_affine(),
            crate::algebra::is_unit(extended@.z) && extended@.satisfies_curve() ==> r@.on_curve(),
    {
        proof {
            extended.lemma_in_field();
            if crate::algebra::is_unit(extended@.z) && extended@.satisfies_curve() {
                crate::closure::lemma_to_affine_on_curve(extended@);
            }
        }
        let zinv = extended.z.invert().unwrap();
        AffinePoint { u: extended.u.mul(&zinv), v: extended.v.mul(&zinv) }
    }

    /// Whether the two points have the same coordinates, without branching
    /// on them.
    pub fn ct_eq(&self, other: &Self) -> (r: Choice)
        ensures
            r@ == (self@ == other@),
    {
        self.u.ct_eq(&other.u).and(self.v.ct_eq(&other.v))
    }

    /// The negative `(-u, v)`.
    pub fn neg(&self) -> (r: AffinePoint)
        ensures
            r@ == self@.neg(),
    {
        AffinePoint { u: self.u.neg(), v: self.v }
    }

    /// The cached form of the point, for adding it many times.
    pub fn to_niels(&self) -> (r: AffineNielsPoint)
        ensures
            r@ == self@.to_niels(),
    {
        AffineNielsPoint {
            v_plus_u: self.v.add(&self.u),
            v_minus_u: self.v.sub(&self.u),
            t2d: self.u.mul(&self.v).mul(&edwards_d2()),
        }
    }

    /// Whether the point satisfies the curve equation, without branching on
    /// it.
    pub fn is_on_curve(&self) -> (r: Choice)
        ensures
            r@ == self@.on_curve(),
    {
        let u2 = self.u.square();
        let v2 = self.v.square();
        v2.sub(&u2).ct_eq(&Fq::one().add(&edwards_d().mul(&u2).mul(&v2)))
    }

    /// Whether the point satisfies the curve equation.  The running time
    /// depends on the point.
    pub fn is_on_curve_vartime(&self) -> (r: bool)
        ensures
            r == self@.on_curve(),
    {
        self.is_on_curve().unwrap_u8() == 1
    }

    /// The point that thirty-two bytes encode, absent where they encode
    /// none.  Every test is made on every input, and none is branched on.
    pub fn from_bytes(bytes: [u8; 32]) -> (r: CtOption<AffinePoint>)
        ensures
            r@.is_some() == decode(bytes_value(bytes)).is_some(),
            r@.is_some() ==> r@.unwrap()@ == decode(bytes_value(bytes)).unwrap(),
            r@.is_some() ==> r@.unwrap()@.on_curve(),
            r@.is_some() ==> encoding(r@.unwrap()@) == bytes_value(bytes),
    {
        proof {
            crate::bytes::lemma_bytes_bound(bytes);
            lemma_decode_is_canonical(bytes_value(bytes));
        }
        let (b, sign) = split_sign(bytes);
        proof {
            let n = bytes_value(bytes);
            let half =
                0x8000_0000_0000_0000_0000_0000_0000_0000_0000_0000_0000_0000_0000_0000_0000_0000nat;
            assert(n / half == sign && n % half == bytes_value(b)) by {
                vstd::arithmetic::div_mod::lemma_fundamental_div_mod_converse(
                    n as int,
                    half as int,
                    sign as int,
                    bytes_value(b) as int,
                );
            }
        }
        let one = Fq::one();
        let zero = Fq::zero();
        let v_read = Fq::from_bytes(b);
        let v = v_read.unwrap_or(zero);
        let v2 = v.square();
        let den = one.add(&edwards_d().mul(&v2));
        let den_inverse = den.invert();
        proof {
            vstd::arithmetic::power::lemma0_pow((q() - 2) as nat);
        }
        let rhs = v2.sub(&one).mul(&den_inverse.unwrap_or(zero));
        let u_found = rhs.sqrt();
        let root = u_found.unwrap_or(zero);
        let parity: u8 = root.lsb();
        let flip: u8 = parity ^ sign;
        proof {
            assert(flip <= 1 && (flip == 0) == (parity == sign)) by (bit_vector)
                requires
                    flip == parity ^ sign,
                    parity <= 1,
                    sign <= 1,
            ;
        }
        let u = Fq::conditional_select(&root, &root.neg(), Choice::from_u8(flip));
        let p = AffinePoint { u, v };
        let ambiguous = root.ct_eq(&zero).and(Choice::from_u8(sign));
        let found = v_read.is_some().and(den_inverse.is_some()).and(u_found.is_some()).and(
            ambiguous.not(),
        ).and(p.is_on_curve());
        CtOption::new(p, found)
    }

    /// Eight times the point.
    pub fn mul_by_cofactor(&self) -> (r: ExtendedPoint)
        ensures
            r@ == self@.to_extended().mul_by_cofactor(),
            r@.consistent(),
            self@.on_curve() ==> r@.satisfies_curve(),
    {
        ExtendedPoint::from_affine(*self).mul_by_cofactor()
    }

    /// Whether two doublings bring the point to `u = 0`.
    pub fn is_small_order(&self) -> (r: Choice)
        ensures
            r@ == self@.to_extended().is_small_order(),
    {
        ExtendedPoint::from_affine(*self).is_small_order()
    }

    /// Whether the multiple of the point by `r` is the neutral element.
    pub fn is_torsion_free(&self) -> (r: Choice)
        ensures
            r@ == self@.to_extended().is_torsion_free(),
    {
        ExtendedPoint::from_affine(*self).is_torsion_free()
    }

    /// Whether the point is in the prime-order subgroup and is not the
    /// neutral element.
    pub fn is_prime_order(&self) -> (r: Choice)
        ensures
            r@ == self@.to_extended().is_prime_order(),
    {
        ExtendedPoint::from_affine(*self).is_prime_order()
    }

    /// The point in thirty-two bytes: `v`, least significant byte first,
    /// with the lowest bit of `u` in the highest bit of the last byte.
    pub fn into_bytes(&self) -> (r: [u8; 32])
        ensures
            bytes_value(r) == encoding(self@),
    {
        let mut tmp = self.v.into_bytes();
        let sign: u8 = self.u.lsb();
        let last: u8 = tmp[31];
        proof {
            self.v.lemma_range();
            assert(last < 0x80);
            assert(last | (sign << 7) == last + sign * 0x80) by (bit_vector)
                requires
                    last < 0x80,
                    sign <= 1,
            ;
        }
        tmp[31] = last | (sign << 7);
        tmp
    }
}

/// Takes the highest bit off thirty-two bytes: what is left spells a number
/// below `2^255`.
fn split_sign(bytes: [u8; 32]) -> (r: ([u8; 32], u8))
    ensures
        r.1 <= 1,
        bytes_value(r.0)
            < 0x8000_0000_0000_0000_0000_0000_0000_0000_0000_0000_0000_0000_0000_0000_0000_0000nat,
        bytes_value(bytes) == bytes_value(r.0) + r.1
            * 0x8000_0000_0000_0000_0000_0000_0000_0000_0000_0000_0000_0000_0000_0000_0000_0000nat,
{
    let mut b = bytes;
    let last: u8 = b[31];
    let sign: u8 = last >> 7;
    let low: u8 = last & 0x7f;
    b[31] = low;
    proof {
        assert(last == low + sign * 0x80 && sign <= 1 && low < 0x80) by (bit_vector)
            requires
                sign == last >> 7,
                low == last & 0x7f,
        ;
        assert(crate::bytes::le_word(bytes, 3) == crate::bytes::le_word(b, 3) + sign
            * 0x8000_0000_0000_0000);
        assert(crate::bytes::le_word(b, 3) < 0x8000_0000_0000_0000);
        assert(crate::bytes::le_word(bytes, 0) == crate::bytes::le_word(b, 0));
        assert(crate::bytes::le_word(bytes, 1) == crate::bytes::le_word(b, 1));
        assert(crate::bytes::le_word(bytes, 2) == crate::bytes::le_word(b, 2));
    }
    (b, sign)
}

/// The number that the encoding of a point spells: `v`, and the parity of
/// `u` at `2^255`.
pub open spec fn encoding(p: AffineCoords) -> nat {
    p.v + (p.u % 2)
        * 0x8000_0000_0000_0000_0000_0000_0000_0000_0000_0000_0000_0000_0000_0000_0000_0000nat
}

/// Of a root and its negative, one has the parity wanted, unless the root
/// is zero and the parity wanted is odd.
proof fn lemma_decoded_parity(c: nat, sign: nat)
    requires
        c < q(),
        sign <= 1,
        !(c == 0 && sign == 1),
    ensures
        (if c % 2 == sign {
            c
        } else {
            crate::fq::fq_neg(c)
        }) % 2 == sign,
{
    if c % 2 != sign {
        vstd::arithmetic::div_mod::lemma_small_mod((q() - c) as nat, q());
        vstd::arithmetic::div_mod::lemma_mod_multiples_vanish(-1, q() - c, q() as int);
        assert(crate::fq::fq_neg(c) == q() - c);
    }
}

/// Decoding is undone by encoding: a number that encodes a point is the
/// encoding of that point, and of no other.
pub proof fn lemma_decode_is_canonical(n: nat)
    requires
        n < 0x1_0000_0000_0000_0000_0000_0000_0000_0000_0000_0000_0000_0000_0000_0000_0000_0000nat,
    ensures
        decode(n).is_some() ==> encoding(decode(n).unwrap()) == n,
{
    if decode(n).is_some() {
        let half =
            0x8000_0000_0000_0000_0000_0000_0000_0000_0000_0000_0000_0000_0000_0000_0000_0000nat;
        let sign = n / half;
        let v = n % half;
        vstd::arithmetic::div_mod::lemma_fundamental_div_mod(n as int, half as int);
        vstd::arithmetic::div_mod::lemma_mod_bound(n as int, half as int);
        assert(sign <= 1) by (nonlinear_arith)
            requires
                n == half * sign + v,
                n < 2 * half,
                half > 0,
        ;
        let vv = crate::fq::fq_mul(v, v);
        let den = crate::fq::fq_add(1, crate::fq::fq_mul(crate::curve::d(), vv));
        let rhs = crate::fq::fq_mul(crate::fq::fq_sub(vv, 1), crate::fq::fq_inv(den));
        let c = crate::fq::sqrt_candidate(rhs);
        crate::fq::lemma_ops_in_field();
        lemma_decoded_parity(c, sign);
        let p = decode(n).unwrap();
        assert(p.v == v);
        assert(p.u % 2 == sign);
        assert(sign * half == half * sign) by (nonlinear_arith);
    }
}

impl AffineNielsPoint {
    /// The cached form `(1, 1, 0)` of the neutral element.
    pub fn identity() -> (r: AffineNielsPoint)
        ensures
            r@ == AffineNielsCoords::identity(),
    {
        AffineNielsPoint { v_plus_u: Fq::one(), v_minus_u: Fq::one(), t2d: Fq::zero() }
    }
}

} // verus!
