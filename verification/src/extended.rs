//! Points in extended coordinates, and the cached form in which a point is
//! added many times.

use crate::affine::{AffineNielsPoint, AffinePoint};
use crate::bytes::{bytes_value, limbs_from_bytes};
use crate::choice::{Choice, ConditionallySelectable};
use crate::completed::CompletedPoint;
use crate::curve::{ExtendedCoords, ExtendedNielsCoords};
use crate::curveconstants::{edwards_d2, lemma_fr_modulus_bytes, FR_MODULUS_BYTES};
use crate::fq::Fq;
use crate::fr::Fr;
use crate::limbs::limbs_value;
use crate::montgomery::{high_bits, lemma_high_bits_step};
use vstd::arithmetic::power2::{lemma2_to64, lemma2_to64_rest, lemma_pow2_unfold, pow2};
use vstd::prelude::*;
use vstd::std_specs::cmp::PartialEqSpecImpl;

verus! {

/// A point in extended coordinates `(U, V, Z, T1, T2)`, which stand for the
/// affine point `(U/Z, V/Z)`, with `T1.T2 = U.V/Z`.
#[derive(Clone, Copy, Debug)]
pub struct ExtendedPoint {
    pub u: Fq,
    pub v: Fq,
    pub z: Fq,
    pub t1: Fq,
    pub t2: Fq,
}

/// The cached form `(V + U, V - U, Z, T1.T2.2d)` of an extended point.
#[derive(Clone, Copy, Debug)]
pub struct ExtendedNielsPoint {
    pub v_plus_u: Fq,
    pub v_minus_u: Fq,
    pub z: Fq,
    pub t2d: Fq,
}

impl View for ExtendedPoint {
    type V = ExtendedCoords;

    open spec fn view(&self) -> ExtendedCoords {
        ExtendedCoords { u: self.u@, v: self.v@, z: self.z@, t1: self.t1@, t2: self.t2@ }
    }
}

impl View for ExtendedNielsPoint {
    type V = ExtendedNielsCoords;

    open spec fn view(&self) -> ExtendedNielsCoords {
        ExtendedNielsCoords {
            v_plus_u: self.v_plus_u@,
            v_minus_u: self.v_minus_u@,
            z: self.z@,
            t2d: self.t2d@,
        }
    }
}

impl ConditionallySelectable for ExtendedPoint {
    fn conditional_select(a: &Self, b: &Self, choice: Choice) -> (r: Self) {
        ExtendedPoint {
            u: Fq::conditional_select(&a.u, &b.u, choice),
            v: Fq::conditional_select(&a.v, &b.v, choice),
            z: Fq::conditional_select(&a.z, &b.z, choice),
            t1: Fq::conditional_select(&a.t1, &b.t1, choice),
            t2: Fq::conditional_select(&a.t2, &b.t2, choice),
        }
    }
}

impl ConditionallySelectable for ExtendedNielsPoint {
    fn conditional_select(a: &Self, b: &Self, choice: Choice) -> (r: Self) {
        ExtendedNielsPoint {
            v_plus_u: Fq::conditional_select(&a.v_plus_u, &b.v_plus_u, choice),
            v_minus_u: Fq::conditional_select(&a.v_minus_u, &b.v_minus_u, choice),
            z: Fq::conditional_select(&a.z, &b.z, choice),
            t2d: Fq::conditional_select(&a.t2d, &b.t2d, choice),
        }
    }
}

impl PartialEq for ExtendedPoint {
    /// The two points stand for the same affine point.
    fn eq(&self, other: &Self) -> (r: bool) {
        self.ct_eq(other).unwrap_u8() == 1
    }
}

impl PartialEqSpecImpl for ExtendedPoint {
    open spec fn obeys_eq_spec() -> bool {
        true
    }

    open spec fn eq_spec(&self, other: &Self) -> bool {
        self@.same_point(other@)
    }
}

impl Default for ExtendedPoint {
    /// The neutral element.
    fn default() -> (r: ExtendedPoint)
        ensures
            r@ == ExtendedCoords::identity(),
            r@.satisfies_curve(),
    {
        ExtendedPoint::identity()
    }
}

impl ExtendedPoint {
    /// The coordinates are field elements.
    pub proof fn lemma_in_field(self)
        ensures
            self@.in_field(),
    {
        self.u.lemma_range();
        self.v.lemma_range();
        self.z.lemma_range();
        self.t1.lemma_range();
        self.t2.lemma_range();
    }

    /// The neutral element `(0, 1, 1, 0, 0)`.
    pub fn identity() -> (r: ExtendedPoint)
        ensures
            r@ == ExtendedCoords::identity(),
            r@.satisfies_curve(),
    {
        proof {
            crate::closure::lemma_identity_on_curve();
        }
        ExtendedPoint { u: Fq::zero(), v: Fq::one(), z: Fq::one(), t1: Fq::zero(), t2: Fq::zero() }
    }

    /// The extended point `(u, v, 1, u, v)` for an affine point.
    pub fn from_affine(affine: AffinePoint) -> (r: ExtendedPoint)
        ensures
            r@ == affine@.to_extended(),
            r@.z == 1,
            r@.consistent(),
            affine@.on_curve() ==> r@.satisfies_curve(),
    {
        proof {
            affine.u.lemma_range();
            affine.v.lemma_range();
            crate::laws::lemma_constructed_consistent(affine@);
            if affine@.on_curve() {
                crate::laws::lemma_affine_satisfies_curve(affine@);
            }
        }
        ExtendedPoint { u: affine.u, v: affine.v, z: Fq::one(), t1: affine.u, t2: affine.v }
    }

    /// Whether the two points stand for the same affine point, without
    /// branching on them.  `(U/Z, V/Z) = (U'/Z', V'/Z')` is tested as
    /// `U.Z' = U'.Z` and `V.Z' = V'.Z`, which is the same while `Z` and `Z'`
    /// are not zero.
    pub fn ct_eq(&self, other: &Self) -> (r: Choice)
        ensures
            r@ == self@.same_point(other@),
    {
        self.u.mul(&other.z).ct_eq(&other.u.mul(&self.z)).and(
            self.v.mul(&other.z).ct_eq(&other.v.mul(&self.z)),
        )
    }

    /// The negative `(-U, V, Z, -T1, T2)`.
    pub fn neg(&self) -> (r: ExtendedPoint)
        ensures
            r@ == self@.neg(),
            self@.consistent() ==> r@.consistent(),
            self@.satisfies_curve() ==> r@.satisfies_curve(),
    {
        proof {
            self.lemma_in_field();
            if self@.consistent() {
                crate::laws::lemma_neg_consistent(self@);
            }
            if self@.satisfies_curve() {
                crate::closure::lemma_neg_closed(self@);
            }
        }
        ExtendedPoint { u: self.u.neg(), v: self.v, z: self.z, t1: self.t1.neg(), t2: self.t2 }
    }

    /// Whether the point stands for the neutral element: `U = 0` and
    /// `V = Z`.
    pub fn is_identity(&self) -> (r: Choice)
        ensures
            r@ == self@.is_identity(),
    {
        self.u.ct_eq(&Fq::zero()).and(self.v.ct_eq(&self.z))
    }

    /// Whether two doublings bring the point to `U = 0`.  The points of
    /// order two are `(0, 1)` and `(0, -1)`, so this holds of every point
    /// whose order divides eight.
    pub fn is_small_order(&self) -> (r: Choice)
        ensures
            r@ == self@.is_small_order(),
    {
        self.double().double().u.ct_eq(&Fq::zero())
    }

    /// Whether the multiple of the point by `r` is the neutral element, as
    /// it is for the points of the prime-order subgroup.
    pub fn is_torsion_free(&self) -> (r: Choice)
        ensures
            r@ == self@.is_torsion_free(),
    {
        proof {
            lemma_fr_modulus_bytes();
        }
        self.multiply(&FR_MODULUS_BYTES).is_identity()
    }

    /// Whether the point is in the prime-order subgroup and is not the
    /// neutral element.
    pub fn is_prime_order(&self) -> (r: Choice)
        ensures
            r@ == self@.is_prime_order(),
    {
        self.is_torsion_free().and(self.is_identity().not())
    }

    /// Eight times the point.
    pub fn mul_by_cofactor(&self) -> (r: ExtendedPoint)
        ensures
            r@ == self@.mul_by_cofactor(),
            r@.consistent(),
            self@.satisfies_curve() ==> r@.satisfies_curve(),
    {
        self.double().double().double()
    }

    /// The cached form of the point, for adding it many times.
    pub fn to_niels(&self) -> (r: ExtendedNielsPoint)
        ensures
            r@ == self@.to_niels(),
    {
        ExtendedNielsPoint {
            v_plus_u: self.v.add(&self.u),
            v_minus_u: self.v.sub(&self.u),
            z: self.z,
            t2d: self.t1.mul(&self.t2).mul(&edwards_d2()),
        }
    }

    /// The double of the point, by the projective doubling formula for
    /// `a = -1`, which takes three multiplications and four squarings.
    pub fn double(&self) -> (r: ExtendedPoint)
        ensures
            r@ == self@.double(),
            r@.consistent(),
            self@.satisfies_curve() ==> r@.satisfies_curve(),
    {
        proof {
            self.lemma_in_field();
            if self@.satisfies_curve() {
                crate::closure::lemma_double_closed(self@);
            }
        }
        let uu = self.u.square();
        let vv = self.v.square();
        let zz2 = self.z.square().double();
        let uv2 = self.u.add(&self.v).square();
        let vv_plus_uu = vv.add(&uu);
        let vv_minus_uu = vv.sub(&uu);
        CompletedPoint {
            u: uv2.sub(&vv_plus_uu),
            v: vv_plus_uu,
            z: vv_minus_uu,
            t: zz2.sub(&vv_minus_uu),
        }.into_extended()
    }

    /// The sum with a cached extended point, in eight multiplications.
    pub fn add_niels(&self, other: &ExtendedNielsPoint) -> (r: ExtendedPoint)
        ensures
            r@ == self@.add_niels(other@),
            r@.consistent(),
    {
        let a = self.v.sub(&self.u).mul(&other.v_minus_u);
        let b = self.v.add(&self.u).mul(&other.v_plus_u);
        let c = self.t1.mul(&self.t2).mul(&other.t2d);
        let d = self.z.mul(&other.z).double();
        CompletedPoint { u: b.sub(&a), v: b.add(&a), z: d.add(&c), t: d.sub(&c) }.into_extended()
    }

    /// The difference with a cached extended point.
    pub fn sub_niels(&self, other: &ExtendedNielsPoint) -> (r: ExtendedPoint)
        ensures
            r@ == self@.sub_niels(other@),
            r@.consistent(),
    {
        let a = self.v.sub(&self.u).mul(&other.v_plus_u);
        let b = self.v.add(&self.u).mul(&other.v_minus_u);
        let c = self.t1.mul(&self.t2).mul(&other.t2d);
        let d = self.z.mul(&other.z).double();
        CompletedPoint { u: b.sub(&a), v: b.add(&a), z: d.sub(&c), t: d.add(&c) }.into_extended()
    }

    /// The sum with a cached affine point, in seven multiplications.
    pub fn add_affine_niels(&self, other: &AffineNielsPoint) -> (r: ExtendedPoint)
        ensures
            r@ == self@.add_affine_niels(other@),
            r@.consistent(),
    {
        let a = self.v.sub(&self.u).mul(&other.v_minus_u);
        let b = self.v.add(&self.u).mul(&other.v_plus_u);
        let c = self.t1.mul(&self.t2).mul(&other.t2d);
        let d = self.z.double();
        CompletedPoint { u: b.sub(&a), v: b.add(&a), z: d.add(&c), t: d.sub(&c) }.into_extended()
    }

    /// The difference with a cached affine point.
    pub fn sub_affine_niels(&self, other: &AffineNielsPoint) -> (r: ExtendedPoint)
        ensures
            r@ == self@.sub_affine_niels(other@),
            r@.consistent(),
    {
        let a = self.v.sub(&self.u).mul(&other.v_plus_u);
        let b = self.v.add(&self.u).mul(&other.v_minus_u);
        let c = self.t1.mul(&self.t2).mul(&other.t2d);
        let d = self.z.double();
        CompletedPoint { u: b.sub(&a), v: b.add(&a), z: d.sub(&c), t: d.add(&c) }.into_extended()
    }

    /// The sum of two extended points.
    pub fn add(&self, other: &ExtendedPoint) -> (r: ExtendedPoint)
        ensures
            r@ == self@.add(other@),
            r@.consistent(),
            self@.satisfies_curve() && other@.satisfies_curve() ==> r@.satisfies_curve(),
    {
        proof {
            self.lemma_in_field();
            other.lemma_in_field();
            if self@.satisfies_curve() && other@.satisfies_curve() {
                crate::closure::lemma_add_closed(self@, other@);
            }
        }
        self.add_niels(&other.to_niels())
    }

    /// The difference of two extended points.
    pub fn sub(&self, other: &ExtendedPoint) -> (r: ExtendedPoint)
        ensures
            r@ == self@.sub(other@),
            r@.consistent(),
            self@.satisfies_curve() && other@.satisfies_curve() ==> r@.satisfies_curve(),
    {
        proof {
            self.lemma_in_field();
            other.lemma_in_field();
            if self@.satisfies_curve() && other@.satisfies_curve() {
                crate::closure::lemma_sub_closed(self@, other@);
            }
        }
        self.sub_niels(&other.to_niels())
    }

    /// The sum with an affine point.
    pub fn add_affine(&self, other: &AffinePoint) -> (r: ExtendedPoint)
        ensures
            r@ == self@.add_affine_niels(other@.to_niels()),
            r@.consistent(),
            self@.satisfies_curve() && other@.on_curve() ==> r@.satisfies_curve(),
    {
        proof {
            self.lemma_in_field();
            other.u.lemma_range();
            other.v.lemma_range();
            if self@.satisfies_curve() && other@.on_curve() {
                crate::closure::lemma_add_affine_closed(self@, other@);
            }
        }
        self.add_affine_niels(&other.to_niels())
    }

    /// The difference with an affine point.
    pub fn sub_affine(&self, other: &AffinePoint) -> (r: ExtendedPoint)
        ensures
            r@ == self@.sub_affine_niels(other@.to_niels()),
            r@.consistent(),
            self@.satisfies_curve() && other@.on_curve() ==> r@.satisfies_curve(),
    {
        proof {
            self.lemma_in_field();
            other.u.lemma_range();
            other.v.lemma_range();
            if self@.satisfies_curve() && other@.on_curve() {
                crate::closure::lemma_add_affine_closed(self@, other@);
            }
        }
        self.sub_affine_niels(&other.to_niels())
    }

    /// Double-and-add over the lowest `start` bits of a word, from the
    /// highest of them down, carrying on from an accumulator that has taken
    /// in the `len` bits of `e`.
    fn scan_word(
        &self,
        acc: ExtendedPoint,
        base: &ExtendedNielsPoint,
        word: u64,
        start: u64,
        Ghost(e): Ghost<nat>,
        Ghost(len): Ghost<nat>,
    ) -> (r: ExtendedPoint)
        requires
            start <= 64,
            high_bits(word, start) == 0,
            base@ == self@.to_niels(),
            acc@ == self@.mul_bits(e, len),
        ensures
            r@ == self@.mul_bits((e * pow2(start as nat) + word) as nat, len + start as nat),
            start > 0 ==> r@.consistent(),
    {
        let zero = ExtendedNielsPoint::identity();
        let mut acc = acc;
        let ghost mut taken: nat = e;
        let mut j: u64 = start;
        proof {
            lemma2_to64();
            assert(e * pow2(0) == e) by (nonlinear_arith)
                requires
                    pow2(0) == 1,
            ;
        }
        while j > 0
            invariant
                j <= start,
                start <= 64,
                zero@ == ExtendedNielsCoords::identity(),
                base@ == self@.to_niels(),
                taken == e * pow2((start - j) as nat) + high_bits(word, j),
                acc@ == self@.mul_bits(taken, len + (start - j) as nat),
                j < start ==> acc@.consistent(),
            decreases j,
        {
            j = j - 1;
            let bit: u64 = (word >> j) & 1;
            proof {
                lemma_high_bits_step(word, j);
            }
            let picked = ExtendedNielsPoint::conditional_select(
                &zero,
                base,
                Choice::from_u8(bit as u8),
            );
            acc = acc.double().add_niels(&picked);
            proof {
                let next: nat = (2 * taken + bit) as nat;
                assert(next / 2 == taken && next % 2 == bit);
                lemma_pow2_unfold((start - j) as nat);
                let p = pow2((start - j - 1) as nat);
                assert(2 * (e * p) == e * (2 * p)) by (nonlinear_arith);
                taken = next;
            }
        }
        proof {
            lemma_high_bits_step(word, 0);
        }
        acc
    }

    /// The multiple of the point by the scalar that the bytes spell, least
    /// significant first.  Double-and-add from the highest bit down, in a
    /// fixed number of steps; the four highest bits are passed over, which
    /// are zero in every scalar below `r`.
    pub fn multiply(&self, by: &[u8; 32]) -> (r: ExtendedPoint)
        ensures
            r@ == self@.mul(bytes_value(*by)),
            r@.consistent(),
            self@.satisfies_curve() ==> r@.satisfies_curve(),
    {
        proof {
            self.lemma_in_field();
            if self@.satisfies_curve() {
                crate::closure::lemma_mul_closed(self@, bytes_value(*by));
            }
        }
        let base = self.to_niels();
        let limbs = limbs_from_bytes(by);
        let high: u64 = limbs[3];
        let top: u64 = high & 0x0fff_ffff_ffff_ffff;
        proof {
            assert(top == high % 0x1000_0000_0000_0000 && top >> 60 == 0) by (bit_vector)
                requires
                    top == high & 0x0fff_ffff_ffff_ffff,
            ;
            lemma_low_bits(limbs, top);
            lemma2_to64_rest();
        }
        let acc = ExtendedPoint::identity();
        let acc = self.scan_word(acc, &base, top, 60, Ghost(0), Ghost(0));
        let ghost e3: nat = top as nat;
        assert(0 * pow2(60) + top == e3) by (nonlinear_arith)
            requires
                e3 == top,
        ;
        let acc = self.scan_word(acc, &base, limbs[2], 64, Ghost(e3), Ghost(60));
        let ghost e2: nat = e3 * 0x1_0000_0000_0000_0000 + limbs[2] as nat;
        assert(e3 * pow2(64) + limbs[2] == e2) by (nonlinear_arith)
            requires
                pow2(64) == 0x1_0000_0000_0000_0000,
                e2 == e3 * 0x1_0000_0000_0000_0000 + limbs[2],
        ;
        let acc = self.scan_word(acc, &base, limbs[1], 64, Ghost(e2), Ghost(124));
        let ghost e1: nat = e2 * 0x1_0000_0000_0000_0000 + limbs[1] as nat;
        assert(e2 * pow2(64) + limbs[1] == e1) by (nonlinear_arith)
            requires
                pow2(64) == 0x1_0000_0000_0000_0000,
                e1 == e2 * 0x1_0000_0000_0000_0000 + limbs[1],
        ;
        let acc = self.scan_word(acc, &base, limbs[0], 64, Ghost(e1), Ghost(188));
        let ghost e0: nat = e1 * 0x1_0000_0000_0000_0000 + limbs[0] as nat;
        assert(e1 * pow2(64) + limbs[0] == e0) by (nonlinear_arith)
            requires
                pow2(64) == 0x1_0000_0000_0000_0000,
                e0 == e1 * 0x1_0000_0000_0000_0000 + limbs[0],
        ;
        acc
    }

    /// The multiple of the point by a scalar.
    pub fn mul(&self, by: &Fr) -> (r: ExtendedPoint)
        ensures
            r@ == self@.mul(by@),
            r@.consistent(),
            self@.satisfies_curve() ==> r@.satisfies_curve(),
    {
        self.multiply(&by.into_bytes())
    }

    /// Whether the point is on the curve: `Z` is not zero, the affine point
    /// satisfies the curve equation, and `T1.T2` is `U.V/Z`.  The running
    /// time depends on the point.
    pub fn is_on_curve_vartime(&self) -> (r: bool)
        ensures
            r == self@.on_curve(),
    {
        if self.z.ct_eq(&Fq::zero()).unwrap_u8() == 1 {
            return false;
        }
        let affine = AffinePoint::from_extended(self);
        affine.is_on_curve_vartime() && affine.u.mul(&affine.v).mul(&self.z).ct_eq(
            &self.t1.mul(&self.t2),
        ).unwrap_u8() == 1
    }
}

impl ExtendedNielsPoint {
    /// The cached form `(1, 1, 1, 0)` of the neutral element.
    pub fn identity() -> (r: ExtendedNielsPoint)
        ensures
            r@ == ExtendedNielsCoords::identity(),
    {
        ExtendedNielsPoint {
            v_plus_u: Fq::one(),
            v_minus_u: Fq::one(),
            z: Fq::one(),
            t2d: Fq::zero(),
        }
    }
}

/// The lowest 252 bits of a four-limb number: its three low limbs, and the
/// lowest sixty bits of its highest limb.
proof fn lemma_low_bits(l: [u64; 4], top: u64)
    requires
        top == l[3] % 0x1000_0000_0000_0000,
    ensures
        limbs_value(l)
            % 0x1000_0000_0000_0000_0000_0000_0000_0000_0000_0000_0000_0000_0000_0000_0000_0000nat
            == ((top * 0x1_0000_0000_0000_0000 + l[2]) * 0x1_0000_0000_0000_0000 + l[1])
            * 0x1_0000_0000_0000_0000 + l[0],
{
    let low = ((top * 0x1_0000_0000_0000_0000 + l[2]) * 0x1_0000_0000_0000_0000 + l[1])
        * 0x1_0000_0000_0000_0000 + l[0];
    let cut = l[3] / 0x1000_0000_0000_0000;
    assert(limbs_value(l)
        == 0x1000_0000_0000_0000_0000_0000_0000_0000_0000_0000_0000_0000_0000_0000_0000_0000nat
        * cut + low);
    vstd::arithmetic::div_mod::lemma_fundamental_div_mod_converse(
        limbs_value(l) as int,
        0x1000_0000_0000_0000_0000_0000_0000_0000_0000_0000_0000_0000_0000_0000_0000_0000int,
        cut as int,
        low as int,
    );
}

} // verus!
