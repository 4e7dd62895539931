//! Laws of the point arithmetic that hold in every commutative ring, proved
//! from the formulas.  The coordinates are lifted to integers, of which they
//! are the residues; a law is then an identity between polynomials.

use crate::algebra::{
    lemma_mul_associates, lemma_mul_commutes, lemma_neg_neg, lemma_residue_add,
    lemma_residue_gap, lemma_residue_mul, lemma_residue_neg, lemma_residue_range,
    lemma_residue_self, lemma_residue_shift, lemma_residue_sub, residue,
};
use crate::curve::{
    d, d2, AffineCoords, CompletedCoords, ExtendedCoords, ExtendedNielsCoords,
};
use crate::fq::{fq_add, fq_mul, fq_sub, q};
use vstd::prelude::*;

verus! {

/// Integers of which the coordinates of an extended point are the residues.
pub struct Lifted {
    pub u: int,
    pub v: int,
    pub z: int,
    pub t1: int,
    pub t2: int,
}

/// Integers of which the coordinates of a cached point are the residues.
pub struct LiftedNiels {
    pub v_plus_u: int,
    pub v_minus_u: int,
    pub z: int,
    pub t2d: int,
}

impl Lifted {
    /// The coordinates of `p` are the residues of these integers.
    pub open spec fn lifts(self, p: ExtendedCoords) -> bool {
        &&& residue(p.u, self.u)
        &&& residue(p.v, self.v)
        &&& residue(p.z, self.z)
        &&& residue(p.t1, self.t1)
        &&& residue(p.t2, self.t2)
    }

    /// The coordinates of a point themselves.
    pub open spec fn of(p: ExtendedCoords) -> Lifted {
        Lifted { u: p.u as int, v: p.v as int, z: p.z as int, t1: p.t1 as int, t2: p.t2 as int }
    }

    /// The doubling formula over the integers.
    pub open spec fn double(self) -> Lifted {
        let uu = self.u * self.u;
        let vv = self.v * self.v;
        let zz2 = self.z * self.z + self.z * self.z;
        let uv2 = (self.u + self.v) * (self.u + self.v);
        let cu = uv2 - (vv + uu);
        let cv = vv + uu;
        let cz = vv - uu;
        let ct = zz2 - (vv - uu);
        Lifted { u: cu * ct, v: cv * cz, z: cz * ct, t1: cu, t2: cv }
    }

    /// The cached form over the integers.
    pub open spec fn to_niels(self) -> LiftedNiels {
        LiftedNiels {
            v_plus_u: self.v + self.u,
            v_minus_u: self.v - self.u,
            z: self.z,
            t2d: (self.t1 * self.t2) * (d2() as int),
        }
    }

    /// The addition formula over the integers.
    pub open spec fn add_niels(self, other: LiftedNiels) -> Lifted {
        let a = (self.v - self.u) * other.v_minus_u;
        let b = (self.v + self.u) * other.v_plus_u;
        let c = (self.t1 * self.t2) * other.t2d;
        let dd = self.z * other.z + self.z * other.z;
        let cu = b - a;
        let cv = b + a;
        let cz = dd + c;
        let ct = dd - c;
        Lifted { u: cu * ct, v: cv * cz, z: cz * ct, t1: cu, t2: cv }
    }
}

impl LiftedNiels {
    /// The coordinates of `n` are the residues of these integers.
    pub open spec fn lifts(self, n: ExtendedNielsCoords) -> bool {
        &&& residue(n.v_plus_u, self.v_plus_u)
        &&& residue(n.v_minus_u, self.v_minus_u)
        &&& residue(n.z, self.z)
        &&& residue(n.t2d, self.t2d)
    }

    /// The cached form of the neutral element.
    pub open spec fn identity() -> LiftedNiels {
        LiftedNiels { v_plus_u: 1, v_minus_u: 1, z: 1, t2d: 0 }
    }
}

/// The coordinates of a point in the field lift to themselves.
pub proof fn lemma_lift_self(p: ExtendedCoords)
    requires
        p.in_field(),
    ensures
        Lifted::of(p).lifts(p),
{
    lemma_residue_self(p.u);
    lemma_residue_self(p.v);
    lemma_residue_self(p.z);
    lemma_residue_self(p.t1);
    lemma_residue_self(p.t2);
}

/// What lifts is in the field.
pub proof fn lemma_lift_in_field(p: ExtendedCoords, l: Lifted)
    requires
        l.lifts(p),
    ensures
        p.in_field(),
{
    lemma_residue_range(p.u, l.u);
    lemma_residue_range(p.v, l.v);
    lemma_residue_range(p.z, l.z);
    lemma_residue_range(p.t1, l.t1);
    lemma_residue_range(p.t2, l.t2);
}

/// The cached form of the neutral element lifts to `(1, 1, 1, 0)`.
pub proof fn lemma_lift_identity_niels()
    ensures
        LiftedNiels::identity().lifts(ExtendedNielsCoords::identity()),
{
    lemma_residue_self(1);
    lemma_residue_self(0);
}

/// Doubling commutes with lifting.
pub proof fn lemma_lift_double(p: ExtendedCoords, l: Lifted)
    requires
        l.lifts(p),
    ensures
        l.double().lifts(p.double()),
{
    let uu = fq_mul(p.u, p.u);
    let vv = fq_mul(p.v, p.v);
    let zz = fq_mul(p.z, p.z);
    let zz2 = fq_add(zz, zz);
    let uv = fq_add(p.u, p.v);
    let uv2 = fq_mul(uv, uv);
    let vv_plus_uu = fq_add(vv, uu);
    let vv_minus_uu = fq_sub(vv, uu);
    let cu = fq_sub(uv2, vv_plus_uu);
    let ct = fq_sub(zz2, vv_minus_uu);
    lemma_residue_mul(p.u, l.u, p.u, l.u);
    lemma_residue_mul(p.v, l.v, p.v, l.v);
    lemma_residue_mul(p.z, l.z, p.z, l.z);
    lemma_residue_add(zz, l.z * l.z, zz, l.z * l.z);
    lemma_residue_add(p.u, l.u, p.v, l.v);
    lemma_residue_mul(uv, l.u + l.v, uv, l.u + l.v);
    lemma_residue_add(vv, l.v * l.v, uu, l.u * l.u);
    lemma_residue_sub(vv, l.v * l.v, uu, l.u * l.u);
    let icv = l.v * l.v + l.u * l.u;
    let icz = l.v * l.v - l.u * l.u;
    let icu = (l.u + l.v) * (l.u + l.v) - icv;
    let ict = (l.z * l.z + l.z * l.z) - icz;
    lemma_residue_sub(uv2, (l.u + l.v) * (l.u + l.v), vv_plus_uu, icv);
    lemma_residue_sub(zz2, l.z * l.z + l.z * l.z, vv_minus_uu, icz);
    lemma_residue_mul(cu, icu, ct, ict);
    lemma_residue_mul(vv_plus_uu, icv, vv_minus_uu, icz);
    lemma_residue_mul(vv_minus_uu, icz, ct, ict);
}

/// The cached form commutes with lifting.
pub proof fn lemma_lift_to_niels(p: ExtendedCoords, l: Lifted)
    requires
        l.lifts(p),
    ensures
        l.to_niels().lifts(p.to_niels()),
{
    lemma_residue_add(p.v, l.v, p.u, l.u);
    lemma_residue_sub(p.v, l.v, p.u, l.u);
    lemma_residue_mul(p.t1, l.t1, p.t2, l.t2);
    lemma_residue_self(d2());
    lemma_residue_mul(fq_mul(p.t1, p.t2), l.t1 * l.t2, d2(), d2() as int);
}

/// Addition commutes with lifting.
pub proof fn lemma_lift_add_niels(
    p: ExtendedCoords,
    l: Lifted,
    n: ExtendedNielsCoords,
    m: LiftedNiels,
)
    requires
        l.lifts(p),
        m.lifts(n),
    ensures
        l.add_niels(m).lifts(p.add_niels(n)),
{
    let vmu = fq_sub(p.v, p.u);
    let vpu = fq_add(p.v, p.u);
    let a = fq_mul(vmu, n.v_minus_u);
    let b = fq_mul(vpu, n.v_plus_u);
    let tt = fq_mul(p.t1, p.t2);
    let c = fq_mul(tt, n.t2d);
    let zz = fq_mul(p.z, n.z);
    let dd = fq_add(zz, zz);
    let ia = (l.v - l.u) * m.v_minus_u;
    let ib = (l.v + l.u) * m.v_plus_u;
    let ic = (l.t1 * l.t2) * m.t2d;
    let idd = l.z * m.z + l.z * m.z;
    lemma_residue_sub(p.v, l.v, p.u, l.u);
    lemma_residue_add(p.v, l.v, p.u, l.u);
    lemma_residue_mul(vmu, l.v - l.u, n.v_minus_u, m.v_minus_u);
    lemma_residue_mul(vpu, l.v + l.u, n.v_plus_u, m.v_plus_u);
    lemma_residue_mul(p.t1, l.t1, p.t2, l.t2);
    lemma_residue_mul(tt, l.t1 * l.t2, n.t2d, m.t2d);
    lemma_residue_mul(p.z, l.z, n.z, m.z);
    lemma_residue_add(zz, l.z * m.z, zz, l.z * m.z);
    lemma_residue_sub(b, ib, a, ia);
    lemma_residue_add(b, ib, a, ia);
    lemma_residue_add(dd, idd, c, ic);
    lemma_residue_sub(dd, idd, c, ic);
    lemma_residue_mul(fq_sub(b, a), ib - ia, fq_sub(dd, c), idd - ic);
    lemma_residue_mul(fq_add(b, a), ib + ia, fq_add(dd, c), idd + ic);
    lemma_residue_mul(fq_add(dd, c), idd + ic, fq_sub(dd, c), idd - ic);
}

/// Two points whose lifts agree by cross multiplication stand for the same
/// affine point.
pub proof fn lemma_same_point(a: ExtendedCoords, la: Lifted, b: ExtendedCoords, lb: Lifted)
    requires
        la.lifts(a),
        lb.lifts(b),
        la.u * lb.z == lb.u * la.z,
        la.v * lb.z == lb.v * la.z,
    ensures
        a.same_point(b),
{
    lemma_residue_mul(a.u, la.u, b.z, lb.z);
    lemma_residue_mul(b.u, lb.u, a.z, la.z);
    lemma_residue_mul(a.v, la.v, b.z, lb.z);
    lemma_residue_mul(b.v, lb.v, a.z, la.z);
}

/// Whatever the completed point, the extended point made from it has
/// `T1.T2.Z = U.V`.
pub proof fn lemma_into_extended_consistent(c: CompletedCoords)
    requires
        c.u < q(),
        c.v < q(),
        c.z < q(),
        c.t < q(),
    ensures
        c.into_extended().consistent(),
        c.into_extended().in_field(),
{
    let (u, v, z, t) = (c.u as int, c.v as int, c.z as int, c.t as int);
    lemma_residue_self(c.u);
    lemma_residue_self(c.v);
    lemma_residue_self(c.z);
    lemma_residue_self(c.t);
    lemma_residue_mul(c.u, u, c.t, t);
    lemma_residue_mul(c.v, v, c.z, z);
    lemma_residue_mul(c.z, z, c.t, t);
    lemma_residue_mul(c.u, u, c.v, v);
    lemma_residue_mul(fq_mul(c.u, c.v), u * v, fq_mul(c.z, c.t), z * t);
    lemma_residue_mul(fq_mul(c.u, c.t), u * t, fq_mul(c.v, c.z), v * z);
    assert((u * v) * (z * t) == (u * t) * (v * z)) by (nonlinear_arith);
    lemma_residue_range(fq_mul(c.u, c.t), u * t);
    lemma_residue_range(fq_mul(c.v, c.z), v * z);
    lemma_residue_range(fq_mul(c.z, c.t), z * t);
}

/// Every result of a doubling, an addition or a subtraction has
/// `T1.T2.Z = U.V`, whatever went in.
pub proof fn lemma_results_consistent(
    p: ExtendedCoords,
    n: ExtendedNielsCoords,
    m: crate::curve::AffineNielsCoords,
)
    ensures
        p.double().consistent() && p.double().in_field(),
        p.add_niels(n).consistent() && p.add_niels(n).in_field(),
        p.sub_niels(n).consistent() && p.sub_niels(n).in_field(),
        p.add_affine_niels(m).consistent() && p.add_affine_niels(m).in_field(),
        p.sub_affine_niels(m).consistent() && p.sub_affine_niels(m).in_field(),
{
    crate::fq::lemma_ops_in_field();
    lemma_into_extended_consistent(p.double_completed());
    let a = fq_mul(fq_sub(p.v, p.u), n.v_minus_u);
    let b = fq_mul(fq_add(p.v, p.u), n.v_plus_u);
    let c = fq_mul(fq_mul(p.t1, p.t2), n.t2d);
    let zz = fq_mul(p.z, n.z);
    let dd = fq_add(zz, zz);
    lemma_into_extended_consistent(
        CompletedCoords { u: fq_sub(b, a), v: fq_add(b, a), z: fq_add(dd, c), t: fq_sub(dd, c) },
    );
    let a = fq_mul(fq_sub(p.v, p.u), n.v_plus_u);
    let b = fq_mul(fq_add(p.v, p.u), n.v_minus_u);
    lemma_into_extended_consistent(
        CompletedCoords { u: fq_sub(b, a), v: fq_add(b, a), z: fq_sub(dd, c), t: fq_add(dd, c) },
    );
    let a = fq_mul(fq_sub(p.v, p.u), m.v_minus_u);
    let b = fq_mul(fq_add(p.v, p.u), m.v_plus_u);
    let c = fq_mul(fq_mul(p.t1, p.t2), m.t2d);
    let dd = fq_add(p.z, p.z);
    lemma_into_extended_consistent(
        CompletedCoords { u: fq_sub(b, a), v: fq_add(b, a), z: fq_add(dd, c), t: fq_sub(dd, c) },
    );
    let a = fq_mul(fq_sub(p.v, p.u), m.v_plus_u);
    let b = fq_mul(fq_add(p.v, p.u), m.v_minus_u);
    lemma_into_extended_consistent(
        CompletedCoords { u: fq_sub(b, a), v: fq_add(b, a), z: fq_sub(dd, c), t: fq_add(dd, c) },
    );
}

/// The neutral element, and the extended form of every affine point, have
/// `Z = 1` and `T1.T2.Z = U.V`.
pub proof fn lemma_constructed_consistent(a: AffineCoords)
    requires
        a.in_field(),
    ensures
        ExtendedCoords::identity().consistent(),
        ExtendedCoords::identity().z != 0,
        a.to_extended().consistent(),
        a.to_extended().z != 0,
{
    lemma_residue_self(0);
    lemma_residue_self(1);
    lemma_residue_self(a.u);
    lemma_residue_self(a.v);
    lemma_residue_mul(0, 0, 0, 0);
    lemma_residue_mul(0, 0, 1, 1);
    lemma_residue_mul(fq_mul(0, 0), 0, 1, 1);
    let (u, v) = (a.u as int, a.v as int);
    lemma_residue_mul(a.u, u, a.v, v);
    lemma_residue_mul(fq_mul(a.u, a.v), u * v, 1, 1);
    assert((u * v) * 1 == u * v);
}

/// Negation keeps `Z`, and keeps `T1.T2.Z = U.V`.
pub proof fn lemma_neg_consistent(p: ExtendedCoords)
    requires
        p.in_field(),
        p.consistent(),
    ensures
        p.neg().consistent(),
        p.neg().z == p.z,
{
    let l = Lifted::of(p);
    lemma_lift_self(p);
    lemma_residue_neg(p.u, l.u);
    lemma_residue_neg(p.t1, l.t1);
    lemma_residue_mul(crate::fq::fq_neg(p.t1), -l.t1, p.t2, l.t2);
    lemma_residue_mul(fq_mul(crate::fq::fq_neg(p.t1), p.t2), (-l.t1) * l.t2, p.z, l.z);
    lemma_residue_mul(crate::fq::fq_neg(p.u), -l.u, p.v, l.v);
    lemma_residue_mul(p.t1, l.t1, p.t2, l.t2);
    lemma_residue_mul(fq_mul(p.t1, p.t2), l.t1 * l.t2, p.z, l.z);
    lemma_residue_mul(p.u, l.u, p.v, l.v);
    // (t1 * t2) * z and u * v have the same residue, and so have their negatives
    lemma_residue_neg(fq_mul(fq_mul(p.t1, p.t2), p.z), (l.t1 * l.t2) * l.z);
    lemma_residue_neg(fq_mul(p.u, p.v), l.u * l.v);
    assert(((-l.t1) * l.t2) * l.z == -((l.t1 * l.t2) * l.z)) by (nonlinear_arith);
    assert((-l.u) * l.v == -(l.u * l.v)) by (nonlinear_arith);
}

/// Negation is an involution: `-(-p) = p`.
pub proof fn lemma_neg_involution(p: ExtendedCoords)
    requires
        p.in_field(),
    ensures
        p.neg().neg() == p,
{
    lemma_neg_neg(p.u);
    lemma_neg_neg(p.t1);
}

/// Addition is commutative: `p + q` and `q + p` have the same coordinates.
pub proof fn lemma_add_commutes(p: ExtendedCoords, r: ExtendedCoords)
    requires
        p.in_field(),
        r.in_field(),
    ensures
        p.add(r) == r.add(p),
{
    crate::fq::lemma_ops_in_field();
    lemma_mul_commutes(fq_sub(p.v, p.u), fq_sub(r.v, r.u));
    lemma_mul_commutes(fq_add(p.v, p.u), fq_add(r.v, r.u));
    lemma_mul_commutes(p.z, r.z);
    let x = fq_mul(p.t1, p.t2);
    let y = fq_mul(r.t1, r.t2);
    lemma_mul_associates(x, y, d2());
    lemma_mul_associates(y, x, d2());
    lemma_mul_commutes(x, y);
}

/// The neutral element is neutral: `p + O` stands for the same affine point
/// as `p`.
pub proof fn lemma_add_identity(p: ExtendedCoords)
    requires
        p.in_field(),
    ensures
        p.add_niels(ExtendedNielsCoords::identity()).same_point(p),
        p.add(ExtendedCoords::identity()).same_point(p),
{
    let l = Lifted::of(p);
    lemma_lift_self(p);
    lemma_lift_identity_niels();
    lemma_lift_add_niels(p, l, ExtendedNielsCoords::identity(), LiftedNiels::identity());
    let s = l.add_niels(LiftedNiels::identity());
    assert(s.u * l.z == l.u * s.z && s.v * l.z == l.v * s.z) by (nonlinear_arith)
        requires
            s == l.add_niels(LiftedNiels::identity()),
    ;
    lemma_same_point(p.add_niels(ExtendedNielsCoords::identity()), s, p, l);

    let o = ExtendedCoords::identity();
    let lo = Lifted::of(o);
    lemma_lift_self(o);
    lemma_lift_to_niels(o, lo);
    lemma_lift_add_niels(p, l, o.to_niels(), lo.to_niels());
    let t = l.add_niels(lo.to_niels());
    assert(t.u * l.z == l.u * t.z && t.v * l.z == l.v * t.z) by (nonlinear_arith)
        requires
            t == l.add_niels(lo.to_niels()),
            lo.to_niels() == (LiftedNiels {
                v_plus_u: 1int + 0int,
                v_minus_u: 1int - 0int,
                z: 1int,
                t2d: (0int * 0int) * (d2() as int),
            }),
    ;
    lemma_same_point(p.add(o), t, p, l);
}

/// Doubling a point that stands for the neutral element, and then adding
/// the neutral element to it, leaves a point that stands for the neutral
/// element, with `T1 = 0`.
pub proof fn lemma_identity_step(p: ExtendedCoords)
    requires
        p.in_field(),
        p.is_identity(),
    ensures
        p.double().is_identity(),
        p.double().t1 == 0,
        p.double().in_field(),
        p.double().add_niels(ExtendedNielsCoords::identity()).is_identity(),
        p.double().add_niels(ExtendedNielsCoords::identity()).t1 == 0,
        p.double().add_niels(ExtendedNielsCoords::identity()).in_field(),
{
    let l = Lifted::of(p);
    lemma_lift_self(p);
    lemma_lift_double(p, l);
    let dl = l.double();
    let dp = p.double();
    lemma_lift_in_field(dp, dl);
    assert(dl.u == 0 && dl.t1 == 0 && dl.v == dl.z) by (nonlinear_arith)
        requires
            dl == l.double(),
            l.u == 0,
            l.v == l.z,
    ;
    lemma_residue_self(0);
    let l2 = Lifted::of(dp);
    lemma_lift_self(dp);
    lemma_lift_identity_niels();
    lemma_lift_add_niels(dp, l2, ExtendedNielsCoords::identity(), LiftedNiels::identity());
    let al = l2.add_niels(LiftedNiels::identity());
    lemma_lift_in_field(dp.add_niels(ExtendedNielsCoords::identity()), al);
    assert(al.u == 0 && al.t1 == 0 && al.v == al.z) by (nonlinear_arith)
        requires
            al == l2.add_niels(LiftedNiels::identity()),
            l2.u == 0,
            l2.v == l2.z,
    ;
}

/// Double-and-add over bits that are all zero arrives at a point that
/// stands for the neutral element.
pub proof fn lemma_mul_bits_zero(p: ExtendedCoords, len: nat)
    ensures
        p.mul_bits(0, len).is_identity(),
        p.mul_bits(0, len).in_field(),
    decreases len,
{
    if len == 0 {
        lemma_residue_range(0, 0);
        lemma_residue_self(1);
    } else {
        lemma_mul_bits_zero(p, (len - 1) as nat);
        lemma_identity_step(p.mul_bits(0, (len - 1) as nat));
    }
}

/// The multiple by zero stands for the neutral element.
pub proof fn lemma_mul_zero(p: ExtendedCoords)
    ensures
        p.mul(0).is_identity(),
{
    lemma_mul_bits_zero(p, 252);
}

/// The multiple by one stands for the same affine point as the point.
pub proof fn lemma_mul_one(p: ExtendedCoords)
    requires
        p.in_field(),
    ensures
        p.mul(1).same_point(p),
{
    let before = p.mul_bits(0, 251);
    lemma_mul_bits_zero(p, 251);
    lemma_identity_step(before);
    let acc = before.double();
    assert(p.mul(1) == acc.add_niels(p.to_niels())) by {
        assert(1nat
            % 0x1000_0000_0000_0000_0000_0000_0000_0000_0000_0000_0000_0000_0000_0000_0000_0000nat
            == 1);
        assert(1nat / 2 == 0 && 1nat % 2 == 1);
        assert(p.mul_bits(1, 252) == p.mul_bits(1nat / 2, 251).double().add_niels(p.to_niels()));
    }
    let la = Lifted::of(acc);
    let l = Lifted::of(p);
    lemma_lift_self(acc);
    lemma_lift_self(p);
    lemma_lift_to_niels(p, l);
    lemma_lift_add_niels(acc, la, p.to_niels(), l.to_niels());
    let s = la.add_niels(l.to_niels());
    let c = la.v;
    let a = (la.v - la.u) * (l.v - l.u);
    let b = (la.v + la.u) * (l.v + l.u);
    let cc = (la.t1 * la.t2) * ((l.t1 * l.t2) * (d2() as int));
    let dd = la.z * l.z + la.z * l.z;
    assert(cc == 0) by (nonlinear_arith)
        requires
            cc == (la.t1 * la.t2) * ((l.t1 * l.t2) * (d2() as int)),
            la.t1 == 0,
    ;
    assert(b - a == 2 * (c * l.u) && b + a == 2 * (c * l.v)) by (nonlinear_arith)
        requires
            a == (c - 0) * (l.v - l.u),
            b == (c + 0) * (l.v + l.u),
    ;
    assert(dd == 2 * (c * l.z));
    assert(s.u == (2 * (c * l.u)) * (2 * (c * l.z)));
    assert(s.v == (2 * (c * l.v)) * (2 * (c * l.z)));
    assert(s.z == (2 * (c * l.z)) * (2 * (c * l.z)));
    lemma_scaled_cross(c, l.u, l.z);
    lemma_scaled_cross(c, l.v, l.z);
    lemma_same_point(p.mul(1), s, p, l);
}

/// The extended form of an affine point on the curve satisfies the curve
/// equation without division.
pub proof fn lemma_affine_satisfies_curve(a: AffineCoords)
    requires
        a.in_field(),
        a.on_curve(),
    ensures
        a.to_extended().satisfies_curve(),
{
    lemma_constructed_consistent(a);
    let (u, v, di) = (a.u as int, a.v as int, d() as int);
    let uu = fq_mul(a.u, a.u);
    let vv = fq_mul(a.v, a.v);
    let uv = fq_mul(a.u, a.v);
    lemma_residue_self(a.u);
    lemma_residue_self(a.v);
    lemma_residue_self(1);
    lemma_residue_self(d());
    lemma_residue_mul(a.u, u, a.u, u);
    lemma_residue_mul(a.v, v, a.v, v);
    // the right-hand side of the affine equation
    lemma_residue_mul(d(), di, uu, u * u);
    lemma_residue_mul(fq_mul(d(), uu), di * (u * u), vv, v * v);
    lemma_residue_add(1, 1, fq_mul(fq_mul(d(), uu), vv), (di * (u * u)) * (v * v));
    // the right-hand side of the extended equation
    lemma_residue_mul(1, 1int, 1, 1int);
    lemma_residue_mul(a.u, u, a.v, v);
    lemma_residue_mul(uv, u * v, uv, u * v);
    lemma_residue_mul(d(), di, fq_mul(uv, uv), (u * v) * (u * v));
    lemma_residue_add(
        fq_mul(1, 1),
        1int * 1int,
        fq_mul(d(), fq_mul(uv, uv)),
        di * ((u * v) * (u * v)),
    );
    assert(1 + (di * (u * u)) * (v * v) == 1int * 1int + di * ((u * v) * (u * v)))
        by (nonlinear_arith);
}

/// The integers behind the two sides of the curve equation differ by a
/// multiple of `q`.
proof fn lemma_curve_gap(p: ExtendedCoords) -> (k: int)
    requires
        p.in_field(),
        p.satisfies_curve(),
    ensures
        p.v * p.v - p.u * p.u == p.z * p.z + (d() as int) * ((p.t1 * p.t2) * (p.t1 * p.t2)) + k * (
        q() as int),
{
    let l = Lifted::of(p);
    let di = d() as int;
    lemma_lift_self(p);
    lemma_residue_self(d());
    let tt = fq_mul(p.t1, p.t2);
    lemma_residue_mul(p.v, l.v, p.v, l.v);
    lemma_residue_mul(p.u, l.u, p.u, l.u);
    lemma_residue_sub(fq_mul(p.v, p.v), l.v * l.v, fq_mul(p.u, p.u), l.u * l.u);
    lemma_residue_mul(p.z, l.z, p.z, l.z);
    lemma_residue_mul(p.t1, l.t1, p.t2, l.t2);
    lemma_residue_mul(tt, l.t1 * l.t2, tt, l.t1 * l.t2);
    lemma_residue_mul(d(), di, fq_mul(tt, tt), (l.t1 * l.t2) * (l.t1 * l.t2));
    lemma_residue_add(
        fq_mul(p.z, p.z),
        l.z * l.z,
        fq_mul(d(), fq_mul(tt, tt)),
        di * ((l.t1 * l.t2) * (l.t1 * l.t2)),
    );
    lemma_residue_gap(
        l.v * l.v - l.u * l.u,
        l.z * l.z + di * ((l.t1 * l.t2) * (l.t1 * l.t2)),
    )
}

/// A point and its negative add up to the neutral element, where the point
/// satisfies the curve equation.
pub proof fn lemma_add_inverse(p: ExtendedCoords)
    requires
        p.in_field(),
        p.satisfies_curve(),
    ensures
        p.add(p.neg()).is_identity(),
{
    let l = Lifted::of(p);
    let qi = q() as int;
    let di = d() as int;
    lemma_lift_self(p);
    let ln = Lifted { u: -l.u, v: l.v, z: l.z, t1: -l.t1, t2: l.t2 };
    lemma_residue_neg(p.u, l.u);
    lemma_residue_neg(p.t1, l.t1);
    lemma_lift_to_niels(p.neg(), ln);
    lemma_lift_add_niels(p, l, p.neg().to_niels(), ln.to_niels());
    let s = l.add_niels(ln.to_niels());
    let r = p.add(p.neg());
    let k = lemma_curve_gap(p);

    let tt = l.t1 * l.t2;
    let a = (l.v - l.u) * (l.v - (-l.u));
    let b = (l.v + l.u) * (l.v + (-l.u));
    let c = tt * (((-l.t1) * l.t2) * (d2() as int));
    let dd = l.z * l.z + l.z * l.z;
    assert(b - a == 0 && b + a == 2 * (l.v * l.v - l.u * l.u)) by (nonlinear_arith)
        requires
            a == (l.v - l.u) * (l.v - (-l.u)),
            b == (l.v + l.u) * (l.v + (-l.u)),
    ;
    assert(d2() as int == 2 * di);
    assert(c == -(2 * (di * (tt * tt)))) by (nonlinear_arith)
        requires
            c == tt * (((-l.t1) * l.t2) * (2 * di)),
            tt == l.t1 * l.t2,
    ;
    let cz = dd + c;
    let ct = dd - c;
    let cv = b + a;
    assert(s.u == 0) by (nonlinear_arith)
        requires
            s.u == (b - a) * ct,
            b - a == 0,
    ;
    lemma_residue_self(0);
    assert(cv == ct + (2 * k) * qi) by (nonlinear_arith)
        requires
            cv == 2 * (l.v * l.v - l.u * l.u),
            ct == (l.z * l.z + l.z * l.z) + 2 * (di * (tt * tt)),
            l.v * l.v - l.u * l.u == l.z * l.z + di * (tt * tt) + k * qi,
    ;
    assert(s.v == s.z + (cz * (2 * k)) * qi) by (nonlinear_arith)
        requires
            s.v == cv * cz,
            s.z == cz * ct,
            cv == ct + (2 * k) * qi,
    ;
    lemma_residue_shift(r.v, s.v, s.z, cz * (2 * k));
}

/// Doubling agrees with adding a point to itself, where the point satisfies
/// the curve equation: the two results stand for the same affine point.
pub proof fn lemma_double_is_add(p: ExtendedCoords)
    requires
        p.in_field(),
        p.satisfies_curve(),
    ensures
        p.double().same_point(p.add(p)),
{
    let l = Lifted::of(p);
    let qi = q() as int;
    let di = d() as int;
    lemma_lift_self(p);
    lemma_lift_double(p, l);
    lemma_lift_to_niels(p, l);
    lemma_lift_add_niels(p, l, p.to_niels(), l.to_niels());
    let x = l.double();
    let y = l.add_niels(l.to_niels());
    let k = lemma_curve_gap(p);

    let tt = l.t1 * l.t2;
    let uu = l.u * l.u;
    let vv = l.v * l.v;
    let zz = l.z * l.z;
    let m = vv - uu;
    // the completed coordinates of the double
    let xu = (l.u + l.v) * (l.u + l.v) - (vv + uu);
    let xv = vv + uu;
    let xt = (zz + zz) - m;
    // the completed coordinates of the sum
    let a = (l.v - l.u) * (l.v - l.u);
    let b = (l.v + l.u) * (l.v + l.u);
    let c = tt * (tt * (d2() as int));
    let yu = b - a;
    let yv = b + a;
    let yz = (zz + zz) + c;
    let yt = (zz + zz) - c;
    assert(d2() as int == 2 * di);
    assert(c == 2 * (di * (tt * tt))) by (nonlinear_arith)
        requires
            c == tt * (tt * (2 * di)),
    ;
    assert(yu == 2 * xu && yv == 2 * xv) by (nonlinear_arith)
        requires
            xu == (l.u + l.v) * (l.u + l.v) - (l.v * l.v + l.u * l.u),
            xv == l.v * l.v + l.u * l.u,
            yu == (l.v + l.u) * (l.v + l.u) - (l.v - l.u) * (l.v - l.u),
            yv == (l.v + l.u) * (l.v + l.u) + (l.v - l.u) * (l.v - l.u),
    ;
    assert(yz == 2 * m - (2 * k) * qi && yt == 2 * xt + (2 * k) * qi) by (nonlinear_arith)
        requires
            yz == (zz + zz) + 2 * (di * (tt * tt)),
            yt == (zz + zz) - 2 * (di * (tt * tt)),
            xt == (zz + zz) - m,
            m == zz + di * (tt * tt) + k * qi,
    ;
    assert(x.u == xu * xt && x.v == xv * m && x.z == m * xt);
    assert(y.u == yu * yt && y.v == yv * yz && y.z == yz * yt);
    let e = (2 * k) * qi;
    let ku = lemma_cross_gap(xu, xt, m, yt, e);
    let kv = lemma_cross_gap_v(xv, xt, m, yz, e);
    assert(x.u * y.z == y.u * x.z + (ku * (2 * k)) * qi) by (nonlinear_arith)
        requires
            x.u * y.z == y.u * x.z + ku * e,
            e == (2 * k) * qi,
    ;
    assert(x.v * y.z == y.v * x.z + (kv * (2 * k)) * qi) by (nonlinear_arith)
        requires
            x.v * y.z == y.v * x.z + kv * e,
            e == (2 * k) * qi,
    ;
    lemma_same_point_shifted(p.double(), x, p.add(p), y, ku * (2 * k), kv * (2 * k));
}

/// With `yz = 2m - e`, the cross products of the `U` coordinates of the
/// double and the sum differ by a multiple of `e`.
proof fn lemma_cross_gap(xu: int, xt: int, m: int, yt: int, e: int) -> (k: int)
    ensures
        (xu * xt) * ((2 * m - e) * yt) == ((2 * xu) * yt) * (m * xt) + k * e,
{
    let p = xu * xt;
    let a = p * yt;
    // the left side is (2m - e).a = 2(m.a) - e.a
    lemma_swap(p, 2 * m - e, yt);
    lemma_split(2 * m, e, a);
    lemma_double_out(m, a);
    // the right side is 2(m.a)
    lemma_double_out(xu, yt);
    lemma_double_out(xu * yt, m * xt);
    lemma_four(xu, yt, m, xt);
    lemma_negate(a, e);
    -a
}

/// With `yt = 2xt + e`, the cross products of the `V` coordinates of the
/// double and the sum differ by a multiple of `e`.
proof fn lemma_cross_gap_v(xv: int, xt: int, m: int, yz: int, e: int) -> (k: int)
    ensures
        (xv * m) * (yz * (2 * xt + e)) == ((2 * xv) * yz) * (m * xt) + k * e,
{
    let p = xv * m;
    let a = p * yz;
    // the left side is a.(2xt + e) = 2(a.xt) + a.e
    vstd::arithmetic::mul::lemma_mul_is_associative(p, yz, 2 * xt + e);
    vstd::arithmetic::mul::lemma_mul_is_distributive_add(a, 2 * xt, e);
    lemma_swap(a, 2, xt);
    // the right side is 2(a.xt)
    lemma_double_out(xv, yz);
    lemma_double_out(xv * yz, m * xt);
    lemma_four_v(xv, yz, m, xt);
    a
}

/// `a.(b.c) = b.(a.c)`.
proof fn lemma_swap(a: int, b: int, c: int)
    by (nonlinear_arith)
    ensures
        a * (b * c) == b * (a * c),
{
}

/// `(x - y).a = x.a - y.a`.
proof fn lemma_split(x: int, y: int, a: int)
    by (nonlinear_arith)
    ensures
        (x - y) * a == x * a - y * a,
{
}

/// `(2x).y = 2(x.y)`.
proof fn lemma_double_out(x: int, y: int)
    by (nonlinear_arith)
    ensures
        (2 * x) * y == 2 * (x * y),
{
}

/// `(-a).e = -(e.a)`.
proof fn lemma_negate(a: int, e: int)
    by (nonlinear_arith)
    ensures
        (-a) * e == -(e * a),
{
}

/// `(a.b).(c.d) = c.((a.d).b)`.
proof fn lemma_four(a: int, b: int, c: int, d: int)
    by (nonlinear_arith)
    ensures
        (a * b) * (c * d) == c * ((a * d) * b),
{
}

/// `(a.b).(c.d) = ((a.c).b).d`.
proof fn lemma_four_v(a: int, b: int, c: int, d: int)
    by (nonlinear_arith)
    ensures
        (a * b) * (c * d) == ((a * c) * b) * d,
{
}

/// Two points whose lifts agree by cross multiplication up to multiples of
/// `q` stand for the same affine point.
pub proof fn lemma_same_point_shifted(
    a: ExtendedCoords,
    la: Lifted,
    b: ExtendedCoords,
    lb: Lifted,
    ku: int,
    kv: int,
)
    requires
        la.lifts(a),
        lb.lifts(b),
        la.u * lb.z == lb.u * la.z + ku * (q() as int),
        la.v * lb.z == lb.v * la.z + kv * (q() as int),
    ensures
        a.same_point(b),
{
    lemma_residue_mul(a.u, la.u, b.z, lb.z);
    lemma_residue_mul(b.u, lb.u, a.z, la.z);
    lemma_residue_mul(a.v, la.v, b.z, lb.z);
    lemma_residue_mul(b.v, lb.v, a.z, la.z);
    lemma_residue_shift(fq_mul(a.u, b.z), la.u * lb.z, lb.u * la.z, ku);
    lemma_residue_shift(fq_mul(a.v, b.z), la.v * lb.z, lb.v * la.z, kv);
}

/// Subtracting a point is adding its negative: the two results have the
/// same coordinates.
pub proof fn lemma_sub_is_add_neg(p: ExtendedCoords, r: ExtendedCoords)
    requires
        p.in_field(),
        r.in_field(),
    ensures
        p.sub(r) == p.add(r.neg()),
{
    let l = Lifted::of(r);
    lemma_lift_self(r);
    crate::fq::lemma_ops_in_field();
    let nu = crate::fq::fq_neg(r.u);
    let nt = crate::fq::fq_neg(r.t1);
    lemma_residue_neg(r.u, l.u);
    lemma_residue_neg(r.t1, l.t1);
    // V - (-U) = V + U and V + (-U) = V - U
    lemma_residue_sub(r.v, l.v, nu, -l.u);
    lemma_residue_add(r.v, l.v, r.u, l.u);
    lemma_residue_add(r.v, l.v, nu, -l.u);
    lemma_residue_sub(r.v, l.v, r.u, l.u);
    assert(fq_sub(r.v, nu) == fq_add(r.v, r.u));
    assert(fq_add(r.v, nu) == fq_sub(r.v, r.u));
    // ((-T1).T2).2d = -((T1.T2).2d)
    let t2d = fq_mul(fq_mul(r.t1, r.t2), d2());
    let nt2d = fq_mul(fq_mul(nt, r.t2), d2());
    lemma_residue_self(d2());
    lemma_residue_mul(r.t1, l.t1, r.t2, l.t2);
    lemma_residue_mul(fq_mul(r.t1, r.t2), l.t1 * l.t2, d2(), d2() as int);
    lemma_residue_mul(nt, -l.t1, r.t2, l.t2);
    lemma_residue_mul(fq_mul(nt, r.t2), (-l.t1) * l.t2, d2(), d2() as int);
    lemma_residue_neg(t2d, (l.t1 * l.t2) * (d2() as int));
    assert(((-l.t1) * l.t2) * (d2() as int) == -((l.t1 * l.t2) * (d2() as int)))
        by (nonlinear_arith);
    assert(nt2d == crate::fq::fq_neg(t2d));
    // C' = T.(-t2d) = -(T.t2d) = -C
    let tt = fq_mul(p.t1, p.t2);
    let c = fq_mul(tt, t2d);
    let nc = fq_mul(tt, nt2d);
    let ti = tt as int;
    let ci = t2d as int;
    lemma_residue_self(tt);
    lemma_residue_self(t2d);
    lemma_residue_neg(t2d, ci);
    lemma_residue_mul(tt, ti, t2d, ci);
    lemma_residue_mul(tt, ti, nt2d, -ci);
    lemma_residue_neg(c, ti * ci);
    assert(ti * (-ci) == -(ti * ci)) by (nonlinear_arith);
    assert(nc == crate::fq::fq_neg(c));
    // D + C' = D - C and D - C' = D + C
    let zz = fq_mul(p.z, r.z);
    let dd = fq_add(zz, zz);
    let di = dd as int;
    let cc = c as int;
    lemma_residue_self(dd);
    lemma_residue_self(c);
    lemma_residue_neg(c, cc);
    lemma_residue_add(dd, di, nc, -cc);
    lemma_residue_sub(dd, di, c, cc);
    lemma_residue_sub(dd, di, nc, -cc);
    lemma_residue_add(dd, di, c, cc);
    assert(fq_add(dd, nc) == fq_sub(dd, c));
    assert(fq_sub(dd, nc) == fq_add(dd, c));
}

/// Adding a cached affine point is adding the extended point `(u, v, 1, u,
/// v)`: the two results have the same coordinates.  So is subtracting.
pub proof fn lemma_affine_niels_is_extended(p: ExtendedCoords, a: AffineCoords)
    requires
        p.in_field(),
        a.in_field(),
    ensures
        p.add_affine_niels(a.to_niels()) == p.add(a.to_extended()),
        p.sub_affine_niels(a.to_niels()) == p.sub(a.to_extended()),
{
    crate::algebra::lemma_mul_one(p.z);
}

/// `(2cu . 2cz) . z = u . (2cz . 2cz)`.
proof fn lemma_scaled_cross(c: int, u: int, z: int)
    by (nonlinear_arith)
    ensures
        ((2 * (c * u)) * (2 * (c * z))) * z == u * ((2 * (c * z)) * (2 * (c * z))),
{
}

} // verus!
