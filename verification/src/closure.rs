//! The curve is closed under the point operations: what they make of points
//! that satisfy the curve equation satisfies it too.  The equation is taken
//! without division, as `satisfies_curve` states it.

use crate::algebra::{
    congruent, lemma_congruent_add, lemma_congruent_mul, lemma_congruent_sub,
    lemma_residue_add, lemma_residue_congruent, lemma_residue_mul, lemma_residue_neg,
    lemma_residue_self, lemma_residue_sub,
};
use crate::curve::{d, ExtendedCoords};
use crate::fq::{fq_mul, q};
use crate::laws::{lemma_lift_double, lemma_lift_self, Lifted};
use vstd::prelude::*;

verus! {

/// The curve equation over the integers, up to congruence:
/// `V^2 - U^2 = Z^2 + d.(T1.T2)^2`.
pub open spec fn lifted_on_curve(l: Lifted) -> bool {
    congruent(
        l.v * l.v - l.u * l.u,
        l.z * l.z + (d() as int) * ((l.t1 * l.t2) * (l.t1 * l.t2)),
    )
}

/// `T1.T2.Z = U.V` over the integers, up to congruence.
pub open spec fn lifted_consistent(l: Lifted) -> bool {
    congruent((l.t1 * l.t2) * l.z, l.u * l.v)
}

/// A point satisfies the curve equation exactly when its lifts do.
pub proof fn lemma_curve_lifted(p: ExtendedCoords, l: Lifted)
    requires
        l.lifts(p),
    ensures
        p.satisfies_curve() == (lifted_on_curve(l) && lifted_consistent(l)),
{
    let di = d() as int;
    lemma_residue_self(d());
    let tt = fq_mul(p.t1, p.t2);
    lemma_residue_mul(p.v, l.v, p.v, l.v);
    lemma_residue_mul(p.u, l.u, p.u, l.u);
    lemma_residue_sub(fq_mul(p.v, p.v), l.v * l.v, fq_mul(p.u, p.u), l.u * l.u);
    lemma_residue_mul(p.z, l.z, p.z, l.z);
    lemma_residue_mul(p.t1, l.t1, p.t2, l.t2);
    lemma_residue_mul(tt, l.t1 * l.t2, tt, l.t1 * l.t2);
    lemma_residue_mul(d(), di, fq_mul(tt, tt), (l.t1 * l.t2) * (l.t1 * l.t2));
    lemma_residue_add(
        fq_mul(p.z, p.z),
        l.z * l.z,
        fq_mul(d(), fq_mul(tt, tt)),
        di * ((l.t1 * l.t2) * (l.t1 * l.t2)),
    );
    lemma_residue_mul(tt, l.t1 * l.t2, p.z, l.z);
    lemma_residue_mul(p.u, l.u, p.v, l.v);
}

/// The lifts of a point with `T1.T2.Z = U.V` have it up to congruence.
proof fn lemma_lifted_consistent(p: ExtendedCoords, l: Lifted)
    requires
        l.lifts(p),
        p.consistent(),
    ensures
        lifted_consistent(l),
{
    lemma_residue_mul(p.t1, l.t1, p.t2, l.t2);
    lemma_residue_mul(fq_mul(p.t1, p.t2), l.t1 * l.t2, p.z, l.z);
    lemma_residue_mul(p.u, l.u, p.v, l.v);
}

/// An integer congruent to a multiple of an integer congruent to zero is
/// congruent to zero; so `a` and `b` are congruent where `a = b + c.k` and
/// `k` is.
proof fn lemma_congruent_offset(a: int, b: int, c: int, k: int)
    requires
        a == b + c * k,
        congruent(k, 0),
    ensures
        congruent(a, b),
{
    lemma_congruent_mul(c, c, k, 0);
    assert(c * 0 == 0);
    lemma_congruent_add(b, b, c * k, 0);
}

/// `(a.b)^2 = a^2.b^2`.
proof fn lemma_square_of_product(a: int, b: int)
    by (nonlinear_arith)
    ensures
        (a * b) * (a * b) == (a * a) * (b * b),
{
}

/// `(u + v)^2 - (v^2 + u^2) = 2uv`, and `(v^2 + u^2)^2 = (v^2 - u^2)^2 +
/// (2uv)^2`.
proof fn lemma_double_completed(u: int, v: int)
    ensures
        (u + v) * (u + v) - (v * v + u * u) == 2 * (u * v),
        (v * v + u * u) * (v * v + u * u) == (v * v - u * u) * (v * v - u * u) + (2 * (u * v)) * (2
            * (u * v)),
{
    assert((u + v) * (u + v) - (v * v + u * u) == 2 * (u * v)) by (nonlinear_arith);
    let a = u * u;
    let b = v * v;
    lemma_square_of_product(u, v);
    assert((b + a) * (b + a) == (b - a) * (b - a) + 4 * (a * b)) by (nonlinear_arith);
    assert((2 * (u * v)) * (2 * (u * v)) == 4 * ((u * v) * (u * v))) by (nonlinear_arith);
    assert((u * u) * (v * v) == a * b);
}

/// With `A = B + C`: `A.B - C.D = B.D + d.(C.A) + A.(B - D - d.C)`.
proof fn lemma_double_factor(a: int, b: int, c: int, dd: int, e: int)
    by (nonlinear_arith)
    requires
        a == b + c,
    ensures
        a * b - c * dd == b * dd + e * (c * a) + a * (b - dd - e * c),
{
}

/// `m^2 - (2z - m)^2 - d.(2w)^2 = 4.(z.m - z^2 - d.w^2)`, for `z` in place
/// of `Z^2`.
proof fn lemma_double_kernel(m: int, z: int, w: int, e: int)
    by (nonlinear_arith)
    ensures
        m * m - ((z + z) - m) * ((z + z) - m) - e * ((2 * w) * (2 * w)) == 4 * (z * m - z * z - e
            * (w * w)),
{
}

/// `Z^2.(Z^2 + d.T^2) - Z^2.Z^2 - d.(T.Z)^2 = 0`.
proof fn lemma_double_vanishes(z: int, t: int, e: int)
    ensures
        (z * z) * (z * z + e * (t * t)) - (z * z) * (z * z) - e * ((t * z) * (t * z)) == 0,
{
    let a = z * z;
    let b = t * t;
    lemma_square_of_product(t, z);
    assert(a * (a + e * b) - a * a - e * (b * a) == 0) by (nonlinear_arith);
}

/// The two sides of the curve equation for the double differ by
/// `cv^2.(m^2 - ct^2 - d.cu^2)`, where `cv^2 = m^2 + cu^2`.
proof fn lemma_double_sides(cu: int, cv: int, m: int, ct: int, e: int)
    requires
        cv * cv == m * m + cu * cu,
    ensures
        (cv * m) * (cv * m) - (cu * ct) * (cu * ct) == (m * ct) * (m * ct) + e * ((cu * cv) * (cu
            * cv)) + (cv * cv) * (m * m - ct * ct - e * (cu * cu)),
{
    lemma_square_of_product(cv, m);
    lemma_square_of_product(cu, ct);
    lemma_square_of_product(m, ct);
    lemma_square_of_product(cu, cv);
    lemma_double_factor(cv * cv, m * m, cu * cu, ct * ct, e);
}

/// `m^2 - ct^2 - d.cu^2` is congruent to zero where `m` is congruent to
/// `Z^2 + d.T^2` and `w` to `T.Z`, for `cu = 2w` and `ct = 2.Z^2 - m`.
proof fn lemma_double_kernel_vanishes(m: int, w: int, z: int, t: int, e: int)
    requires
        congruent(m, z * z + e * (t * t)),
        congruent(w, t * z),
    ensures
        congruent(
            m * m - ((z * z + z * z) - m) * ((z * z + z * z) - m) - e * ((2 * w) * (2 * w)),
            0,
        ),
{
    let zz = z * z;
    let n = zz + e * (t * t);
    let s = t * z;
    lemma_double_kernel(m, zz, w, e);
    lemma_congruent_mul(zz, zz, m, n);
    lemma_congruent_sub(zz * m, zz * n, zz * zz, zz * zz);
    lemma_congruent_mul(w, s, w, s);
    lemma_congruent_mul(e, e, w * w, s * s);
    lemma_congruent_sub(zz * m - zz * zz, zz * n - zz * zz, e * (w * w), e * (s * s));
    lemma_double_vanishes(z, t, e);
    lemma_congruent_mul(4, 4, zz * m - zz * zz - e * (w * w), 0);
}

/// Doubling keeps the curve equation, over the integers.
proof fn lemma_double_closed_lifted(l: Lifted)
    requires
        lifted_on_curve(l),
        lifted_consistent(l),
    ensures
        lifted_on_curve(l.double()),
{
    let e = d() as int;
    let x = l.double();
    let (u, v, z) = (l.u, l.v, l.z);
    let t = l.t1 * l.t2;
    let m = v * v - u * u;
    let w = u * v;
    let cu = (u + v) * (u + v) - (v * v + u * u);
    let cv = v * v + u * u;
    let ct = (z * z + z * z) - m;
    lemma_double_completed(u, v);
    assert(x.u == cu * ct && x.v == cv * m && x.z == m * ct && x.t1 == cu && x.t2 == cv);
    lemma_double_sides(cu, cv, m, ct, e);
    // T.Z is congruent to U.V, and so U.V to T.Z
    assert(congruent(w, t * z));
    lemma_double_kernel_vanishes(m, w, z, t, e);
    let k = m * m - ct * ct - e * (cu * cu);
    lemma_congruent_offset(
        x.v * x.v - x.u * x.u,
        x.z * x.z + e * ((x.t1 * x.t2) * (x.t1 * x.t2)),
        cv * cv,
        k,
    );
}

/// The double of a point that satisfies the curve equation satisfies it.
pub proof fn lemma_double_closed(p: ExtendedCoords)
    requires
        p.in_field(),
        p.satisfies_curve(),
    ensures
        p.double().satisfies_curve(),
        p.double().in_field(),
{
    let l = Lifted::of(p);
    lemma_lift_self(p);
    lemma_lift_double(p, l);
    lemma_curve_lifted(p, l);
    lemma_double_closed_lifted(l);
    let r = p.double();
    let x = l.double();
    assert(r.consistent() && r.in_field()) by {
        crate::fq::lemma_ops_in_field();
        crate::laws::lemma_into_extended_consistent(p.double_completed());
    }
    assert(lifted_consistent(x)) by {
        lemma_lifted_consistent(r, x);
    }
    lemma_curve_lifted(r, x);
}

/// The negative of a point that satisfies the curve equation satisfies it.
pub proof fn lemma_neg_closed(p: ExtendedCoords)
    requires
        p.in_field(),
        p.satisfies_curve(),
    ensures
        p.neg().satisfies_curve(),
        p.neg().in_field(),
{
    let l = Lifted::of(p);
    lemma_lift_self(p);
    lemma_curve_lifted(p, l);
    let n = Lifted { u: -l.u, v: l.v, z: l.z, t1: -l.t1, t2: l.t2 };
    lemma_residue_neg(p.u, l.u);
    lemma_residue_neg(p.t1, l.t1);
    crate::laws::lemma_lift_in_field(p.neg(), n);
    assert((-l.u) * (-l.u) == l.u * l.u) by (nonlinear_arith);
    assert(((-l.t1) * l.t2) * ((-l.t1) * l.t2) == (l.t1 * l.t2) * (l.t1 * l.t2))
        by (nonlinear_arith);
    assert(((-l.t1) * l.t2) * l.z == -((l.t1 * l.t2) * l.z)) by (nonlinear_arith);
    assert((-l.u) * l.v == -(l.u * l.v)) by (nonlinear_arith);
    lemma_congruent_sub(0, 0, (l.t1 * l.t2) * l.z, l.u * l.v);
    lemma_curve_lifted(p.neg(), n);
}

/// `(W + E)^2 = W^2 + 2WE + E^2`, `(W - E)^2 = W^2 - 2WE + E^2`, and the
/// product of the two is `(W^2 - E^2)^2`.
proof fn lemma_sum_and_difference(w: int, e: int)
    ensures
        (w + e) * (w + e) == w * w + 2 * (w * e) + e * e,
        (w - e) * (w - e) == w * w - 2 * (w * e) + e * e,
        ((w + e) * (w + e)) * ((w - e) * (w - e)) == (w * w - e * e) * (w * w - e * e),
{
    assert((w + e) * (w + e) == w * w + 2 * (w * e) + e * e) by (nonlinear_arith);
    assert((w - e) * (w - e) == w * w - 2 * (w * e) + e * e) by (nonlinear_arith);
    assert((w + e) * (w - e) == w * w - e * e) by (nonlinear_arith);
    lemma_square_of_product(w + e, w - e);
}

/// `A.(W2 + 2X + E2) - B.(W2 - 2X + E2) = (A - B).(W2 + E2) + 2X.(A + B)`.
proof fn lemma_regroup(a: int, b: int, w2: int, x: int, e2: int)
    by (nonlinear_arith)
    ensures
        a * (w2 + 2 * x + e2) - b * (w2 - 2 * x + e2) == (a - b) * (w2 + e2) + 2 * (x * (a + b)),
{
}

/// The four products of `u1, v1` with `u2, v2`: with `X = u1.v2 + v1.u2`
/// and `Y = v1.v2 + u1.u2`,
/// `Y^2 - X^2 = (v1^2 - u1^2).(v2^2 - u2^2)`,
/// `Y^2 + X^2 = (v1^2 + u1^2).(v2^2 + u2^2) + 4.(u1.v1).(u2.v2)` and
/// `X.Y = (u1.v1).(v2^2 + u2^2) + (u2.v2).(v1^2 + u1^2)`.
proof fn lemma_cross_products(u1: int, v1: int, u2: int, v2: int)
    ensures
        ({
            let x = u1 * v2 + v1 * u2;
            let y = v1 * v2 + u1 * u2;
            let m1 = v1 * v1 - u1 * u1;
            let m2 = v2 * v2 - u2 * u2;
            let p1 = v1 * v1 + u1 * u1;
            let p2 = v2 * v2 + u2 * u2;
            &&& y * y - x * x == m1 * m2
            &&& y * y + x * x == p1 * p2 + 4 * ((u1 * v1) * (u2 * v2))
            &&& x * y == (u1 * v1) * p2 + (u2 * v2) * p1
        }),
{
    let a = u1 * u2;
    let b = v1 * v2;
    let c = u1 * v2;
    let e = v1 * u2;
    let (f1, g1, f2, g2) = (u1 * u1, v1 * v1, u2 * u2, v2 * v2);
    // the squares of the four products
    lemma_square_of_product(u1, u2);
    lemma_square_of_product(v1, v2);
    lemma_square_of_product(u1, v2);
    lemma_square_of_product(v1, u2);
    assert(a * a == f1 * f2 && b * b == g1 * g2 && c * c == f1 * g2 && e * e == g1 * f2);
    // the mixed products
    assert(a * b == (u1 * v1) * (u2 * v2) && c * e == (u1 * v1) * (u2 * v2)) by (nonlinear_arith)
        requires
            a == u1 * u2,
            b == v1 * v2,
            c == u1 * v2,
            e == v1 * u2,
    ;
    let k = (u1 * v1) * (u2 * v2);
    assert((b + a) * (b + a) == b * b + a * a + 2 * k) by (nonlinear_arith)
        requires
            a * b == k,
    ;
    assert((c + e) * (c + e) == c * c + e * e + 2 * k) by (nonlinear_arith)
        requires
            c * e == k,
    ;
    assert((g1 - f1) * (g2 - f2) == g1 * g2 - g1 * f2 - f1 * g2 + f1 * f2) by (nonlinear_arith);
    assert((g1 + f1) * (g2 + f2) == g1 * g2 + g1 * f2 + f1 * g2 + f1 * f2) by (nonlinear_arith);
    // X.Y = c.b + c.a + e.b + e.a
    assert((c + e) * (b + a) == c * b + c * a + e * b + e * a) by (nonlinear_arith);
    assert(c * b == (u1 * v1) * g2 && c * a == (u2 * v2) * f1 && e * b == (u2 * v2) * g1 && e * a
        == (u1 * v1) * f2) by (nonlinear_arith)
        requires
            a == u1 * u2,
            b == v1 * v2,
            c == u1 * v2,
            e == v1 * u2,
            f1 == u1 * u1,
            g1 == v1 * v1,
            f2 == u2 * u2,
            g2 == v2 * v2,
    ;
    assert((u1 * v1) * (g2 + f2) == (u1 * v1) * g2 + (u1 * v1) * f2) by (nonlinear_arith);
    assert((u2 * v2) * (g1 + f1) == (u2 * v2) * g1 + (u2 * v2) * f1) by (nonlinear_arith);
}

/// What decides whether a sum is on the curve, in the quantities that the
/// curve equation speaks of: `m` for `V^2 - U^2` and `w` for `U.V` of each
/// point, `ww` for `Z.Z'`, `ee` for `d.T.T'`, and `pp` for the product of
/// the two `V^2 + U^2`.
pub open spec fn add_form(
    m1: int,
    m2: int,
    w1: int,
    w2: int,
    ww: int,
    ee: int,
    e: int,
    pp: int,
) -> int {
    (m1 * m2) * (ww * ww + ee * ee) + 8 * ((ww * ee) * (w1 * w2)) + 2 * ((ww * ee - e * (w1
        * w2)) * pp) - (ww * ww - ee * ee) * (ww * ww - ee * ee) - e * ((w1 * w1) * (m2 * m2 + 4
        * (w2 * w2))) - e * ((w2 * w2) * (m1 * m1 + 4 * (w1 * w1)))
}

/// The difference of the two sides of the curve equation for a sum, with
/// the factor sixteen taken out.
pub open spec fn add_gap(x: int, y: int, ww: int, ee: int, e: int) -> int {
    (y * y) * ((ww + ee) * (ww + ee)) - (x * x) * ((ww - ee) * (ww - ee)) - ((ww + ee) * (ww
        + ee)) * ((ww - ee) * (ww - ee)) - e * ((x * x) * (y * y))
}

/// `(a.b + c.f)^2 = a^2.b^2 + 2.(a.c).(f.b) + c^2.f^2`.
proof fn lemma_square_of_sum(a: int, b: int, c: int, f: int)
    ensures
        (a * b + c * f) * (a * b + c * f) == (a * a) * (b * b) + 2 * ((a * c) * (f * b)) + (c * c)
            * (f * f),
{
    let x = a * b;
    let y = c * f;
    assert((x + y) * (x + y) == x * x + 2 * (x * y) + y * y) by (nonlinear_arith);
    lemma_square_of_product(a, b);
    lemma_square_of_product(c, f);
    assert(x * y == (a * c) * (f * b)) by (nonlinear_arith)
        requires
            x == a * b,
            y == c * f,
    ;
}

/// `2a.(pp + 4b) - e.(x1 + 2.b.pp + x2) = 8.a.b + 2.(a - e.b).pp - e.x1 -
/// e.x2`.
proof fn lemma_regroup_cross(a: int, b: int, pp: int, e: int, x1: int, x2: int)
    by (nonlinear_arith)
    ensures
        2 * (a * (pp + 4 * b)) - e * (x1 + 2 * (b * pp) + x2) == 8 * (a * b) + 2 * ((a - e * b)
            * pp) - e * x1 - e * x2,
{
}

/// The gap of a sum in the quantities of the curve equation.
proof fn lemma_gap_is_form(
    x: int,
    y: int,
    ww: int,
    ee: int,
    e: int,
    m1: int,
    m2: int,
    p1: int,
    p2: int,
    w1: int,
    w2: int,
)
    requires
        y * y - x * x == m1 * m2,
        y * y + x * x == p1 * p2 + 4 * (w1 * w2),
        x * y == w1 * p2 + w2 * p1,
        p1 * p1 == m1 * m1 + 4 * (w1 * w1),
        p2 * p2 == m2 * m2 + 4 * (w2 * w2),
    ensures
        add_gap(x, y, ww, ee, e) == add_form(m1, m2, w1, w2, ww, ee, e, p1 * p2),
{
    let a = y * y;
    let b = x * x;
    let alpha = ww * ee;
    let beta = w1 * w2;
    let pp = p1 * p2;
    lemma_sum_and_difference(ww, ee);
    lemma_regroup(a, b, ww * ww, alpha, ee * ee);
    let first = (m1 * m2) * (ww * ww + ee * ee) + 2 * (alpha * (pp + 4 * beta));
    assert(a * ((ww + ee) * (ww + ee)) - b * ((ww - ee) * (ww - ee)) == first);
    lemma_square_of_product(x, y);
    lemma_square_of_sum(w1, p2, w2, p1);
    let x1 = (w1 * w1) * (m2 * m2 + 4 * (w2 * w2));
    let x2 = (w2 * w2) * (m1 * m1 + 4 * (w1 * w1));
    assert(b * a == x1 + 2 * (beta * pp) + x2);
    lemma_regroup_cross(alpha, beta, pp, e, x1, x2);
}

/// The form keeps its residue when the quantities of the curve equation are
/// replaced by congruent ones.
proof fn lemma_form_congruent(
    m1: int,
    m2: int,
    w1: int,
    w2: int,
    n1: int,
    n2: int,
    s1: int,
    s2: int,
    ww: int,
    ee: int,
    e: int,
    pp: int,
)
    requires
        congruent(m1, n1),
        congruent(m2, n2),
        congruent(w1, s1),
        congruent(w2, s2),
    ensures
        congruent(
            add_form(m1, m2, w1, w2, ww, ee, e, pp),
            add_form(n1, n2, s1, s2, ww, ee, e, pp),
        ),
{
    let h = ww * ww + ee * ee;
    let alpha = ww * ee;
    let k = (ww * ww - ee * ee) * (ww * ww - ee * ee);
    // the first term
    lemma_congruent_mul(m1, n1, m2, n2);
    lemma_congruent_mul(m1 * m2, n1 * n2, h, h);
    // the second
    lemma_congruent_mul(w1, s1, w2, s2);
    lemma_congruent_mul(alpha, alpha, w1 * w2, s1 * s2);
    lemma_congruent_mul(8, 8, alpha * (w1 * w2), alpha * (s1 * s2));
    // the third
    lemma_congruent_mul(e, e, w1 * w2, s1 * s2);
    lemma_congruent_sub(alpha, alpha, e * (w1 * w2), e * (s1 * s2));
    lemma_congruent_mul(alpha - e * (w1 * w2), alpha - e * (s1 * s2), pp, pp);
    lemma_congruent_mul(2, 2, (alpha - e * (w1 * w2)) * pp, (alpha - e * (s1 * s2)) * pp);
    // the fifth
    lemma_congruent_mul(w1, s1, w1, s1);
    lemma_congruent_mul(w2, s2, w2, s2);
    lemma_congruent_mul(m1, n1, m1, n1);
    lemma_congruent_mul(m2, n2, m2, n2);
    lemma_congruent_mul(4, 4, w2 * w2, s2 * s2);
    lemma_congruent_add(m2 * m2, n2 * n2, 4 * (w2 * w2), 4 * (s2 * s2));
    lemma_congruent_mul(w1 * w1, s1 * s1, m2 * m2 + 4 * (w2 * w2), n2 * n2 + 4 * (s2 * s2));
    lemma_congruent_mul(
        e,
        e,
        (w1 * w1) * (m2 * m2 + 4 * (w2 * w2)),
        (s1 * s1) * (n2 * n2 + 4 * (s2 * s2)),
    );
    // the sixth
    lemma_congruent_mul(4, 4, w1 * w1, s1 * s1);
    lemma_congruent_add(m1 * m1, n1 * n1, 4 * (w1 * w1), 4 * (s1 * s1));
    lemma_congruent_mul(w2 * w2, s2 * s2, m1 * m1 + 4 * (w1 * w1), n1 * n1 + 4 * (s1 * s1));
    lemma_congruent_mul(
        e,
        e,
        (w2 * w2) * (m1 * m1 + 4 * (w1 * w1)),
        (s2 * s2) * (n1 * n1 + 4 * (s1 * s1)),
    );
    // the sum of them
    let a1 = (m1 * m2) * h;
    let b1 = (n1 * n2) * h;
    let a2 = 8 * (alpha * (w1 * w2));
    let b2 = 8 * (alpha * (s1 * s2));
    let a3 = 2 * ((alpha - e * (w1 * w2)) * pp);
    let b3 = 2 * ((alpha - e * (s1 * s2)) * pp);
    let a5 = e * ((w1 * w1) * (m2 * m2 + 4 * (w2 * w2)));
    let b5 = e * ((s1 * s1) * (n2 * n2 + 4 * (s2 * s2)));
    let a6 = e * ((w2 * w2) * (m1 * m1 + 4 * (w1 * w1)));
    let b6 = e * ((s2 * s2) * (n1 * n1 + 4 * (s1 * s1)));
    lemma_congruent_add(a1, b1, a2, b2);
    lemma_congruent_add(a1 + a2, b1 + b2, a3, b3);
    lemma_congruent_sub(a1 + a2 + a3, b1 + b2 + b3, k, k);
    lemma_congruent_sub(a1 + a2 + a3 - k, b1 + b2 + b3 - k, a5, b5);
    lemma_congruent_sub(a1 + a2 + a3 - k - a5, b1 + b2 + b3 - k - b5, a6, b6);
}

/// `(a1 + b1).(a2 + b2).(a1.a2 + b1.b2) = (a1.a2 - b1.b2)^2 + a1.b1.(a2 +
/// b2)^2 + a2.b2.(a1 + b1)^2`.
proof fn lemma_form_core(a1: int, b1: int, a2: int, b2: int)
    ensures
        ((a1 + b1) * (a2 + b2)) * (a1 * a2 + b1 * b2) == (a1 * a2 - b1 * b2) * (a1 * a2 - b1 * b2)
            + (a1 * b1) * ((a2 + b2) * (a2 + b2)) + (a2 * b2) * ((a1 + b1) * (a1 + b1)),
{
    let x = a1 * a2;
    let y = b1 * b2;
    let s = a1 * b2;
    let t = b1 * a2;
    assert((a1 + b1) * (a2 + b2) == x + s + t + y) by (nonlinear_arith)
        requires
            x == a1 * a2,
            y == b1 * b2,
            s == a1 * b2,
            t == b1 * a2,
    ;
    assert((x + s + t + y) * (x + y) == (x - y) * (x - y) + 4 * (x * y) + (s + t) * (x + y))
        by (nonlinear_arith);
    assert(s * t == x * y) by (nonlinear_arith)
        requires
            x == a1 * a2,
            y == b1 * b2,
            s == a1 * b2,
            t == b1 * a2,
    ;
    // the two last terms, in the products x, y, s and t
    let p = a1 * b1;
    let r = a2 * b2;
    assert((a2 + b2) * (a2 + b2) == a2 * a2 + 2 * r + b2 * b2) by (nonlinear_arith)
        requires
            r == a2 * b2,
    ;
    assert((a1 + b1) * (a1 + b1) == a1 * a1 + 2 * p + b1 * b1) by (nonlinear_arith)
        requires
            p == a1 * b1,
    ;
    assert(p * (a2 * a2) == x * t && p * (b2 * b2) == s * y && p * r == x * y) by (nonlinear_arith)
        requires
            x == a1 * a2,
            y == b1 * b2,
            s == a1 * b2,
            t == b1 * a2,
            p == a1 * b1,
            r == a2 * b2,
    ;
    assert(r * (a1 * a1) == x * s && r * (b1 * b1) == t * y) by (nonlinear_arith)
        requires
            x == a1 * a2,
            y == b1 * b2,
            s == a1 * b2,
            t == b1 * a2,
            r == a2 * b2,
    ;
    assert(p * (a2 * a2 + 2 * r + b2 * b2) == x * t + 2 * (x * y) + s * y) by (nonlinear_arith)
        requires
            p * (a2 * a2) == x * t,
            p * (b2 * b2) == s * y,
            p * r == x * y,
    ;
    assert(r * (a1 * a1 + 2 * p + b1 * b1) == x * s + 2 * (x * y) + t * y) by (nonlinear_arith)
        requires
            r * (a1 * a1) == x * s,
            r * (b1 * b1) == t * y,
            p * r == x * y,
    ;
    assert((s + t) * (x + y) == x * s + s * y + x * t + t * y) by (nonlinear_arith);
}

/// `e.(a.b) = (e.a).b`, `a.(e.b) = e.(a.b)` and `e.(f + g) = e.f + e.g`.
proof fn lemma_scale(e: int, a: int, b: int)
    by (nonlinear_arith)
    ensures
        e * (a * b) == (e * a) * b,
        a * (e * b) == e * (a * b),
        e * (a + b) == e * a + e * b,
{
}

/// The form vanishes on the right-hand sides of the curve equations:
/// for `n = Z^2 + d.T^2` and `s = T.Z` of each point.
proof fn lemma_form_vanishes(z1: int, t1: int, z2: int, t2: int, e: int, pp: int)
    ensures
        add_form(
            z1 * z1 + e * (t1 * t1),
            z2 * z2 + e * (t2 * t2),
            t1 * z1,
            t2 * z2,
            z1 * z2,
            e * (t1 * t2),
            e,
            pp,
        ) == 0,
{
    let (a1, a2) = (z1 * z1, z2 * z2);
    let (f1, f2) = (t1 * t1, t2 * t2);
    let (b1, b2) = (e * f1, e * f2);
    let (n1, n2) = (a1 + b1, a2 + b2);
    let (s1, s2) = (t1 * z1, t2 * z2);
    let ww = z1 * z2;
    let tt = t1 * t2;
    let ee = e * tt;
    let beta = s1 * s2;
    // W^2 = a1.a2 and E^2 = b1.b2
    lemma_square_of_product(z1, z2);
    lemma_square_of_product(e, tt);
    lemma_square_of_product(t1, t2);
    assert((e * e) * (f1 * f2) == (e * f1) * (e * f2)) by (nonlinear_arith);
    assert(ww * ww == a1 * a2 && ee * ee == b1 * b2);
    // W.E = e.(s1.s2)
    assert(s1 * s2 == ww * tt) by (nonlinear_arith)
        requires
            s1 == t1 * z1,
            s2 == t2 * z2,
            ww == z1 * z2,
            tt == t1 * t2,
    ;
    lemma_scale(e, ww, tt);
    assert(ww * ee == e * beta);
    assert((ww * ee - e * beta) * pp == 0) by (nonlinear_arith)
        requires
            ww * ee == e * beta,
    ;
    // e.s^2 = a.b, and s1^2.s2^2 = beta^2
    lemma_square_of_product(t1, z1);
    lemma_square_of_product(t2, z2);
    lemma_square_of_product(s1, s2);
    lemma_scale(e, f1, a1);
    lemma_scale(e, f2, a2);
    assert(e * (s1 * s1) == a1 * b1 && e * (s2 * s2) == a2 * b2) by (nonlinear_arith)
        requires
            s1 * s1 == f1 * a1,
            s2 * s2 == f2 * a2,
            b1 == e * f1,
            b2 == e * f2,
    ;
    let g = e * (beta * beta);
    assert((ww * ee) * beta == g) by (nonlinear_arith)
        requires
            ww * ee == e * beta,
            g == e * (beta * beta),
    ;
    lemma_fifth(e, s1 * s1, n2 * n2, s2 * s2);
    lemma_fifth(e, s2 * s2, n1 * n1, s1 * s1);
    assert(e * ((s1 * s1) * (n2 * n2 + 4 * (s2 * s2))) == (a1 * b1) * (n2 * n2) + 4 * g);
    assert(e * ((s2 * s2) * (n1 * n1 + 4 * (s1 * s1))) == (a2 * b2) * (n1 * n1) + 4 * g);
    lemma_form_core(a1, b1, a2, b2);
}

/// `e.(s.(n + 4.r)) = (e.s).n + 4.(e.(s.r))`.
proof fn lemma_fifth(e: int, s: int, n: int, r: int)
    by (nonlinear_arith)
    ensures
        e * (s * (n + 4 * r)) == (e * s) * n + 4 * (e * (s * r)),
{
}

/// `((2a).(2b))^2 = 16.(a^2.b^2)`.
proof fn lemma_scaled_square(a: int, b: int)
    ensures
        ((2 * a) * (2 * b)) * ((2 * a) * (2 * b)) == 16 * ((a * a) * (b * b)),
{
    let x = a * b;
    assert((2 * a) * (2 * b) == 4 * x) by (nonlinear_arith)
        requires
            x == a * b,
    ;
    assert((4 * x) * (4 * x) == 16 * (x * x)) by (nonlinear_arith);
    lemma_square_of_product(a, b);
}

/// The completed coordinates of a sum: `B - A = 2.(u1.v2 + v1.u2)` and
/// `B + A = 2.(v1.v2 + u1.u2)`.
proof fn lemma_add_completed(u1: int, v1: int, u2: int, v2: int)
    by (nonlinear_arith)
    ensures
        (v1 + u1) * (v2 + u2) - (v1 - u1) * (v2 - u2) == 2 * (u1 * v2 + v1 * u2),
        (v1 + u1) * (v2 + u2) + (v1 - u1) * (v2 - u2) == 2 * (v1 * v2 + u1 * u2),
{
}

/// `(v^2 + u^2)^2 = (v^2 - u^2)^2 + 4.(u.v)^2`.
proof fn lemma_norm(u: int, v: int)
    ensures
        (v * v + u * u) * (v * v + u * u) == (v * v - u * u) * (v * v - u * u) + 4 * ((u * v) * (u
            * v)),
{
    lemma_double_completed(u, v);
    assert((2 * (u * v)) * (2 * (u * v)) == 4 * ((u * v) * (u * v))) by (nonlinear_arith);
}

/// Addition keeps the curve equation, over the integers.
proof fn lemma_add_closed_lifted(l1: Lifted, l2: Lifted)
    requires
        lifted_on_curve(l1),
        lifted_consistent(l1),
        lifted_on_curve(l2),
        lifted_consistent(l2),
    ensures
        lifted_on_curve(l1.add_niels(l2.to_niels())),
{
    let e = d() as int;
    let s = l1.add_niels(l2.to_niels());
    let (u1, v1, z1, t1) = (l1.u, l1.v, l1.z, l1.t1 * l1.t2);
    let (u2, v2, z2, t2) = (l2.u, l2.v, l2.z, l2.t1 * l2.t2);
    let x = u1 * v2 + v1 * u2;
    let y = v1 * v2 + u1 * u2;
    let ww = z1 * z2;
    let ee = e * (t1 * t2);
    // the completed coordinates
    lemma_add_completed(u1, v1, u2, v2);
    assert(crate::curve::d2() as int == 2 * e);
    assert(t1 * (t2 * (2 * e)) == 2 * ee) by (nonlinear_arith)
        requires
            ee == e * (t1 * t2),
    ;
    let (cu, cv, cz, ct) = (2 * x, 2 * y, 2 * (ww + ee), 2 * (ww - ee));
    assert(s.t1 == cu && s.t2 == cv && s.u == cu * ct && s.v == cv * cz && s.z == cz * ct);
    // the two sides differ by sixteen times the gap
    lemma_scaled_square(y, ww + ee);
    lemma_scaled_square(x, ww - ee);
    lemma_scaled_square(ww + ee, ww - ee);
    lemma_scaled_square(x, y);
    let gap = add_gap(x, y, ww, ee, e);
    lemma_scale(e, 16, (x * x) * (y * y));
    assert(s.v * s.v - s.u * s.u == s.z * s.z + e * ((s.t1 * s.t2) * (s.t1 * s.t2)) + 16 * gap);
    // the gap is congruent to zero
    let (m1, m2) = (v1 * v1 - u1 * u1, v2 * v2 - u2 * u2);
    let (p1, p2) = (v1 * v1 + u1 * u1, v2 * v2 + u2 * u2);
    let (w1, w2) = (u1 * v1, u2 * v2);
    lemma_cross_products(u1, v1, u2, v2);
    lemma_norm(u1, v1);
    lemma_norm(u2, v2);
    lemma_gap_is_form(x, y, ww, ee, e, m1, m2, p1, p2, w1, w2);
    let (n1, n2) = (z1 * z1 + e * (t1 * t1), z2 * z2 + e * (t2 * t2));
    lemma_form_congruent(m1, m2, w1, w2, n1, n2, t1 * z1, t2 * z2, ww, ee, e, p1 * p2);
    lemma_form_vanishes(z1, t1, z2, t2, e, p1 * p2);
    lemma_congruent_offset(
        s.v * s.v - s.u * s.u,
        s.z * s.z + e * ((s.t1 * s.t2) * (s.t1 * s.t2)),
        16,
        gap,
    );
}

/// The sum of two points that satisfy the curve equation satisfies it.
pub proof fn lemma_add_closed(p: ExtendedCoords, r: ExtendedCoords)
    requires
        p.in_field(),
        p.satisfies_curve(),
        r.in_field(),
        r.satisfies_curve(),
    ensures
        p.add(r).satisfies_curve(),
        p.add(r).in_field(),
{
    let l1 = Lifted::of(p);
    let l2 = Lifted::of(r);
    lemma_lift_self(p);
    lemma_lift_self(r);
    lemma_curve_lifted(p, l1);
    lemma_curve_lifted(r, l2);
    crate::laws::lemma_lift_to_niels(r, l2);
    crate::laws::lemma_lift_add_niels(p, l1, r.to_niels(), l2.to_niels());
    lemma_add_closed_lifted(l1, l2);
    let sum = p.add(r);
    let x = l1.add_niels(l2.to_niels());
    assert(sum.consistent() && sum.in_field()) by {
        crate::laws::lemma_results_consistent(
            p,
            r.to_niels(),
            crate::curve::AffineNielsCoords::identity(),
        );
    }
    assert(lifted_consistent(x)) by {
        lemma_lifted_consistent(sum, x);
    }
    lemma_curve_lifted(sum, x);
}

/// The neutral element satisfies the curve equation, and its cached form
/// is `(1, 1, 1, 0)`.
pub proof fn lemma_identity_on_curve()
    ensures
        ExtendedCoords::identity().satisfies_curve(),
        ExtendedCoords::identity().in_field(),
        ExtendedCoords::identity().to_niels() == crate::curve::ExtendedNielsCoords::identity(),
{
    let o = ExtendedCoords::identity();
    let l = Lifted::of(o);
    lemma_lift_self(o);
    let e = d() as int;
    assert(e * ((0int * 0int) * (0int * 0int)) == 0);
    lemma_curve_lifted(o, l);
    vstd::arithmetic::div_mod::lemma_small_mod(1, q());
    vstd::arithmetic::div_mod::lemma_small_mod(0, q());
    assert(0nat * crate::curve::d2() == 0);
}

/// The difference of two points that satisfy the curve equation satisfies
/// it.
pub proof fn lemma_sub_closed(p: ExtendedCoords, r: ExtendedCoords)
    requires
        p.in_field(),
        p.satisfies_curve(),
        r.in_field(),
        r.satisfies_curve(),
    ensures
        p.sub(r).satisfies_curve(),
        p.sub(r).in_field(),
{
    crate::laws::lemma_sub_is_add_neg(p, r);
    lemma_neg_closed(r);
    lemma_add_closed(p, r.neg());
}

/// The sum and the difference of a point that satisfies the curve equation
/// and an affine point on the curve satisfy it.
pub proof fn lemma_add_affine_closed(p: ExtendedCoords, a: crate::curve::AffineCoords)
    requires
        p.in_field(),
        p.satisfies_curve(),
        a.in_field(),
        a.on_curve(),
    ensures
        p.add_affine_niels(a.to_niels()).satisfies_curve(),
        p.sub_affine_niels(a.to_niels()).satisfies_curve(),
{
    crate::laws::lemma_affine_niels_is_extended(p, a);
    crate::laws::lemma_affine_satisfies_curve(a);
    vstd::arithmetic::div_mod::lemma_small_mod(1, q());
    lemma_add_closed(p, a.to_extended());
    lemma_sub_closed(p, a.to_extended());
}

/// Double-and-add keeps to the curve: every multiple of a point that
/// satisfies the curve equation satisfies it.
pub proof fn lemma_mul_bits_closed(p: ExtendedCoords, n: nat, len: nat)
    requires
        p.in_field(),
        p.satisfies_curve(),
    ensures
        p.mul_bits(n, len).satisfies_curve(),
        p.mul_bits(n, len).in_field(),
    decreases len,
{
    lemma_identity_on_curve();
    if len > 0 {
        let before = p.mul_bits(n / 2, (len - 1) as nat);
        lemma_mul_bits_closed(p, n / 2, (len - 1) as nat);
        lemma_double_closed(before);
        if n % 2 == 1 {
            lemma_add_closed(before.double(), p);
        } else {
            lemma_add_closed(before.double(), ExtendedCoords::identity());
        }
    }
}

/// Every multiple of a point that satisfies the curve equation satisfies
/// it, and so does eight times the point.
pub proof fn lemma_mul_closed(p: ExtendedCoords, n: nat)
    requires
        p.in_field(),
        p.satisfies_curve(),
    ensures
        p.mul(n).satisfies_curve(),
        p.mul_by_cofactor().satisfies_curve(),
{
    lemma_mul_bits_closed(
        p,
        n % 0x1000_0000_0000_0000_0000_0000_0000_0000_0000_0000_0000_0000_0000_0000_0000_0000nat,
        252,
    );
    lemma_double_closed(p);
    lemma_double_closed(p.double());
    lemma_double_closed(p.double().double());
}

/// `(v.i)^2 - (u.i)^2 = i^2.(v^2 - u^2)` and
/// `i^2.(z^2 + e.t^2) = (z.i)^2 + e.(t.i)^2`.
proof fn lemma_scaled_equation(u: int, v: int, z: int, t: int, i: int, e: int)
    ensures
        (v * i) * (v * i) - (u * i) * (u * i) == (i * i) * (v * v - u * u),
        (i * i) * (z * z + e * (t * t)) == (z * i) * (z * i) + e * ((t * i) * (t * i)),
{
    lemma_square_of_product(v, i);
    lemma_square_of_product(u, i);
    lemma_square_of_product(z, i);
    lemma_square_of_product(t, i);
    let k = i * i;
    assert((v * v) * k - (u * u) * k == k * (v * v - u * u)) by (nonlinear_arith);
    assert(k * (z * z + e * (t * t)) == (z * z) * k + e * ((t * t) * k)) by (nonlinear_arith);
}

/// The affine point of a point that satisfies the curve equation, and whose
/// `Z` is a unit, is on the curve.
pub proof fn lemma_to_affine_on_curve(p: ExtendedCoords)
    requires
        p.in_field(),
        p.satisfies_curve(),
        crate::algebra::is_unit(p.z),
    ensures
        p.to_affine().on_curve(),
        p.to_affine().in_field(),
{
    let l = Lifted::of(p);
    lemma_lift_self(p);
    lemma_curve_lifted(p, l);
    crate::fq::lemma_ops_in_field();
    let e = d() as int;
    let zinv = crate::fq::fq_inv(p.z);
    vstd::arithmetic::div_mod::lemma_mod_bound(
        vstd::arithmetic::power::pow(p.z as int, (q() - 2) as nat),
        q() as int,
    );
    let i = zinv as int;
    let (u, v, z) = (l.u, l.v, l.z);
    let t = l.t1 * l.t2;
    lemma_residue_self(zinv);
    lemma_residue_self(1);
    lemma_residue_self(d());
    // Z.i is congruent to one
    lemma_residue_mul(p.z, z, zinv, i);
    assert(congruent(z * i, 1));
    let a = p.to_affine();
    let (au, av) = (u * i, v * i);
    lemma_residue_mul(p.u, u, zinv, i);
    lemma_residue_mul(p.v, v, zinv, i);
    // the two sides of the affine equation
    lemma_residue_mul(a.u, au, a.u, au);
    lemma_residue_mul(a.v, av, a.v, av);
    lemma_residue_sub(fq_mul(a.v, a.v), av * av, fq_mul(a.u, a.u), au * au);
    lemma_residue_mul(d(), e, fq_mul(a.u, a.u), au * au);
    lemma_residue_mul(fq_mul(d(), fq_mul(a.u, a.u)), e * (au * au), fq_mul(a.v, a.v), av * av);
    lemma_residue_add(
        1,
        1,
        fq_mul(fq_mul(d(), fq_mul(a.u, a.u)), fq_mul(a.v, a.v)),
        (e * (au * au)) * (av * av),
    );
    // the left side is i^2.(V^2 - U^2), congruent to (Z.i)^2 + d.(T.i)^2
    lemma_scaled_equation(u, v, z, t, i, e);
    lemma_congruent_mul(i * i, i * i, v * v - u * u, z * z + e * (t * t));
    // T.i is congruent to (U.i).(V.i)
    lemma_congruent_mul(t * i, t * i, 1, z * i);
    assert((t * i) * 1 == t * i);
    assert((t * i) * (z * i) == (t * z) * (i * i)) by (nonlinear_arith);
    lemma_congruent_mul(t * z, u * v, i * i, i * i);
    assert((u * v) * (i * i) == au * av) by (nonlinear_arith)
        requires
            au == u * i,
            av == v * i,
    ;
    assert(congruent(t * i, au * av));
    lemma_congruent_mul(t * i, au * av, t * i, au * av);
    lemma_congruent_mul(e, e, (t * i) * (t * i), (au * av) * (au * av));
    lemma_congruent_mul(z * i, 1, z * i, 1);
    lemma_congruent_add(
        (z * i) * (z * i),
        1int * 1int,
        e * ((t * i) * (t * i)),
        e * ((au * av) * (au * av)),
    );
    lemma_square_of_product(au, av);
    lemma_scale(e, au * au, av * av);
    lemma_residue_congruent(
        crate::fq::fq_sub(fq_mul(a.v, a.v), fq_mul(a.u, a.u)),
        av * av - au * au,
        crate::fq::fq_add(1, fq_mul(fq_mul(d(), fq_mul(a.u, a.u)), fq_mul(a.v, a.v))),
        1 + (e * (au * au)) * (av * av),
    );
}

/// `(a.z)^2 - (b.z)^2 = z^2.(a^2 - b^2)` and
/// `z^2.(1 + (e.b^2).a^2) = z^2 + e.((b.a).z)^2`.
proof fn lemma_cleared_equation(a: int, b: int, z: int, e: int)
    ensures
        (a * z) * (a * z) - (b * z) * (b * z) == (z * z) * (a * a - b * b),
        (z * z) * (1 + (e * (b * b)) * (a * a)) == z * z + e * (((b * a) * z) * ((b * a) * z)),
{
    lemma_square_of_product(a, z);
    lemma_square_of_product(b, z);
    lemma_square_of_product(b, a);
    lemma_square_of_product(b * a, z);
    let k = z * z;
    let (f, g) = (a * a, b * b);
    assert(f * k - g * k == k * (f - g)) by (nonlinear_arith);
    assert(k * (1 + (e * g) * f) == k + e * ((g * f) * k)) by (nonlinear_arith);
}

/// A point in the sense of the affine curve equation satisfies the equation
/// without division, where its `Z` is a unit.
pub proof fn lemma_on_curve_satisfies(p: ExtendedCoords)
    requires
        p.in_field(),
        p.on_curve(),
        crate::algebra::is_unit(p.z),
    ensures
        p.satisfies_curve(),
{
    let l = Lifted::of(p);
    lemma_lift_self(p);
    crate::fq::lemma_ops_in_field();
    let e = d() as int;
    let zinv = crate::fq::fq_inv(p.z);
    vstd::arithmetic::div_mod::lemma_mod_bound(
        vstd::arithmetic::power::pow(p.z as int, (q() - 2) as nat),
        q() as int,
    );
    let i = zinv as int;
    let (u, v, z) = (l.u, l.v, l.z);
    let t = l.t1 * l.t2;
    lemma_residue_self(zinv);
    lemma_residue_self(1);
    lemma_residue_self(d());
    lemma_residue_mul(p.z, z, zinv, i);
    assert(congruent(z * i, 1));
    let a = p.to_affine();
    let (au, av) = (u * i, v * i);
    lemma_residue_mul(p.u, u, zinv, i);
    lemma_residue_mul(p.v, v, zinv, i);
    // what the affine equation says of the integers
    lemma_residue_mul(a.u, au, a.u, au);
    lemma_residue_mul(a.v, av, a.v, av);
    lemma_residue_sub(fq_mul(a.v, a.v), av * av, fq_mul(a.u, a.u), au * au);
    lemma_residue_mul(d(), e, fq_mul(a.u, a.u), au * au);
    lemma_residue_mul(fq_mul(d(), fq_mul(a.u, a.u)), e * (au * au), fq_mul(a.v, a.v), av * av);
    lemma_residue_add(
        1,
        1,
        fq_mul(fq_mul(d(), fq_mul(a.u, a.u)), fq_mul(a.v, a.v)),
        (e * (au * au)) * (av * av),
    );
    assert(congruent(av * av - au * au, 1 + (e * (au * au)) * (av * av)));
    // and what is said of T1.T2
    lemma_residue_mul(a.u, au, a.v, av);
    lemma_residue_mul(fq_mul(a.u, a.v), au * av, p.z, z);
    lemma_residue_mul(p.t1, l.t1, p.t2, l.t2);
    assert(congruent((au * av) * z, t));
    // U is congruent to (U.i).Z, and V to (V.i).Z
    lemma_congruent_mul(u, u, 1, z * i);
    lemma_congruent_mul(v, v, 1, z * i);
    assert(u * 1 == u && v * 1 == v);
    assert(u * (z * i) == au * z && v * (z * i) == av * z) by (nonlinear_arith)
        requires
            au == u * i,
            av == v * i,
    ;
    // T1.T2.Z is congruent to U.V
    lemma_congruent_mul(t, (au * av) * z, z, z);
    lemma_congruent_mul(au * z, u, av * z, v);
    assert(((au * av) * z) * z == (au * z) * (av * z)) by (nonlinear_arith);
    assert(congruent(t * z, u * v));
    // V^2 - U^2 is congruent to Z^2 + d.(T1.T2)^2
    lemma_congruent_mul(v, av * z, v, av * z);
    lemma_congruent_mul(u, au * z, u, au * z);
    lemma_congruent_sub(v * v, (av * z) * (av * z), u * u, (au * z) * (au * z));
    lemma_cleared_equation(av, au, z, e);
    lemma_congruent_mul(z * z, z * z, av * av - au * au, 1 + (e * (au * au)) * (av * av));
    lemma_congruent_mul((au * av) * z, t, (au * av) * z, t);
    lemma_congruent_mul(e, e, ((au * av) * z) * ((au * av) * z), t * t);
    lemma_congruent_add(z * z, z * z, e * (((au * av) * z) * ((au * av) * z)), e * (t * t));
    lemma_curve_lifted(p, l);
}

/// Where `Z` is a unit, the curve equation without division says the same
/// as the affine curve equation with `T1.T2 = U.V/Z`.
pub proof fn lemma_on_curve_iff(p: ExtendedCoords)
    requires
        p.in_field(),
        crate::algebra::is_unit(p.z),
    ensures
        p.on_curve() == p.satisfies_curve(),
{
    if p.on_curve() {
        lemma_on_curve_satisfies(p);
    }
    if p.satisfies_curve() {
        lemma_to_affine_on_curve(p);
        // a unit is not zero
        assert(p.z != 0) by {
            if p.z == 0 {
                crate::algebra::lemma_inverse_of_one_and_zero();
                assert(0nat * 0nat == 0);
                vstd::arithmetic::div_mod::lemma_small_mod(0, q());
            }
        }
        // ((U.i).(V.i)).Z is congruent to T1.T2
        let l = Lifted::of(p);
        lemma_lift_self(p);
        lemma_curve_lifted(p, l);
        crate::fq::lemma_ops_in_field();
        let zinv = crate::fq::fq_inv(p.z);
        vstd::arithmetic::div_mod::lemma_mod_bound(
            vstd::arithmetic::power::pow(p.z as int, (q() - 2) as nat),
            q() as int,
        );
        let i = zinv as int;
        let (u, v, z) = (l.u, l.v, l.z);
        let t = l.t1 * l.t2;
        lemma_residue_self(zinv);
        lemma_residue_self(1);
        lemma_residue_mul(p.z, z, zinv, i);
        let a = p.to_affine();
        lemma_residue_mul(p.u, u, zinv, i);
        lemma_residue_mul(p.v, v, zinv, i);
        lemma_residue_mul(a.u, u * i, a.v, v * i);
        lemma_residue_mul(fq_mul(a.u, a.v), (u * i) * (v * i), p.z, z);
        lemma_residue_mul(p.t1, l.t1, p.t2, l.t2);
        assert(((u * i) * (v * i)) * z == ((u * v) * i) * (z * i)) by (nonlinear_arith);
        lemma_congruent_mul(u * v, t * z, i, i);
        lemma_congruent_mul((u * v) * i, (t * z) * i, z * i, 1);
        assert(((t * z) * i) * 1 == t * (z * i)) by (nonlinear_arith);
        lemma_congruent_mul(t, t, z * i, 1);
        assert(t * 1 == t);
        lemma_residue_congruent(
            fq_mul(fq_mul(a.u, a.v), p.z),
            ((u * i) * (v * i)) * z,
            fq_mul(p.t1, p.t2),
            t,
        );
    }
}

} // verus!
