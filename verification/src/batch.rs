//! What batch normalization computes, and why it is the same as
//! normalizing each point by itself.

use crate::algebra::{
    is_unit, lemma_inverse_of_one_and_zero, lemma_mul_associates, lemma_mul_commutes,
    lemma_mul_one, lemma_unit_inverse_unique, lemma_unit_product,
};
use crate::curve::ExtendedCoords;
use crate::extended::ExtendedPoint;
use crate::fq::{fq_inv, fq_mul, lemma_ops_in_field, q};
use vstd::prelude::*;

verus! {

/// The `Z` coordinates of a sequence of points.
pub open spec fn z_coords(points: Seq<ExtendedPoint>) -> Seq<nat> {
    points.map_values(|p: ExtendedPoint| p@.z)
}

/// The product of the first `i` numbers.
pub open spec fn prefix_product(zs: Seq<nat>, i: int) -> nat
    decreases i,
{
    if i <= 0 {
        1
    } else {
        fq_mul(prefix_product(zs, i - 1), zs[i - 1])
    }
}

/// The inverse of the product of all the numbers, times the numbers from
/// index `i` on: what is left of the inverse when those numbers are
/// cancelled from it.
pub open spec fn suffix_inverse(zs: Seq<nat>, i: int) -> nat
    decreases zs.len() - i,
{
    if i >= zs.len() {
        fq_inv(prefix_product(zs, zs.len() as int))
    } else {
        fq_mul(suffix_inverse(zs, i + 1), zs[i])
    }
}

/// The factor by which `batch_normalize` scales the point at index `i`:
/// the product of the numbers before it, times the inverse of the product
/// of all with the numbers after it cancelled.  Where every number has an
/// inverse, this is the inverse of the number at `i`.
pub open spec fn batch_scale(zs: Seq<nat>, i: int) -> nat {
    fq_mul(prefix_product(zs, i), suffix_inverse(zs, i + 1))
}

/// The point with `U` and `V` scaled by `w`, in the form `(U, V, 1, U, V)`.
pub open spec fn normalized(p: ExtendedCoords, w: nat) -> ExtendedCoords {
    ExtendedCoords {
        u: fq_mul(p.u, w),
        v: fq_mul(p.v, w),
        z: 1,
        t1: fq_mul(p.u, w),
        t2: fq_mul(p.v, w),
    }
}

/// The numbers are field elements.
pub open spec fn all_in_field(zs: Seq<nat>) -> bool {
    forall|k: int| 0 <= k < zs.len() ==> #[trigger] zs[k] < q()
}

/// The numbers are units.
pub open spec fn all_units(zs: Seq<nat>) -> bool {
    forall|k: int| 0 <= k < zs.len() ==> is_unit(#[trigger] zs[k])
}

/// The `Z` coordinates of points are field elements.
pub proof fn lemma_z_coords_in_field(points: Seq<ExtendedPoint>)
    ensures
        all_in_field(z_coords(points)),
{
    assert forall|k: int| 0 <= k < z_coords(points).len() implies #[trigger] z_coords(points)[k]
        < q() by {
        points[k].z.lemma_range();
    }
}

/// The product of the first `i` numbers times what is left of the inverse
/// at `i` is the product of all the numbers times its inverse.
pub proof fn lemma_prefix_times_suffix(zs: Seq<nat>, i: int)
    requires
        all_in_field(zs),
        0 <= i <= zs.len(),
    ensures
        fq_mul(prefix_product(zs, i), suffix_inverse(zs, i)) == fq_mul(
            prefix_product(zs, zs.len() as int),
            fq_inv(prefix_product(zs, zs.len() as int)),
        ),
    decreases zs.len() - i,
{
    if i < zs.len() {
        lemma_prefix_times_suffix(zs, i + 1);
        lemma_ops_in_field();
        lemma_prefix_in_field(zs, i);
        lemma_suffix_in_field(zs, i + 1);
        let p = prefix_product(zs, i);
        let s = suffix_inverse(zs, i + 1);
        lemma_mul_associates(p, zs[i], s);
        lemma_mul_commutes(zs[i], s);
    }
}

/// A product of field elements is a field element.
pub proof fn lemma_prefix_in_field(zs: Seq<nat>, i: int)
    ensures
        prefix_product(zs, i) < q(),
    decreases i,
{
    lemma_ops_in_field();
}

/// What is left of the inverse is a field element.
pub proof fn lemma_suffix_in_field(zs: Seq<nat>, i: int)
    ensures
        suffix_inverse(zs, i) < q(),
    decreases zs.len() - i,
{
    lemma_ops_in_field();
    if i >= zs.len() {
        vstd::arithmetic::div_mod::lemma_mod_bound(
            vstd::arithmetic::power::pow(
                prefix_product(zs, zs.len() as int) as int,
                (q() - 2) as nat,
            ),
            q() as int,
        );
    }
}

/// The factor of a point, times the `Z` of the point, is the product of all
/// the `Z` times its inverse.
pub proof fn lemma_batch_scale_cancels(zs: Seq<nat>, i: int)
    requires
        all_in_field(zs),
        0 <= i < zs.len(),
    ensures
        fq_mul(batch_scale(zs, i), zs[i]) == fq_mul(
            prefix_product(zs, zs.len() as int),
            fq_inv(prefix_product(zs, zs.len() as int)),
        ),
{
    lemma_prefix_times_suffix(zs, i);
    lemma_prefix_in_field(zs, i);
    lemma_suffix_in_field(zs, i + 1);
    lemma_mul_associates(prefix_product(zs, i), suffix_inverse(zs, i + 1), zs[i]);
}

/// A product of units is a unit.
pub proof fn lemma_prefix_unit(zs: Seq<nat>, i: int)
    requires
        all_in_field(zs),
        all_units(zs),
        0 <= i <= zs.len(),
    ensures
        is_unit(prefix_product(zs, i)),
    decreases i,
{
    if i <= 0 {
        lemma_inverse_of_one_and_zero();
    } else {
        lemma_prefix_unit(zs, i - 1);
        lemma_prefix_in_field(zs, i - 1);
        lemma_unit_product(prefix_product(zs, i - 1), zs[i - 1]);
    }
}

/// Where every `Z` is a unit, the factor of a point is the inverse of its
/// `Z`.
pub proof fn lemma_batch_scale_is_inverse(zs: Seq<nat>, i: int)
    requires
        all_in_field(zs),
        all_units(zs),
        0 <= i < zs.len(),
    ensures
        batch_scale(zs, i) == fq_inv(zs[i]),
{
    lemma_batch_scale_cancels(zs, i);
    lemma_prefix_unit(zs, zs.len() as int);
    lemma_ops_in_field();
    lemma_unit_inverse_unique(batch_scale(zs, i), zs[i]);
}

/// Batch normalization agrees with normalizing each point by itself: where
/// every `Z` of the batch is a unit, the point at `i` comes out as
/// `(U/Z, V/Z, 1, U/Z, V/Z)`, with the affine coordinates that `to_affine`
/// gives.
pub proof fn lemma_batch_normalize_equivalence(points: Seq<ExtendedCoords>, i: int)
    requires
        forall|k: int| 0 <= k < points.len() ==> (#[trigger] points[k]).z < q(),
        forall|k: int| 0 <= k < points.len() ==> is_unit((#[trigger] points[k]).z),
        0 <= i < points.len(),
    ensures
        ({
            let zs = points.map_values(|p: ExtendedCoords| p.z);
            let after = normalized(points[i], batch_scale(zs, i));
            &&& after.u == points[i].to_affine().u
            &&& after.v == points[i].to_affine().v
            &&& after.z == 1
            &&& after.t1 == after.u
            &&& after.t2 == after.v
        }),
{
    let zs = points.map_values(|p: ExtendedCoords| p.z);
    assert forall|k: int| 0 <= k < zs.len() implies #[trigger] zs[k] < q() by {
        assert(zs[k] == points[k].z);
    }
    assert forall|k: int| 0 <= k < zs.len() implies is_unit(#[trigger] zs[k]) by {
        assert(zs[k] == points[k].z);
    }
    lemma_batch_scale_is_inverse(zs, i);
}

/// Batch normalization is idempotent: on points that are normalized, with
/// `Z = 1`, `T1 = U` and `T2 = V`, it changes nothing.
pub proof fn lemma_batch_normalize_idempotent(points: Seq<ExtendedCoords>, i: int)
    requires
        forall|k: int|
            0 <= k < points.len() ==> {
                let p = #[trigger] points[k];
                p.in_field() && p.z == 1 && p.t1 == p.u && p.t2 == p.v
            },
        0 <= i < points.len(),
    ensures
        normalized(points[i], batch_scale(points.map_values(|p: ExtendedCoords| p.z), i))
            == points[i],
{
    let zs = points.map_values(|p: ExtendedCoords| p.z);
    lemma_inverse_of_one_and_zero();
    assert forall|k: int| 0 <= k < zs.len() implies #[trigger] zs[k] < q() by {
        assert(zs[k] == points[k].z);
    }
    assert forall|k: int| 0 <= k < zs.len() implies is_unit(#[trigger] zs[k]) by {
        assert(zs[k] == points[k].z);
    }
    lemma_batch_scale_is_inverse(zs, i);
    lemma_mul_one(points[i].u);
    lemma_mul_one(points[i].v);
}

/// What batch normalization leaves has `Z = 1` and `T1.T2.Z = U.V`.
pub proof fn lemma_normalized_consistent(p: ExtendedCoords, w: nat)
    ensures
        normalized(p, w).z == 1,
        normalized(p, w).consistent(),
        normalized(p, w).in_field(),
{
    lemma_ops_in_field();
    lemma_mul_one(fq_mul(fq_mul(p.u, w), fq_mul(p.v, w)));
}

/// Where every `Z` of the batch is a unit, the normalized point has the
/// affine coordinates of the point, and satisfies the curve equation where
/// the point does.
pub proof fn lemma_normalized_unit(p: ExtendedCoords, zs: Seq<nat>, k: int)
    requires
        all_in_field(zs),
        all_units(zs),
        0 <= k < zs.len(),
        zs[k] == p.z,
        p.in_field(),
    ensures
        normalized(p, batch_scale(zs, k)) == p.to_affine().to_extended(),
        p.satisfies_curve() ==> normalized(p, batch_scale(zs, k)).satisfies_curve(),
{
    lemma_batch_scale_is_inverse(zs, k);
    if p.satisfies_curve() {
        crate::closure::lemma_to_affine_on_curve(p);
        crate::laws::lemma_affine_satisfies_curve(p.to_affine());
    }
}

/// What holds of a batch once every point has been replaced by its
/// normalized form and the affine coordinates have been read off.
pub proof fn lemma_batch_result(
    before: Seq<ExtendedPoint>,
    after: Seq<ExtendedPoint>,
    affine: Seq<crate::affine::AffinePoint>,
)
    requires
        after.len() == before.len(),
        affine.len() == before.len(),
        forall|k: int|
            0 <= k < before.len() ==> (#[trigger] after[k])@ == normalized(
                before[k]@,
                batch_scale(z_coords(before), k),
            ),
        forall|k: int|
            0 <= k < before.len() ==> (#[trigger] affine[k])@ == (crate::curve::AffineCoords {
                u: after[k]@.u,
                v: after[k]@.v,
            }),
    ensures
        forall|k: int|
            0 <= k < before.len() ==> (#[trigger] after[k])@.z == 1 && after[k]@.consistent(),
        all_units(z_coords(before)) ==> forall|k: int|
            0 <= k < before.len() ==> (#[trigger] affine[k])@ == before[k]@.to_affine(),
        all_units(z_coords(before)) ==> forall|k: int|
            0 <= k < before.len() && before[k]@.satisfies_curve()
                ==> (#[trigger] after[k])@.satisfies_curve(),
{
    let zs = z_coords(before);
    assert forall|k: int| 0 <= k < before.len() implies (#[trigger] after[k])@.z == 1
        && after[k]@.consistent() by {
        lemma_normalized_consistent(before[k]@, batch_scale(zs, k));
    }
    if all_units(zs) {
        lemma_z_coords_in_field(before);
        assert forall|k: int| 0 <= k < before.len() implies (#[trigger] affine[k])@
            == before[k]@.to_affine() by {
            before[k].lemma_in_field();
            lemma_normalized_unit(before[k]@, zs, k);
            assert(after[k]@ == normalized(before[k]@, batch_scale(zs, k)));
        }
        assert forall|k: int|
            0 <= k < before.len() && before[k]@.satisfies_curve() implies (#[trigger] after[k])@.satisfies_curve() by {
            before[k].lemma_in_field();
            lemma_normalized_unit(before[k]@, zs, k);
        }
    }
}

} // verus!
