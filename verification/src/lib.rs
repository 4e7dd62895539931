//! Group arithmetic on the Jubjub twisted Edwards curve
//! `-u^2 + v^2 = 1 + d.u^2.v^2` with `d = -(10240/10241)`, over the scalar
//! field of BLS12-381.
//!
//! Every function states its result over the integers modulo the field
//! order, and the statements are machine-checked.  Operations on secret data
//! run a fixed sequence of field operations; the branch-free primitives come
//! from the `subtle` crate.
//!
//! * `limbs`, `montgomery`, `modular`, `bytes`: four-limb numbers, residues
//!   in Montgomery form, and their encoding in bytes.
//! * `fq`, `fr`: the base field and the scalar field.
//! * `choice`, `ctoption`: truth values and optional values that are never
//!   branched on.
//! * `curve`: the formulas of the curve on coordinates, to which the
//!   contracts of `affine`, `extended` and `completed` refer.
//! * `algebra`, `laws`, `closure`, `batch`: what is proved of the formulas.
//!   The coordinates `(U, V, Z, T1, T2)` of every result have
//!   `T1.T2.Z = U.V`; sums, differences, doubles and multiples of points on
//!   the curve are on the curve; addition is commutative, has the neutral
//!   element and the negative as inverse, and agrees with doubling.
//!
//! That `q` is prime is not proved here.  What needs every element but zero
//! to have an inverse is stated of units, see `algebra`.

pub mod affine;
pub mod algebra;
pub mod batch;
pub mod bytes;
pub mod choice;
pub mod closure;
pub mod completed;
pub mod ctoption;
pub mod curve;
pub mod curveconstants;
pub mod extended;
pub mod fq;
pub mod fr;
pub mod laws;
pub mod limbs;
pub mod modular;
pub mod montgomery;

pub use affine::{AffineNielsPoint, AffinePoint};
pub use choice::{Choice, ConditionallySelectable};
pub use ctoption::CtOption;
pub use curveconstants::{edwards_d, edwards_d2, FR_MODULUS_BYTES};
pub use extended::{ExtendedNielsPoint, ExtendedPoint};
pub use fq::Fq;
pub use fr::Fr;

use crate::batch::{
    all_units, batch_scale, normalized, prefix_product, suffix_inverse, z_coords,
};
use crate::curve::AffineCoords;
use vstd::prelude::*;

verus! {

/// Brings every point of the slice to `Z = 1` with a single inversion for
/// all of them, and returns their affine coordinates.
///
/// The first pass leaves in each `T1` the product of the `Z` coordinates
/// before it.  The product of all is inverted once.  The second pass, from
/// the last point down, multiplies what is left of the inverse by the stored
/// product to get `1/Z`, cancels `Z` from the inverse, and rescales the
/// point.  This takes five multiplications for each point.
///
/// Where every `Z` has an inverse, each point comes out as
/// `(U/Z, V/Z, 1, U/Z, V/Z)`, as if it had been normalized by itself.  When
/// some `Z` is zero the product has no inverse, and every point is scaled by
/// zero.
pub fn batch_normalize(v: &mut [ExtendedPoint]) -> (r: Vec<AffinePoint>)
    ensures
        final(v)@.len() == old(v)@.len(),
        r@.len() == old(v)@.len(),
        forall|i: int|
            0 <= i < old(v)@.len() ==> (#[trigger] final(v)@[i])@ == normalized(
                old(v)@[i]@,
                batch_scale(z_coords(old(v)@), i),
            ),
        forall|i: int|
            0 <= i < old(v)@.len() ==> (#[trigger] final(v)@[i])@.z == 1 && final(v)@[i]@.consistent(),
        forall|i: int|
            0 <= i < old(v)@.len() ==> (#[trigger] r@[i])@ == (AffineCoords {
                u: final(v)@[i]@.u,
                v: final(v)@[i]@.v,
            }),
        all_units(z_coords(old(v)@)) ==> forall|i: int|
            0 <= i < old(v)@.len() ==> (#[trigger] r@[i])@ == old(v)@[i]@.to_affine(),
        all_units(z_coords(old(v)@)) ==> forall|i: int|
            0 <= i < old(v)@.len() && old(v)@[i]@.satisfies_curve()
                ==> (#[trigger] final(v)@[i])@.satisfies_curve(),
{
    let ghost zs = z_coords(old(v)@);
    let n: usize = v.len();
    let mut acc = Fq::one();
    let mut i: usize = 0;
    while i < n
        invariant
            i <= n,
            n == v@.len(),
            n == old(v)@.len(),
            zs == z_coords(old(v)@),
            acc@ == prefix_product(zs, i as int),
            forall|k: int|
                0 <= k < i ==> (#[trigger] v@[k]).t1@ == prefix_product(zs, k) && v@[k].u
                    == old(v)@[k].u && v@[k].v == old(v)@[k].v && v@[k].z == old(v)@[k].z,
            forall|k: int| i <= k < n ==> #[trigger] v@[k] == old(v)@[k],
        decreases n - i,
    {
        v[i].t1 = acc;
        acc = acc.mul(&v[i].z);
        i = i + 1;
    }
    proof {
        crate::algebra::lemma_inverse_of_one_and_zero();
    }
    acc = acc.invert().unwrap_or(Fq::zero());
    while i > 0
        invariant
            i <= n,
            n == v@.len(),
            n == old(v)@.len(),
            zs == z_coords(old(v)@),
            zs.len() == n,
            acc@ == suffix_inverse(zs, i as int),
            forall|k: int|
                0 <= k < i ==> (#[trigger] v@[k]).t1@ == prefix_product(zs, k) && v@[k].u
                    == old(v)@[k].u && v@[k].v == old(v)@[k].v && v@[k].z == old(v)@[k].z,
            forall|k: int|
                i <= k < n ==> (#[trigger] v@[k])@ == normalized(old(v)@[k]@, batch_scale(zs, k)),
        decreases i,
    {
        i = i - 1;
        let mut p = v[i];
        let tmp = p.t1.mul(&acc);
        acc = acc.mul(&p.z);
        p.u = p.u.mul(&tmp);
        p.v = p.v.mul(&tmp);
        p.z = Fq::one();
        p.t1 = p.u;
        p.t2 = p.v;
        v[i] = p;
    }
    let mut r: Vec<AffinePoint> = Vec::new();
    while i < n
        invariant
            i <= n,
            n == v@.len(),
            r@.len() == i,
            n == old(v)@.len(),
            zs == z_coords(old(v)@),
            forall|k: int|
                0 <= k < n ==> (#[trigger] v@[k])@ == normalized(old(v)@[k]@, batch_scale(zs, k)),
            forall|k: int|
                0 <= k < i ==> (#[trigger] r@[k])@ == (AffineCoords { u: v@[k]@.u, v: v@[k]@.v }),
        decreases n - i,
    {
        r.push(AffinePoint { u: v[i].u, v: v[i].v });
        i = i + 1;
    }
    proof {
        crate::batch::lemma_batch_result(old(v)@, v@, r@);
    }
    r
}

} // verus!
