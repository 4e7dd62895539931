//! The intermediate form in which doubling and addition leave their result.

use crate::curve::CompletedCoords;
use crate::extended::ExtendedPoint;
use crate::fq::Fq;
use vstd::prelude::*;

verus! {

/// A point in completed coordinates `(U, V, Z, T)`, which stand for the
/// affine point `(U/Z, V/T)`.
pub struct CompletedPoint {
    pub u: Fq,
    pub v: Fq,
    pub z: Fq,
    pub t: Fq,
}

impl View for CompletedPoint {
    type V = CompletedCoords;

    open spec fn view(&self) -> CompletedCoords {
        CompletedCoords { u: self.u@, v: self.v@, z: self.z@, t: self.t@ }
    }
}

impl CompletedPoint {
    /// The extended point for the same affine point:
    /// `(U/Z, V/T) = (U.T/Z.T, V.Z/Z.T)`, and `T1 = U`, `T2 = V` are two
    /// factors of `U.T.V.Z/Z.T`.
    pub fn into_extended(&self) -> (r: ExtendedPoint)
        ensures
            r@ == self@.into_extended(),
            r@.consistent(),
    {
        proof {
            self.u.lemma_range();
            self.v.lemma_range();
            self.z.lemma_range();
            self.t.lemma_range();
            crate::laws::lemma_into_extended_consistent(self@);
        }
        ExtendedPoint {
            u: self.u.mul(&self.t),
            v: self.v.mul(&self.z),
            z: self.z.mul(&self.t),
            t1: self.u,
            t2: self.v,
        }
    }
}

} // verus!
