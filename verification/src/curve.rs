//! The curve `-u^2 + v^2 = 1 + d.u^2.v^2` over the base field, as formulas
//! on coordinates that are numbers below `q`.  The point types compute these
//! formulas; their contracts refer to them.

use crate::fq::{fq_add, fq_inv, fq_mul, fq_neg, fq_sub, q, sqrt_candidate};
use vstd::prelude::*;

verus! {

/// The curve constant `d = -(10240/10241)`.
pub open spec fn d() -> nat {
    0x2a93_18e7_4bfa_2b48_f5fd_9207_e6bd_7fd4_292d_7f6d_3757_9d26_0106_5fd6_d634_3eb1nat
}

/// Twice the curve constant.
pub open spec fn d2() -> nat {
    0x5526_31ce_97f4_5691_ebfb_240f_cd7a_ffa8_525a_feda_6eaf_3a4c_020c_bfad_ac68_7d62nat
}

/// The order of the prime-order subgroup, which is also the order of the
/// scalar field.
pub open spec fn r() -> nat {
    0x0e7d_b4ea_6533_afa9_0667_3b01_0134_3b00_a668_2093_ccc8_1082_d097_0e5e_d6f7_2cb7nat
}

/// Affine coordinates `(u, v)`.
pub struct AffineCoords {
    pub u: nat,
    pub v: nat,
}

/// The cached form `(v + u, v - u, 2d.u.v)` of an affine point.
pub struct AffineNielsCoords {
    pub v_plus_u: nat,
    pub v_minus_u: nat,
    pub t2d: nat,
}

/// Extended coordinates `(U, V, Z, T1, T2)`, which stand for the affine
/// point `(U/Z, V/Z)`.
pub struct ExtendedCoords {
    pub u: nat,
    pub v: nat,
    pub z: nat,
    pub t1: nat,
    pub t2: nat,
}

/// The cached form `(V + U, V - U, Z, 2d.T1.T2)` of an extended point.
pub struct ExtendedNielsCoords {
    pub v_plus_u: nat,
    pub v_minus_u: nat,
    pub z: nat,
    pub t2d: nat,
}

/// Completed coordinates `(U, V, Z, T)`, which stand for the affine point
/// `(U/Z, V/T)`.
pub struct CompletedCoords {
    pub u: nat,
    pub v: nat,
    pub z: nat,
    pub t: nat,
}

impl AffineCoords {
    /// Both coordinates are field elements.
    pub open spec fn in_field(self) -> bool {
        self.u < q() && self.v < q()
    }

    /// The point satisfies the curve equation.
    pub open spec fn on_curve(self) -> bool {
        let uu = fq_mul(self.u, self.u);
        let vv = fq_mul(self.v, self.v);
        fq_sub(vv, uu) == fq_add(1, fq_mul(fq_mul(d(), uu), vv))
    }

    /// The neutral element `(0, 1)`.
    pub open spec fn identity() -> AffineCoords {
        AffineCoords { u: 0, v: 1 }
    }

    /// The negative `(-u, v)`.
    pub open spec fn neg(self) -> AffineCoords {
        AffineCoords { u: fq_neg(self.u), v: self.v }
    }

    /// The cached form `(v + u, v - u, u.v.2d)`.
    pub open spec fn to_niels(self) -> AffineNielsCoords {
        AffineNielsCoords {
            v_plus_u: fq_add(self.v, self.u),
            v_minus_u: fq_sub(self.v, self.u),
            t2d: fq_mul(fq_mul(self.u, self.v), d2()),
        }
    }

    /// The extended point `(u, v, 1, u, v)`.
    pub open spec fn to_extended(self) -> ExtendedCoords {
        ExtendedCoords { u: self.u, v: self.v, z: 1, t1: self.u, t2: self.v }
    }
}

/// The point that a number below `2^256` encodes, if it encodes one.  The
/// low 255 bits are `v`, and the highest bit is the parity wanted of `u`.
/// From `v`, the curve equation gives `u^2 = (v^2 - 1) / (d.v^2 + 1)`, and
/// `u` is the square root found for it, or its negative, whichever has the
/// parity wanted.
///
/// There is no point where `v` is not below `q`, where `d.v^2 + 1` is zero,
/// where no square root is found, or where the root is zero and its parity
/// is wanted odd.  What is found is also held to the curve equation.
pub open spec fn decode(n: nat) -> Option<AffineCoords> {
    let sign = n / 0x8000_0000_0000_0000_0000_0000_0000_0000_0000_0000_0000_0000_0000_0000_0000_0000nat;
    let v = n % 0x8000_0000_0000_0000_0000_0000_0000_0000_0000_0000_0000_0000_0000_0000_0000_0000nat;
    let vv = fq_mul(v, v);
    let den = fq_add(1, fq_mul(d(), vv));
    let rhs = fq_mul(fq_sub(vv, 1), fq_inv(den));
    let c = sqrt_candidate(rhs);
    let p = AffineCoords { u: if c % 2 == sign { c } else { fq_neg(c) }, v };
    if v < q() && den != 0 && fq_mul(c, c) == rhs && !(c == 0 && sign == 1) && p.on_curve() {
        Some(p)
    } else {
        None
    }
}

impl AffineNielsCoords {
    /// The cached form of the neutral element.
    pub open spec fn identity() -> AffineNielsCoords {
        AffineNielsCoords { v_plus_u: 1, v_minus_u: 1, t2d: 0 }
    }
}

impl ExtendedNielsCoords {
    /// The cached form of the neutral element.
    pub open spec fn identity() -> ExtendedNielsCoords {
        ExtendedNielsCoords { v_plus_u: 1, v_minus_u: 1, z: 1, t2d: 0 }
    }
}

impl CompletedCoords {
    /// The extended point `(U.T, V.Z, Z.T, U, V)` for the same affine point.
    pub open spec fn into_extended(self) -> ExtendedCoords {
        ExtendedCoords {
            u: fq_mul(self.u, self.t),
            v: fq_mul(self.v, self.z),
            z: fq_mul(self.z, self.t),
            t1: self.u,
            t2: self.v,
        }
    }
}

impl ExtendedCoords {
    /// All five coordinates are field elements.
    pub open spec fn in_field(self) -> bool {
        self.u < q() && self.v < q() && self.z < q() && self.t1 < q() && self.t2 < q()
    }

    /// The two factors of `T` belong to the other coordinates:
    /// `T1.T2.Z = U.V`.
    pub open spec fn consistent(self) -> bool {
        fq_mul(fq_mul(self.t1, self.t2), self.z) == fq_mul(self.u, self.v)
    }

    /// The curve equation without division: `T1.T2.Z = U.V` and
    /// `V^2 - U^2 = Z^2 + d.(T1.T2)^2`.  Where `Z` has an inverse this is
    /// the curve equation of the affine point `(U/Z, V/Z)`, times `Z^2`.
    pub open spec fn satisfies_curve(self) -> bool {
        let tt = fq_mul(self.t1, self.t2);
        &&& self.consistent()
        &&& fq_sub(fq_mul(self.v, self.v), fq_mul(self.u, self.u)) == fq_add(
            fq_mul(self.z, self.z),
            fq_mul(d(), fq_mul(tt, tt)),
        )
    }

    /// The neutral element `(0, 1, 1, 0, 0)`.
    pub open spec fn identity() -> ExtendedCoords {
        ExtendedCoords { u: 0, v: 1, z: 1, t1: 0, t2: 0 }
    }

    /// The point stands for the neutral element: `U = 0` and `V = Z`.
    pub open spec fn is_identity(self) -> bool {
        self.u == 0 && self.v == self.z
    }

    /// The two points stand for the same affine point, by cross
    /// multiplication: `U.Z' = U'.Z` and `V.Z' = V'.Z`.
    pub open spec fn same_point(self, other: ExtendedCoords) -> bool {
        &&& fq_mul(self.u, other.z) == fq_mul(other.u, self.z)
        &&& fq_mul(self.v, other.z) == fq_mul(other.v, self.z)
    }

    /// The negative `(-U, V, Z, -T1, T2)`.
    pub open spec fn neg(self) -> ExtendedCoords {
        ExtendedCoords {
            u: fq_neg(self.u),
            v: self.v,
            z: self.z,
            t1: fq_neg(self.t1),
            t2: self.t2,
        }
    }

    /// The affine point `(U/Z, V/Z)`.
    pub open spec fn to_affine(self) -> AffineCoords {
        let zinv = fq_inv(self.z);
        AffineCoords { u: fq_mul(self.u, zinv), v: fq_mul(self.v, zinv) }
    }

    /// The cached form `(V + U, V - U, Z, T1.T2.2d)`.
    pub open spec fn to_niels(self) -> ExtendedNielsCoords {
        ExtendedNielsCoords {
            v_plus_u: fq_add(self.v, self.u),
            v_minus_u: fq_sub(self.v, self.u),
            z: self.z,
            t2d: fq_mul(fq_mul(self.t1, self.t2), d2()),
        }
    }

    /// Doubling, before the result is brought back to extended
    /// coordinates: with `UU = U^2`, `VV = V^2`, `ZZ2 = 2.Z^2` and
    /// `UV2 = (U + V)^2`, the completed point
    /// `(UV2 - (VV + UU), VV + UU, VV - UU, ZZ2 - (VV - UU))`.
    pub open spec fn double_completed(self) -> CompletedCoords {
        let uu = fq_mul(self.u, self.u);
        let vv = fq_mul(self.v, self.v);
        let zz = fq_mul(self.z, self.z);
        let zz2 = fq_add(zz, zz);
        let uv = fq_add(self.u, self.v);
        let uv2 = fq_mul(uv, uv);
        let vv_plus_uu = fq_add(vv, uu);
        let vv_minus_uu = fq_sub(vv, uu);
        CompletedCoords {
            u: fq_sub(uv2, vv_plus_uu),
            v: vv_plus_uu,
            z: vv_minus_uu,
            t: fq_sub(zz2, vv_minus_uu),
        }
    }

    /// The double of the point.
    pub open spec fn double(self) -> ExtendedCoords {
        self.double_completed().into_extended()
    }

    /// Eight times the point: three doublings.
    pub open spec fn mul_by_cofactor(self) -> ExtendedCoords {
        self.double().double().double()
    }

    /// Two doublings bring the point to `U = 0`, as they do with every point
    /// whose order divides eight.
    pub open spec fn is_small_order(self) -> bool {
        self.double().double().u == 0
    }

    /// The sum with a cached extended point: with
    /// `A = (V - U).(V - U)'`, `B = (V + U).(V + U)'`, `C = T1.T2.t2d'` and
    /// `D = 2.Z.Z'`, the point `(B - A, B + A, D + C, D - C)` brought back
    /// to extended coordinates.
    pub open spec fn add_niels(self, other: ExtendedNielsCoords) -> ExtendedCoords {
        let a = fq_mul(fq_sub(self.v, self.u), other.v_minus_u);
        let b = fq_mul(fq_add(self.v, self.u), other.v_plus_u);
        let c = fq_mul(fq_mul(self.t1, self.t2), other.t2d);
        let zz = fq_mul(self.z, other.z);
        let dd = fq_add(zz, zz);
        CompletedCoords {
            u: fq_sub(b, a),
            v: fq_add(b, a),
            z: fq_add(dd, c),
            t: fq_sub(dd, c),
        }.into_extended()
    }

    /// The difference with a cached extended point: as the sum, with
    /// `(V + U)'` and `(V - U)'` exchanged and the sign of `C` reversed.
    pub open spec fn sub_niels(self, other: ExtendedNielsCoords) -> ExtendedCoords {
        let a = fq_mul(fq_sub(self.v, self.u), other.v_plus_u);
        let b = fq_mul(fq_add(self.v, self.u), other.v_minus_u);
        let c = fq_mul(fq_mul(self.t1, self.t2), other.t2d);
        let zz = fq_mul(self.z, other.z);
        let dd = fq_add(zz, zz);
        CompletedCoords {
            u: fq_sub(b, a),
            v: fq_add(b, a),
            z: fq_sub(dd, c),
            t: fq_add(dd, c),
        }.into_extended()
    }

    /// The sum with a cached affine point: as with a cached extended point
    /// whose `Z'` is one, so that `D = 2.Z`.
    pub open spec fn add_affine_niels(self, other: AffineNielsCoords) -> ExtendedCoords {
        let a = fq_mul(fq_sub(self.v, self.u), other.v_minus_u);
        let b = fq_mul(fq_add(self.v, self.u), other.v_plus_u);
        let c = fq_mul(fq_mul(self.t1, self.t2), other.t2d);
        let dd = fq_add(self.z, self.z);
        CompletedCoords {
            u: fq_sub(b, a),
            v: fq_add(b, a),
            z: fq_add(dd, c),
            t: fq_sub(dd, c),
        }.into_extended()
    }

    /// The difference with a cached affine point.
    pub open spec fn sub_affine_niels(self, other: AffineNielsCoords) -> ExtendedCoords {
        let a = fq_mul(fq_sub(self.v, self.u), other.v_plus_u);
        let b = fq_mul(fq_add(self.v, self.u), other.v_minus_u);
        let c = fq_mul(fq_mul(self.t1, self.t2), other.t2d);
        let dd = fq_add(self.z, self.z);
        CompletedCoords {
            u: fq_sub(b, a),
            v: fq_add(b, a),
            z: fq_sub(dd, c),
            t: fq_add(dd, c),
        }.into_extended()
    }

    /// The sum of two extended points.
    pub open spec fn add(self, other: ExtendedCoords) -> ExtendedCoords {
        self.add_niels(other.to_niels())
    }

    /// The difference of two extended points.
    pub open spec fn sub(self, other: ExtendedCoords) -> ExtendedCoords {
        self.sub_niels(other.to_niels())
    }

    /// Double-and-add over the lowest `len` bits of `n`, from the highest of
    /// them down: each bit doubles the accumulator and then adds the point
    /// when the bit is set, the neutral element otherwise.
    pub open spec fn mul_bits(self, n: nat, len: nat) -> ExtendedCoords
        decreases len,
    {
        if len == 0 {
            ExtendedCoords::identity()
        } else {
            let acc = self.mul_bits(n / 2, (len - 1) as nat).double();
            if n % 2 == 1 {
                acc.add_niels(self.to_niels())
            } else {
                acc.add_niels(ExtendedNielsCoords::identity())
            }
        }
    }

    /// The multiple of the point by a scalar, of which the lowest 252 bits
    /// count.
    pub open spec fn mul(self, n: nat) -> ExtendedCoords {
        self.mul_bits(n % 0x1000_0000_0000_0000_0000_0000_0000_0000_0000_0000_0000_0000_0000_0000_0000_0000nat, 252)
    }

    /// The multiple by the order of the prime-order subgroup is the neutral
    /// element.
    pub open spec fn is_torsion_free(self) -> bool {
        self.mul(r()).is_identity()
    }

    /// The point is in the prime-order subgroup and is not its neutral
    /// element.
    pub open spec fn is_prime_order(self) -> bool {
        self.is_torsion_free() && !self.is_identity()
    }

    /// The point is on the curve: `Z` is not zero, the affine point
    /// `(U/Z, V/Z)` satisfies the curve equation, and `T1.T2` is `U.V/Z`.
    pub open spec fn on_curve(self) -> bool {
        let affine = self.to_affine();
        &&& self.z != 0
        &&& affine.on_curve()
        &&& fq_mul(fq_mul(affine.u, affine.v), self.z) == fq_mul(self.t1, self.t2)
    }
}

} // verus!
