use jubjub::{
    batch_normalize, AffineNielsPoint, AffinePoint, Choice, ConditionallySelectable,
    ExtendedNielsPoint, ExtendedPoint, Fq, Fr, FR_MODULUS_BYTES,
};

fn generator() -> AffinePoint {
    AffinePoint::from_raw_unchecked(
        Fq::from_raw([
            0xe4b3d35df1a7adfe,
            0xcaf55d1b29bf81af,
            0x8b0f03ddd60a8187,
            0x62edcbb8bf3787c8,
        ]),
        Fq::from_raw([0xb, 0x0, 0x0, 0x0]),
    )
}

fn base() -> ExtendedPoint {
    generator().mul_by_cofactor()
}

fn small_bytes(n: u8) -> [u8; 32] {
    let mut b = [0u8; 32];
    b[0] = n;
    b
}

fn consistent(p: &ExtendedPoint) -> bool {
    p.t1.mul(&p.t2).mul(&p.z) == p.u.mul(&p.v)
}

fn satisfies_curve(p: &ExtendedPoint) -> bool {
    let t = p.t1.mul(&p.t2);
    consistent(p)
        && p.v.square().sub(&p.u.square())
            == p.z.square().add(&jubjub::edwards_d().mul(&t.square()))
}

fn same_coordinates(a: &ExtendedPoint, b: &ExtendedPoint) -> bool {
    a.u == b.u && a.v == b.v && a.z == b.z && a.t1 == b.t1 && a.t2 == b.t2
}

#[test]
fn identity_coordinates() {
    let o = ExtendedPoint::identity();
    assert_eq!(o.u, Fq::zero());
    assert_eq!(o.v, Fq::one());
    assert_eq!(o.z, Fq::one());
    assert_eq!(o.t1, Fq::zero());
    assert_eq!(o.t2, Fq::zero());
    assert_eq!(o.is_identity().unwrap_u8(), 1);
    assert_eq!(ExtendedPoint::default(), o);
    assert_eq!(AffinePoint::default(), AffinePoint::identity());
    assert_eq!(AffinePoint::identity().u, Fq::zero());
    assert_eq!(AffinePoint::identity().v, Fq::one());
    assert_eq!(ExtendedNielsPoint::identity().z, Fq::one());
    assert_eq!(AffineNielsPoint::identity().t2d, Fq::zero());
}

#[test]
fn from_affine_is_u_v_one_u_v() {
    let g = generator();
    let e = ExtendedPoint::from_affine(g);
    assert_eq!(e.u, g.u);
    assert_eq!(e.v, g.v);
    assert_eq!(e.z, Fq::one());
    assert_eq!(e.t1, g.u);
    assert_eq!(e.t2, g.v);
    assert_eq!(AffinePoint::from_extended(&e), g);
}

#[test]
fn results_keep_t_consistent_and_on_curve() {
    let p = base();
    let q = p.double().add(&p);
    for r in [
        p,
        p.double(),
        p.add(&q),
        p.sub(&q),
        p.neg(),
        p.add_affine(&generator()),
        p.sub_affine(&generator()),
        p.mul(&Fr::from_u64(12345)),
        ExtendedPoint::identity(),
    ] {
        assert!(consistent(&r));
        assert!(satisfies_curve(&r));
        assert!(r.is_on_curve_vartime());
        assert_eq!(r.z.ct_eq(&Fq::zero()).unwrap_u8(), 0);
    }
}

#[test]
fn is_on_curve_rejects_what_is_off_the_curve() {
    let off = AffinePoint::from_raw_unchecked(Fq::from_raw([2, 0, 0, 0]), Fq::from_raw([3, 0, 0, 0]));
    assert!(!off.is_on_curve_vartime());
    assert_eq!(off.is_on_curve().unwrap_u8(), 0);
    assert!(!ExtendedPoint::from_affine(off).is_on_curve_vartime());
    let mut zero_z = base();
    zero_z.z = Fq::zero();
    assert!(!zero_z.is_on_curve_vartime());
    let mut wrong_t = base();
    wrong_t.t1 = wrong_t.t1.add(&Fq::one());
    assert!(!wrong_t.is_on_curve_vartime());
}

#[test]
fn addition_commutes() {
    let p = base();
    let q = p.double().double().add(&p);
    let a = p.add(&q);
    let b = q.add(&p);
    assert_eq!(a, b);
    assert_eq!(a.u, b.u);
    assert_eq!(a.v, b.v);
    assert_eq!(a.z, b.z);
    assert_eq!(a.t1, b.t1);
    assert_eq!(a.t2, b.t2);
}

#[test]
fn addition_associates() {
    let p = base();
    let q = p.double();
    let r = q.double().add(&p);
    assert_eq!(p.add(&q).add(&r), p.add(&q.add(&r)));
}

#[test]
fn identity_is_neutral() {
    let p = base();
    assert_eq!(p.add(&ExtendedPoint::identity()), p);
    assert_eq!(ExtendedPoint::identity().add(&p), p);
    assert_eq!(p.add_niels(&ExtendedNielsPoint::identity()), p);
    assert_eq!(p.add_affine_niels(&AffineNielsPoint::identity()), p);
    assert_eq!(p.sub(&ExtendedPoint::identity()), p);
}

#[test]
fn negative_is_inverse() {
    let p = base();
    assert_eq!(p.add(&p.neg()).is_identity().unwrap_u8(), 1);
    assert_eq!(p.sub(&p).is_identity().unwrap_u8(), 1);
    let n = p.neg().neg();
    assert_eq!(n.u, p.u);
    assert_eq!(n.v, p.v);
    assert_eq!(n.z, p.z);
    assert_eq!(n.t1, p.t1);
    assert_eq!(n.t2, p.t2);
    assert_eq!(generator().neg().neg(), generator());
    assert_eq!(
        ExtendedPoint::from_affine(generator().neg()),
        ExtendedPoint::from_affine(generator()).neg()
    );
}

#[test]
fn doubling_is_adding_to_itself() {
    let p = base();
    assert_eq!(p.double(), p.add(&p));
    let g = ExtendedPoint::from_affine(generator());
    assert_eq!(g.double(), g.add(&g));
    assert_eq!(
        g.mul_by_cofactor(),
        g.add(&g).add(&g).add(&g).add(&g).add(&g).add(&g).add(&g)
    );
}

#[test]
fn subtraction_adds_the_negative() {
    let p = base();
    let q = p.double().add(&p);
    assert!(same_coordinates(&p.sub(&q), &p.add(&q.neg())));
    let a = AffinePoint::from_extended(&q);
    let e = ExtendedPoint::from_affine(a);
    assert!(same_coordinates(&p.add_affine(&a), &p.add(&e)));
    assert!(same_coordinates(&p.sub_affine(&a), &p.sub(&e)));
}

#[test]
fn what_is_off_the_curve_is_told_apart() {
    let off = ExtendedPoint::from_affine(AffinePoint::from_raw_unchecked(
        Fq::from_raw([2, 0, 0, 0]),
        Fq::from_raw([3, 0, 0, 0]),
    ));
    assert!(consistent(&off));
    assert!(!satisfies_curve(&off));
    // doubling gives T1.T2.Z = U.V whatever goes in
    assert!(consistent(&off.double()));
    assert!(consistent(&off.add(&base())));
}

#[test]
fn subtraction_undoes_addition() {
    let p = base();
    let q = p.double().add(&p);
    assert_eq!(p.add(&q).sub(&q), p);
    assert_eq!(p.add_niels(&q.to_niels()).sub_niels(&q.to_niels()), p);
    let a = AffinePoint::from_extended(&q);
    assert_eq!(p.add_affine(&a).sub_affine(&a), p);
    assert_eq!(p.add_affine(&a), p.add(&q));
    assert_eq!(p.add_affine_niels(&a.to_niels()), p.add_niels(&q.to_niels()));
}

#[test]
fn niels_forms() {
    let g = generator();
    let n = g.to_niels();
    assert_eq!(n.v_plus_u, g.v.add(&g.u));
    assert_eq!(n.v_minus_u, g.v.sub(&g.u));
    assert_eq!(n.t2d, g.u.mul(&g.v).mul(&jubjub::edwards_d2()));
    let p = base();
    let m = p.to_niels();
    assert_eq!(m.v_plus_u, p.v.add(&p.u));
    assert_eq!(m.v_minus_u, p.v.sub(&p.u));
    assert_eq!(m.z, p.z);
    assert_eq!(m.t2d, p.t1.mul(&p.t2).mul(&jubjub::edwards_d2()));
    assert_eq!(jubjub::edwards_d2(), jubjub::edwards_d().double());
}

#[test]
fn scalar_multiples() {
    let p = base();
    assert_eq!(p.mul(&Fr::zero()).is_identity().unwrap_u8(), 1);
    assert_eq!(p.mul(&Fr::one()), p);
    assert_eq!(p.mul(&Fr::from_u64(2)), p.double());
    assert_eq!(p.mul(&Fr::from_u64(3)), p.double().add(&p));
    assert_eq!(p.mul(&Fr::from_u64(8)), p.mul_by_cofactor());
    let a = Fr::from_u64(0xdead_beef);
    let b = Fr::from_u64(0x1234_5678_9abc);
    assert_eq!(p.mul(&a.add(&b)), p.mul(&a).add(&p.mul(&b)));
    assert_eq!(p.mul(&a).mul(&b), p.mul(&a.mul(&b)));
    assert_eq!(p.mul(&Fr::one().neg()), p.neg());
    assert_eq!(p.multiply(&FR_MODULUS_BYTES).is_identity().unwrap_u8(), 1);
}

#[test]
fn multiply_passes_over_the_four_highest_bits() {
    let p = base();
    let mut low = [0u8; 32];
    low[0] = 5;
    low[31] = 0x0a;
    let mut high = low;
    high[31] = 0xfa;
    assert_eq!(p.multiply(&high), p.multiply(&low));
    let r = p.multiply(&high);
    let s = p.multiply(&low);
    assert_eq!(r.u, s.u);
    assert_eq!(r.z, s.z);
    // the highest bit that counts is bit 251
    let mut top = [0u8; 32];
    top[31] = 0x08;
    let mut expected = p;
    for _ in 0..251 {
        expected = expected.double();
    }
    assert_eq!(p.multiply(&top), expected);
    assert_eq!(p.multiply(&small_bytes(6)), p.double().add(&p).double());
}

#[test]
fn torsion_tests() {
    let g = ExtendedPoint::from_affine(generator());
    assert_eq!(g.is_small_order().unwrap_u8(), 0);
    assert_eq!(g.is_torsion_free().unwrap_u8(), 0);
    assert_eq!(g.is_prime_order().unwrap_u8(), 0);
    let p = base();
    assert_eq!(p.is_torsion_free().unwrap_u8(), 1);
    assert_eq!(p.is_small_order().unwrap_u8(), 0);
    assert_eq!(p.is_prime_order().unwrap_u8(), 1);
    let o = ExtendedPoint::identity();
    assert_eq!(o.is_torsion_free().unwrap_u8(), 1);
    assert_eq!(o.is_small_order().unwrap_u8(), 1);
    assert_eq!(o.is_prime_order().unwrap_u8(), 0);
    assert_eq!(generator().is_prime_order().unwrap_u8(), 0);
    assert_eq!(generator().is_torsion_free().unwrap_u8(), 0);
    assert_eq!(AffinePoint::identity().is_prime_order().unwrap_u8(), 0);
    assert_eq!(AffinePoint::from_extended(&p).is_prime_order().unwrap_u8(), 1);
}

#[test]
fn equality_is_projective() {
    let p = base();
    let two = Fq::from_raw([2, 0, 0, 0]);
    let scaled = ExtendedPoint {
        u: p.u.mul(&two),
        v: p.v.mul(&two),
        z: p.z.mul(&two),
        t1: p.t1.mul(&two),
        t2: p.t2,
    };
    assert!(scaled.u != p.u);
    assert_eq!(scaled, p);
    assert_eq!(scaled.ct_eq(&p).unwrap_u8(), 1);
    assert_eq!(p.ct_eq(&p.double()).unwrap_u8(), 0);
    assert!(p != p.double());
    assert_eq!(generator().ct_eq(&generator()).unwrap_u8(), 1);
    assert_eq!(generator().ct_eq(&generator().neg()).unwrap_u8(), 0);
}

#[test]
fn points_are_selected_by_the_choice() {
    let p = base();
    let q = p.double();
    let picked = ExtendedPoint::conditional_select(&p, &q, Choice::from_u8(0));
    assert_eq!(picked.u, p.u);
    assert_eq!(picked.t2, p.t2);
    let picked = ExtendedPoint::conditional_select(&p, &q, Choice::from_u8(1));
    assert_eq!(picked.u, q.u);
    assert_eq!(picked.t2, q.t2);
    let n = ExtendedNielsPoint::conditional_select(
        &ExtendedNielsPoint::identity(),
        &p.to_niels(),
        Choice::from_u8(1),
    );
    assert_eq!(n.t2d, p.to_niels().t2d);
    let a = AffinePoint::conditional_select(&generator(), &AffinePoint::identity(), Choice::from_u8(1));
    assert_eq!(a, AffinePoint::identity());
    let m = AffineNielsPoint::conditional_select(
        &generator().to_niels(),
        &AffineNielsPoint::identity(),
        Choice::from_u8(0),
    );
    assert_eq!(m.t2d, generator().to_niels().t2d);
}

#[test]
fn encoding_of_known_points() {
    assert_eq!(AffinePoint::identity().into_bytes(), small_bytes(1));
    // (0, -1)
    let minus_one = AffinePoint::from_raw_unchecked(Fq::zero(), Fq::one().neg());
    assert_eq!(
        minus_one.into_bytes(),
        [
            0, 0, 0, 0, 255, 255, 255, 255, 254, 91, 254, 255, 2, 164, 189, 83, 5, 216, 161, 9, 8,
            216, 57, 51, 72, 125, 157, 41, 83, 167, 237, 115,
        ]
    );
    // the generator has v = 11 and an even u; its negative has an odd u
    assert_eq!(generator().into_bytes(), small_bytes(11));
    let mut negative = small_bytes(11);
    negative[31] = 0x80;
    assert_eq!(generator().neg().into_bytes(), negative);
    assert_eq!(
        AffinePoint::from_extended(&base().double()).into_bytes(),
        [
            113, 154, 240, 230, 224, 198, 208, 170, 104, 15, 59, 126, 151, 222, 233, 195, 203, 195,
            167, 129, 89, 121, 240, 142, 51, 166, 64, 250, 184, 202, 154, 177,
        ]
    );
}

#[test]
fn decoding_round_trips() {
    let mut p = base();
    for _ in 0..5 {
        let a = AffinePoint::from_extended(&p);
        let back = AffinePoint::from_bytes(a.into_bytes());
        assert_eq!(back.is_some().unwrap_u8(), 1);
        assert_eq!(back.unwrap(), a);
        let n = a.neg();
        assert_eq!(AffinePoint::from_bytes(n.into_bytes()).unwrap(), n);
        p = p.double().add(&base());
    }
    assert_eq!(
        AffinePoint::from_bytes(small_bytes(1)).unwrap(),
        AffinePoint::identity()
    );
    assert_eq!(AffinePoint::from_bytes(small_bytes(11)).unwrap(), generator());
    let mut negative = small_bytes(11);
    negative[31] = 0x80;
    assert_eq!(AffinePoint::from_bytes(negative).unwrap(), generator().neg());
}

#[test]
fn decoding_gives_points_on_the_curve() {
    for n in [0u8, 1, 3, 5, 11] {
        let p = AffinePoint::from_bytes(small_bytes(n));
        assert_eq!(p.is_some().unwrap_u8(), 1);
        let p = p.unwrap();
        assert!(p.is_on_curve_vartime());
        assert_eq!(p.v, Fq::from_raw([n as u64, 0, 0, 0]));
        assert_eq!(p.u.lsb(), 0);
    }
}

#[test]
fn decoding_rejects_v_that_is_not_below_q() {
    let q_bytes = [
        1, 0, 0, 0, 255, 255, 255, 255, 254, 91, 254, 255, 2, 164, 189, 83, 5, 216, 161, 9, 8, 216,
        57, 51, 72, 125, 157, 41, 83, 167, 237, 115,
    ];
    // q stands for v = 0 only after reduction, and v = 0 decodes
    assert_eq!(AffinePoint::from_bytes([0u8; 32]).is_some().unwrap_u8(), 1);
    assert_eq!(AffinePoint::from_bytes(q_bytes).is_some().unwrap_u8(), 0);
    // q + 1 stands for v = 1, the neutral element, only after reduction
    let mut q_plus_one = q_bytes;
    q_plus_one[0] = 2;
    assert_eq!(AffinePoint::from_bytes(q_plus_one).is_some().unwrap_u8(), 0);
    let mut all = [0xffu8; 32];
    assert_eq!(AffinePoint::from_bytes(all).is_some().unwrap_u8(), 0);
    all[31] = 0x7f;
    assert_eq!(AffinePoint::from_bytes(all).is_some().unwrap_u8(), 0);
}

#[test]
fn decoding_rejects_v_without_a_point() {
    for n in [2u8, 4, 6, 7, 8, 9, 10, 12] {
        assert_eq!(AffinePoint::from_bytes(small_bytes(n)).is_some().unwrap_u8(), 0);
        let mut signed = small_bytes(n);
        signed[31] = 0x80;
        assert_eq!(AffinePoint::from_bytes(signed).is_some().unwrap_u8(), 0);
    }
}

#[test]
fn decoding_rejects_an_odd_parity_for_u_zero() {
    // v = 1 and v = -1 have u = 0
    let mut one = small_bytes(1);
    one[31] |= 0x80;
    assert_eq!(AffinePoint::from_bytes(one).is_some().unwrap_u8(), 0);
    let mut minus_one = [
        0, 0, 0, 0, 255, 255, 255, 255, 254, 91, 254, 255, 2, 164, 189, 83, 5, 216, 161, 9, 8, 216,
        57, 51, 72, 125, 157, 41, 83, 167, 237, 115,
    ];
    let p = AffinePoint::from_bytes(minus_one);
    assert_eq!(p.is_some().unwrap_u8(), 1);
    assert_eq!(p.unwrap().u, Fq::zero());
    minus_one[31] |= 0x80;
    assert_eq!(AffinePoint::from_bytes(minus_one).is_some().unwrap_u8(), 0);
}

#[test]
fn batch_normalize_sets_z_to_one() {
    let p = base();
    let mut v = vec![p, p.double(), p.double().add(&p), ExtendedPoint::identity()];
    let before = v.clone();
    let affine = batch_normalize(&mut v);
    assert_eq!(affine.len(), 4);
    for i in 0..4 {
        assert_eq!(v[i].z, Fq::one());
        assert_eq!(v[i].t1, v[i].u);
        assert_eq!(v[i].t2, v[i].v);
        assert_eq!(affine[i].u, v[i].u);
        assert_eq!(affine[i].v, v[i].v);
        assert_eq!(affine[i], AffinePoint::from_extended(&before[i]));
        assert_eq!(v[i], before[i]);
    }
    let once = v.clone();
    let again = batch_normalize(&mut v);
    for i in 0..4 {
        assert_eq!(again[i], affine[i]);
        assert_eq!(v[i].u, once[i].u);
        assert_eq!(v[i].v, once[i].v);
        assert_eq!(v[i].z, once[i].z);
        assert_eq!(v[i].t1, once[i].t1);
        assert_eq!(v[i].t2, once[i].t2);
    }
}

#[test]
fn batch_normalize_of_nothing_and_of_one() {
    let mut none: Vec<ExtendedPoint> = vec![];
    assert_eq!(batch_normalize(&mut none).len(), 0);
    let mut one = vec![base().double()];
    let affine = batch_normalize(&mut one);
    assert_eq!(affine[0], AffinePoint::from_extended(&base().double()));
    assert_eq!(one[0].z, Fq::one());
}

#[test]
fn batch_normalize_scales_by_zero_where_a_z_is_zero() {
    let mut broken = base();
    broken.z = Fq::zero();
    let mut v = vec![base(), broken, base().double()];
    let affine = batch_normalize(&mut v);
    for i in 0..3 {
        assert_eq!(affine[i].u, Fq::zero());
        assert_eq!(affine[i].v, Fq::zero());
        assert_eq!(v[i].z, Fq::one());
    }
}
