use jubjub::{Choice, ConditionallySelectable, CtOption, Fq, Fr, FR_MODULUS_BYTES};

const Q_BYTES: [u8; 32] = [
    1, 0, 0, 0, 255, 255, 255, 255, 254, 91, 254, 255, 2, 164, 189, 83, 5, 216, 161, 9, 8, 216, 57,
    51, 72, 125, 157, 41, 83, 167, 237, 115,
];

const Q_MINUS_ONE_BYTES: [u8; 32] = [
    0, 0, 0, 0, 255, 255, 255, 255, 254, 91, 254, 255, 2, 164, 189, 83, 5, 216, 161, 9, 8, 216, 57,
    51, 72, 125, 157, 41, 83, 167, 237, 115,
];

fn fq(n: u64) -> Fq {
    Fq::from_raw([n, 0, 0, 0])
}

fn small_bytes(n: u8) -> [u8; 32] {
    let mut b = [0u8; 32];
    b[0] = n;
    b
}

#[test]
fn choice_truth_tables() {
    let t = Choice::from_u8(1);
    let f = Choice::from_u8(0);
    assert_eq!(t.unwrap_u8(), 1);
    assert_eq!(f.unwrap_u8(), 0);
    assert_eq!(t.and(t).unwrap_u8(), 1);
    assert_eq!(t.and(f).unwrap_u8(), 0);
    assert_eq!(f.and(t).unwrap_u8(), 0);
    assert_eq!(f.and(f).unwrap_u8(), 0);
    assert_eq!(t.or(t).unwrap_u8(), 1);
    assert_eq!(t.or(f).unwrap_u8(), 1);
    assert_eq!(f.or(t).unwrap_u8(), 1);
    assert_eq!(f.or(f).unwrap_u8(), 0);
    assert_eq!(t.not().unwrap_u8(), 0);
    assert_eq!(f.not().unwrap_u8(), 1);
}

#[test]
fn ct_option_presence() {
    let some = CtOption::new(fq(5), Choice::from_u8(1));
    let none = CtOption::new(fq(5), Choice::from_u8(0));
    assert_eq!(some.is_some().unwrap_u8(), 1);
    assert_eq!(some.is_none().unwrap_u8(), 0);
    assert_eq!(none.is_some().unwrap_u8(), 0);
    assert_eq!(none.is_none().unwrap_u8(), 1);
    assert_eq!(some.unwrap(), fq(5));
    assert_eq!(some.unwrap_or(fq(9)), fq(5));
    assert_eq!(none.unwrap_or(fq(9)), fq(9));
    assert_eq!(some.unwrap_or_else(|| fq(9)), fq(5));
    assert_eq!(none.unwrap_or_else(|| fq(9)), fq(9));
}

#[test]
fn fq_select_picks_second_when_set() {
    let a = fq(3);
    let b = Fq::from_raw([7, 8, 9, 10]);
    assert_eq!(Fq::conditional_select(&a, &b, Choice::from_u8(0)), a);
    assert_eq!(Fq::conditional_select(&a, &b, Choice::from_u8(1)), b);
}

#[test]
fn fq_ct_eq_tells_limbs_apart() {
    let a = Fq::from_raw([1, 2, 3, 4]);
    assert_eq!(a.ct_eq(&a).unwrap_u8(), 1);
    assert_eq!(a.ct_eq(&Fq::from_raw([0, 2, 3, 4])).unwrap_u8(), 0);
    assert_eq!(a.ct_eq(&Fq::from_raw([1, 0, 3, 4])).unwrap_u8(), 0);
    assert_eq!(a.ct_eq(&Fq::from_raw([1, 2, 0, 4])).unwrap_u8(), 0);
    assert_eq!(a.ct_eq(&Fq::from_raw([1, 2, 3, 0])).unwrap_u8(), 0);
}

#[test]
fn fq_zero_and_one() {
    assert_eq!(Fq::zero().into_bytes(), [0u8; 32]);
    assert_eq!(Fq::one().into_bytes(), small_bytes(1));
    assert_eq!(Fq::zero(), fq(0));
    assert_eq!(Fq::one(), fq(1));
    assert_eq!(
        Fq::one(),
        Fq::from_montgomery([
            0x00000001fffffffe,
            0x5884b7fa00034802,
            0x998c4fefecbc4ff5,
            0x1824b159acc5056f,
        ])
    );
}

#[test]
fn fq_arithmetic_exact_values() {
    assert_eq!(fq(5).add(&fq(7)), fq(12));
    assert_eq!(fq(5).sub(&fq(7)).add(&fq(2)), Fq::zero());
    assert_eq!(fq(3).mul(&fq(5)), fq(15));
    assert_eq!(fq(9).square(), fq(81));
    assert_eq!(fq(9).double(), fq(18));
    assert_eq!(Fq::one().neg().into_bytes(), Q_MINUS_ONE_BYTES);
    assert_eq!(Fq::zero().neg(), Fq::zero());
    assert_eq!(Fq::one().neg().add(&fq(2)), Fq::one());
    assert_eq!(Fq::one().neg().mul(&Fq::one().neg()), Fq::one());
    assert_eq!(Fq::zero().sub(&Fq::one()).into_bytes(), Q_MINUS_ONE_BYTES);
}

#[test]
fn fq_from_raw_reduces() {
    let q = [
        0xffffffff00000001,
        0x53bda402fffe5bfe,
        0x3339d80809a1d805,
        0x73eda753299d7d48,
    ];
    assert_eq!(Fq::from_raw(q), Fq::zero());
    assert_eq!(
        Fq::from_raw([0xffffffff00000003, q[1], q[2], q[3]]),
        fq(2)
    );
    // 2^256 - 1 = 2^256 mod q - 1
    assert_eq!(
        Fq::from_raw([u64::MAX; 4]),
        Fq::from_raw([
            0x00000001fffffffd,
            0x5884b7fa00034802,
            0x998c4fefecbc4ff5,
            0x1824b159acc5056f,
        ])
    );
}

#[test]
fn fq_bytes_round_trip() {
    let a = Fq::from_raw([
        0x0123456789abcdef,
        0xfedcba9876543210,
        0x0f1e2d3c4b5a6978,
        0x1122334455667788,
    ]);
    let bytes = a.into_bytes();
    assert_eq!(
        bytes,
        [
            0xef, 0xcd, 0xab, 0x89, 0x67, 0x45, 0x23, 0x01, 0x10, 0x32, 0x54, 0x76, 0x98, 0xba,
            0xdc, 0xfe, 0x78, 0x69, 0x5a, 0x4b, 0x3c, 0x2d, 0x1e, 0x0f, 0x88, 0x77, 0x66, 0x55,
            0x44, 0x33, 0x22, 0x11,
        ]
    );
    let back = Fq::from_bytes(bytes);
    assert_eq!(back.is_some().unwrap_u8(), 1);
    assert_eq!(back.unwrap(), a);
}

#[test]
fn fq_from_bytes_rejects_what_is_not_below_q() {
    assert_eq!(Fq::from_bytes(Q_BYTES).is_some().unwrap_u8(), 0);
    assert_eq!(Fq::from_bytes([0xff; 32]).is_some().unwrap_u8(), 0);
    let largest = Fq::from_bytes(Q_MINUS_ONE_BYTES);
    assert_eq!(largest.is_some().unwrap_u8(), 1);
    assert_eq!(largest.unwrap(), Fq::one().neg());
}

#[test]
fn fq_invert() {
    assert_eq!(Fq::zero().invert().is_some().unwrap_u8(), 0);
    assert_eq!(Fq::one().invert().unwrap(), Fq::one());
    let half = fq(2).invert().unwrap();
    assert_eq!(
        half,
        Fq::from_raw([
            0x7fffffff80000001,
            0xa9ded2017fff2dff,
            0x199cec0404d0ec02,
            0x39f6d3a994cebea4,
        ])
    );
    assert_eq!(half.mul(&fq(2)), Fq::one());
    let a = Fq::from_raw([11, 22, 33, 44]);
    assert_eq!(a.invert().unwrap().mul(&a), Fq::one());
}

#[test]
fn fq_pow_vartime() {
    assert_eq!(fq(2).pow_vartime(&[10, 0, 0, 0]), fq(1024));
    assert_eq!(fq(3).pow_vartime(&[0, 0, 0, 0]), Fq::one());
    assert_eq!(fq(3).pow_vartime(&[1, 0, 0, 0]), fq(3));
    // 2^(2^64) is 2^(2^63) squared
    let a = fq(2).pow_vartime(&[1 << 63, 0, 0, 0]);
    assert_eq!(fq(2).pow_vartime(&[0, 1, 0, 0]), a.square());
    // Fermat: a^(q - 1) = 1
    assert_eq!(
        fq(7).pow_vartime(&[
            0xffffffff00000000,
            0x53bda402fffe5bfe,
            0x3339d80809a1d805,
            0x73eda753299d7d48,
        ]),
        Fq::one()
    );
}

#[test]
fn fq_sqrt() {
    let root = fq(4).sqrt();
    assert_eq!(root.is_some().unwrap_u8(), 1);
    let root = root.unwrap();
    assert!(root == fq(2) || root == fq(2).neg());
    assert_eq!(Fq::zero().sqrt().unwrap(), Fq::zero());
    assert_eq!(Fq::one().sqrt().unwrap().square(), Fq::one());
    // 7 generates the multiplicative group, so it is no square
    assert_eq!(fq(7).sqrt().is_none().unwrap_u8(), 1);
    let a = Fq::from_raw([5, 6, 7, 8]).square();
    assert_eq!(a.sqrt().unwrap().square(), a);
}

#[test]
fn fq_root_of_unity_has_order_two_to_the_thirty_two() {
    let mut z = Fq::root_of_unity();
    for _ in 0..31 {
        z = z.square();
    }
    assert_eq!(z, Fq::one().neg());
    assert_eq!(z.square(), Fq::one());
}

#[test]
fn fq_lsb() {
    assert_eq!(Fq::zero().lsb(), 0);
    assert_eq!(Fq::one().lsb(), 1);
    assert_eq!(fq(6).lsb(), 0);
    // q - 1 is even
    assert_eq!(Fq::one().neg().lsb(), 0);
}

#[test]
fn fr_arithmetic_exact_values() {
    assert_eq!(Fr::from_u64(5).add(&Fr::from_u64(7)), Fr::from_u64(12));
    assert_eq!(Fr::from_u64(5).sub(&Fr::from_u64(7)).add(&Fr::from_u64(2)), Fr::zero());
    assert_eq!(Fr::from_u64(1000).mul(&Fr::from_u64(3938)), Fr::from_u64(3938000));
    assert_eq!(Fr::from_u64(9).square(), Fr::from_u64(81));
    assert_eq!(Fr::from_u64(9).double(), Fr::from_u64(18));
    assert_eq!(Fr::one().neg().add(&Fr::one()), Fr::zero());
    assert_eq!(Fr::one(), Fr::from_u64(1));
    assert_eq!(Fr::zero(), Fr::from_u64(0));
    assert_eq!(Fr::from_u64(3).ct_eq(&Fr::from_u64(3)).unwrap_u8(), 1);
    assert_eq!(Fr::from_u64(3).ct_eq(&Fr::from_u64(4)).unwrap_u8(), 0);
    assert_eq!(
        Fr::conditional_select(&Fr::from_u64(3), &Fr::from_u64(4), Choice::from_u8(1)),
        Fr::from_u64(4)
    );
}

#[test]
fn fr_bytes_and_modulus() {
    let mut expected = [0u8; 32];
    expected[0] = 0x34;
    expected[1] = 0x12;
    assert_eq!(Fr::from_u64(0x1234).into_bytes(), expected);
    let r = [
        0xd0970e5ed6f72cb7,
        0xa6682093ccc81082,
        0x06673b0101343b00,
        0x0e7db4ea6533afa9,
    ];
    assert_eq!(Fr::from_raw(r), Fr::zero());
    let mut bytes = Fr::from_raw([r[0] - 1, r[1], r[2], r[3]]).into_bytes();
    assert_eq!(bytes, Fr::one().neg().into_bytes());
    bytes[0] += 1;
    assert_eq!(bytes, FR_MODULUS_BYTES);
    // the four highest bits of every scalar are clear
    assert_eq!(FR_MODULUS_BYTES[31] >> 4, 0);
}
