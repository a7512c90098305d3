use tower_pcs::tower::{add_l3, add_l7, mul_l3, mul_l7, inv_l3, malpha_l3};
use tower_pcs::packed::{
    aes_mul, to_aes, to_tower, M128, packed_tower_16x8b_multiply, packed_tower_16x8b_square,
    packed_tower_16x8b_invert_or_zero, packed_tower_16x8b_multiply_alpha,
    packed_tower_16x8b_into_aes, packed_aes_16x8b_into_tower, packed_aes_16x8b_multiply,
    packed_aes_16x8b_mul_alpha, packed_aes_16x8b_invert_or_zero,
};

/// The multiplicative generator of the byte tower field.
const GEN: u8 = 0x13;

fn pow_l3(mut base: u8, mut exp: u32) -> u8 {
    let mut acc: u8 = 1;
    while exp > 0 {
        if exp & 1 == 1 {
            acc = mul_l3(acc, base);
        }
        base = mul_l3(base, base);
        exp >>= 1;
    }
    acc
}

#[test]
fn test_generator_order() {
    // g^255 = 1 and g^k != 1 for 1 <= k < 255.
    let mut x: u8 = 1;
    for k in 1..=255u32 {
        x = mul_l3(x, GEN);
        if k < 255 {
            assert_ne!(x, 1, "generator order divides {}", k);
        }
    }
    assert_eq!(x, 1);
}

#[test]
fn test_generator_inverse_powers() {
    // invert_or_zero(g^k) == g^(255-k).
    for k in 0..=255u32 {
        let gk = pow_l3(GEN, k);
        assert_eq!(inv_l3(gk), pow_l3(GEN, 255 - k));
    }
}

#[test]
fn test_inverse_law_exhaustive() {
    assert_eq!(inv_l3(0), 0);
    for x in 1..=255u8 {
        assert_eq!(mul_l3(x, inv_l3(x)), 1);
    }
}

#[test]
fn test_field_laws_bytes() {
    // Commutativity, associativity and distributivity on a dense sample.
    for a in (0..=255u8).step_by(7) {
        for b in (0..=255u8).step_by(11) {
            assert_eq!(add_l3(a, b), add_l3(b, a));
            assert_eq!(mul_l3(a, b), mul_l3(b, a));
            for c in (0..=255u8).step_by(31) {
                assert_eq!(mul_l3(mul_l3(a, b), c), mul_l3(a, mul_l3(b, c)));
                assert_eq!(
                    mul_l3(a, add_l3(b, c)),
                    add_l3(mul_l3(a, b), mul_l3(a, c))
                );
            }
        }
    }
}

#[test]
fn test_field_laws_128() {
    let vals: [u128; 4] = [
        0x0123_4567_89ab_cdef_0011_2233_4455_6677,
        0xdead_beef_0bad_cafe_1234_5678_9abc_def0,
        2,
        0x8000_0000_0000_0000_0000_0000_0000_0001,
    ];
    for &a in &vals {
        assert_eq!(mul_l7(a, 1), a);
        for &b in &vals {
            assert_eq!(add_l7(a, b), add_l7(b, a));
            assert_eq!(mul_l7(a, b), mul_l7(b, a));
            for &c in &vals {
                assert_eq!(mul_l7(mul_l7(a, b), c), mul_l7(a, mul_l7(b, c)));
                assert_eq!(mul_l7(a, add_l7(b, c)), add_l7(mul_l7(a, b), mul_l7(a, c)));
            }
        }
    }
}

#[test]
fn test_iso_bijective_exhaustive() {
    for x in 0..=255u8 {
        assert_eq!(to_tower(to_aes(x)), x);
        assert_eq!(to_aes(to_tower(x)), x);
    }
}

#[test]
fn test_iso_multiplicative_exhaustive() {
    // The basis change carries tower multiplication to AES multiplication.
    for a in 0..=255u16 {
        for b in 0..=255u16 {
            let (a, b) = (a as u8, b as u8);
            assert_eq!(to_aes(mul_l3(a, b)), aes_mul(to_aes(a), to_aes(b)));
        }
    }
}

#[test]
fn test_alpha_corresponds_to_0xd3() {
    assert_eq!(to_tower(0xD3), 0x10);
    for x in 0..=255u8 {
        assert_eq!(to_aes(malpha_l3(x)), aes_mul(to_aes(x), 0xD3));
    }
}

fn lanes(xs: [u8; 16]) -> M128 {
    M128::from_le_bytes(xs.to_vec())
}

#[test]
fn test_packed_lanewise() {
    let a = [1u8, 2, 3, 4, 5, 6, 7, 8, 9, 10, 11, 12, 13, 14, 15, 16];
    let b = [0x13u8, 0x55, 0, 1, 2, 0xff, 0x80, 0x40, 7, 7, 7, 7, 1, 2, 3, 4];
    let prod = packed_tower_16x8b_multiply(lanes(a), lanes(b));
    for i in 0..16 {
        assert_eq!(prod.lanes[i], mul_l3(a[i], b[i]));
    }
    let sq = packed_tower_16x8b_square(lanes(a));
    let inv = packed_tower_16x8b_invert_or_zero(lanes(a));
    let ma = packed_tower_16x8b_multiply_alpha(lanes(a));
    for i in 0..16 {
        assert_eq!(sq.lanes[i], mul_l3(a[i], a[i]));
        assert_eq!(mul_l3(inv.lanes[i], a[i]), if a[i] == 0 { 0 } else { 1 });
        assert_eq!(ma.lanes[i], mul_l3(a[i], 0x10));
    }
    let aes = packed_tower_16x8b_into_aes(lanes(a));
    let back = packed_aes_16x8b_into_tower(M128 { lanes: aes.lanes.clone() });
    assert_eq!(back.lanes, a.to_vec());
    let am = packed_aes_16x8b_multiply(M128 { lanes: aes.lanes.clone() }, packed_tower_16x8b_into_aes(lanes(b)));
    for i in 0..16 {
        assert_eq!(am.lanes[i], to_aes(mul_l3(a[i], b[i])));
    }
    let ama = packed_aes_16x8b_mul_alpha(M128 { lanes: aes.lanes.clone() });
    let ainv = packed_aes_16x8b_invert_or_zero(M128 { lanes: aes.lanes.clone() });
    for i in 0..16 {
        assert_eq!(ama.lanes[i], aes_mul(to_aes(a[i]), 0xD3));
        assert_eq!(ainv.lanes[i], to_aes(inv_l3(a[i])));
    }
}
