//! Packed 16-lane byte-field operations on a 128-bit word, and the
//! isomorphism between the byte tower field and the AES (Rijndael) field.
//!
//! A `M128` value is a 128-bit SIMD word read as 16 independent scalars of
//! the byte tower field F_3; every operation applies lanewise.

use vstd::prelude::*;
use crate::tower::{
    t_mul, t_malpha, t_inv, mul_l3, malpha_l3, inv_l3, lemma_xor_l3, t_add,
};

verus! {

/// A 128-bit word holding 16 byte-field lanes.
pub struct M128 {
    pub lanes: Vec<u8>,
}

impl M128 {
    /// Well-formed packed words hold exactly 16 lanes.
    pub open spec fn wf(&self) -> bool {
        self.lanes@.len() == 16
    }

    /// Build a packed word from 16 bytes, little-endian lane order.
    pub fn from_le_bytes(bytes: Vec<u8>) -> (r: M128)
        requires
            bytes@.len() == 16,
        ensures
            r.wf(),
            r.lanes@ == bytes@,
    {
        M128 { lanes: bytes }
    }
}

/// Image of a byte tower-field element under the isomorphism onto the AES
/// field, determined by the images of the eight monomial basis elements.
pub open spec fn to_aes_spec(x: u8) -> u8 {
    (if x & 0x01 != 0 {
        0x01u8
    } else {
        0u8
    }) ^ (if x & 0x02 != 0 {
        0xBCu8
    } else {
        0u8
    }) ^ (if x & 0x04 != 0 {
        0xB0u8
    } else {
        0u8
    }) ^ (if x & 0x08 != 0 {
        0xECu8
    } else {
        0u8
    }) ^ (if x & 0x10 != 0 {
        0xD3u8
    } else {
        0u8
    }) ^ (if x & 0x20 != 0 {
        0x8Du8
    } else {
        0u8
    }) ^ (if x & 0x40 != 0 {
        0x2Eu8
    } else {
        0u8
    }) ^ (if x & 0x80 != 0 {
        0x58u8
    } else {
        0u8
    })
}

/// Image of an AES-field element under the inverse isomorphism back onto the
/// byte tower field.
pub open spec fn to_tower_spec(x: u8) -> u8 {
    (if x & 0x01 != 0 {
        0x01u8
    } else {
        0u8
    }) ^ (if x & 0x02 != 0 {
        0x3Cu8
    } else {
        0u8
    }) ^ (if x & 0x04 != 0 {
        0x8Cu8
    } else {
        0u8
    }) ^ (if x & 0x08 != 0 {
        0x8Au8
    } else {
        0u8
    }) ^ (if x & 0x10 != 0 {
        0x59u8
    } else {
        0u8
    }) ^ (if x & 0x20 != 0 {
        0x7Au8
    } else {
        0u8
    }) ^ (if x & 0x40 != 0 {
        0x53u8
    } else {
        0u8
    }) ^ (if x & 0x80 != 0 {
        0x27u8
    } else {
        0u8
    })
}

/// The two basis-change maps invert each other, so the correspondence with
/// the AES field is a bijection.
pub proof fn lemma_iso_bijective(x: u8)
    ensures
        to_tower_spec(to_aes_spec(x)) == x,
        to_aes_spec(to_tower_spec(x)) == x,
{
    assert(to_tower_spec(to_aes_spec(x)) == x) by (bit_vector);
    assert(to_aes_spec(to_tower_spec(x)) == x) by (bit_vector);
}

/// The basis change is additive: it respects field addition (XOR).
pub proof fn lemma_iso_additive(x: u8, y: u8)
    ensures
        to_aes_spec(x ^ y) == to_aes_spec(x) ^ to_aes_spec(y),
        to_aes_spec(x ^ y) as nat == t_add(3, to_aes_spec(x) as nat, to_aes_spec(y) as nat),
{
    assert(to_aes_spec(x ^ y) == to_aes_spec(x) ^ to_aes_spec(y)) by (bit_vector);
    lemma_xor_l3(to_aes_spec(x), to_aes_spec(y));
}

/// Doubling step of AES-field multiplication: multiply by the polynomial x
/// and reduce by x^8 + x^4 + x^3 + x + 1.
pub open spec fn aes_xtime(a: u8) -> u8 {
    ((a & 0x7f) << 1) ^ (if a >= 0x80 {
        0x1bu8
    } else {
        0u8
    })
}

/// AES-field (Rijndael GF(2^8)) multiplication, by shift-and-add.
pub open spec fn aes_mul_spec(a: u8, b: u8) -> u8
    decreases b,
{
    if b == 0 {
        0
    } else {
        (if b % 2 == 1 {
            a
        } else {
            0
        }) ^ aes_mul_spec(aes_xtime(a), b / 2)
    }
}

/// AES-field multiplication of two bytes.
pub fn aes_mul(a: u8, b: u8) -> (r: u8)
    ensures
        r == aes_mul_spec(a, b),
{
    let mut acc: u8 = 0;
    let mut x: u8 = a;
    let mut y: u8 = b;
    proof {
        assert(acc ^ aes_mul_spec(x, y) == aes_mul_spec(x, y)) by {
            let z = aes_mul_spec(x, y);
            assert(0u8 ^ z == z) by (bit_vector);
        }
    }
    while y != 0
        invariant
            acc ^ aes_mul_spec(x, y) == aes_mul_spec(a, b),
        decreases y,
    {
        let ghost x0 = x;
        let ghost y0 = y;
        let ghost acc0 = acc;
        if y & 1 == 1 {
            acc = acc ^ x;
        }
        x = ((x & 0x7f) << 1) ^ (if x >= 0x80 {
            0x1bu8
        } else {
            0u8
        });
        y = y >> 1;
        proof {
            assert(y == y0 / 2 && (y0 & 1 == 1 <==> y0 % 2 == 1) && y0 / 2 < y0) by (bit_vector)
                requires
                    y == y0 >> 1,
                    y0 != 0,
            ;
            assert(x == aes_xtime(x0));
            let s = aes_mul_spec(x, y);
            let sel = if y0 % 2 == 1 {
                x0
            } else {
                0u8
            };
            assert(aes_mul_spec(x0, y0) == sel ^ s);
            assert((acc0 ^ (sel ^ s)) == (acc0 ^ sel) ^ s) by (bit_vector);
            assert(acc == acc0 ^ sel) by {
                assert(acc0 ^ 0u8 == acc0) by (bit_vector);
            }
        }
    }
    proof {
        assert(acc ^ aes_mul_spec(x, 0u8) == acc) by {
            let z = aes_mul_spec(x, 0u8);
            assert(z == 0);
            assert(acc ^ 0u8 == acc) by (bit_vector);
        }
    }
    acc
}

/// Basis change of one byte from the tower field to the AES field.
pub fn to_aes(x: u8) -> (r: u8)
    ensures
        r == to_aes_spec(x),
{
    (if x & 0x01 != 0 {
        0x01u8
    } else {
        0u8
    }) ^ (if x & 0x02 != 0 {
        0xBCu8
    } else {
        0u8
    }) ^ (if x & 0x04 != 0 {
        0xB0u8
    } else {
        0u8
    }) ^ (if x & 0x08 != 0 {
        0xECu8
    } else {
        0u8
    }) ^ (if x & 0x10 != 0 {
        0xD3u8
    } else {
        0u8
    }) ^ (if x & 0x20 != 0 {
        0x8Du8
    } else {
        0u8
    }) ^ (if x & 0x40 != 0 {
        0x2Eu8
    } else {
        0u8
    }) ^ (if x & 0x80 != 0 {
        0x58u8
    } else {
        0u8
    })
}

/// Basis change of one byte from the AES field back to the tower field.
pub fn to_tower(x: u8) -> (r: u8)
    ensures
        r == to_tower_spec(x),
{
    (if x & 0x01 != 0 {
        0x01u8
    } else {
        0u8
    }) ^ (if x & 0x02 != 0 {
        0x3Cu8
    } else {
        0u8
    }) ^ (if x & 0x04 != 0 {
        0x8Cu8
    } else {
        0u8
    }) ^ (if x & 0x08 != 0 {
        0x8Au8
    } else {
        0u8
    }) ^ (if x & 0x10 != 0 {
        0x59u8
    } else {
        0u8
    }) ^ (if x & 0x20 != 0 {
        0x7Au8
    } else {
        0u8
    }) ^ (if x & 0x40 != 0 {
        0x53u8
    } else {
        0u8
    }) ^ (if x & 0x80 != 0 {
        0x27u8
    } else {
        0u8
    })
}

/// Lanewise multiplication of 16 byte tower-field scalars.
pub fn packed_tower_16x8b_multiply(a: M128, b: M128) -> (r: M128)
    requires
        a.wf(),
        b.wf(),
    ensures
        r.wf(),
        forall|i: int|
            0 <= i < 16 ==> r.lanes@[i] as nat == t_mul(3, a.lanes@[i] as nat, b.lanes@[i] as nat),
{
    let mut out: Vec<u8> = Vec::new();
    let mut i: usize = 0;
    while i < 16
        invariant
            a.wf(),
            b.wf(),
            i <= 16,
            out@.len() == i,
            forall|j: int|
                0 <= j < i ==> out@[j] as nat == t_mul(
                    3,
                    a.lanes@[j] as nat,
                    b.lanes@[j] as nat,
                ),
        decreases 16 - i,
    {
        out.push(mul_l3(a.lanes[i], b.lanes[i]));
        i = i + 1;
    }
    M128 { lanes: out }
}

/// Lanewise squaring of 16 byte tower-field scalars.
pub fn packed_tower_16x8b_square(x: M128) -> (r: M128)
    requires
        x.wf(),
    ensures
        r.wf(),
        forall|i: int|
            0 <= i < 16 ==> r.lanes@[i] as nat == t_mul(3, x.lanes@[i] as nat, x.lanes@[i] as nat),
{
    let mut out: Vec<u8> = Vec::new();
    let mut i: usize = 0;
    while i < 16
        invariant
            x.wf(),
            i <= 16,
            out@.len() == i,
            forall|j: int|
                0 <= j < i ==> out@[j] as nat == t_mul(
                    3,
                    x.lanes@[j] as nat,
                    x.lanes@[j] as nat,
                ),
        decreases 16 - i,
    {
        out.push(mul_l3(x.lanes[i], x.lanes[i]));
        i = i + 1;
    }
    M128 { lanes: out }
}

/// Lanewise inverse-or-zero of 16 byte tower-field scalars.
pub fn packed_tower_16x8b_invert_or_zero(x: M128) -> (r: M128)
    requires
        x.wf(),
    ensures
        r.wf(),
        forall|i: int| 0 <= i < 16 ==> r.lanes@[i] as nat == t_inv(3, x.lanes@[i] as nat),
{
    let mut out: Vec<u8> = Vec::new();
    let mut i: usize = 0;
    while i < 16
        invariant
            x.wf(),
            i <= 16,
            out@.len() == i,
            forall|j: int| 0 <= j < i ==> out@[j] as nat == t_inv(3, x.lanes@[j] as nat),
        decreases 16 - i,
    {
        out.push(inv_l3(x.lanes[i]));
        i = i + 1;
    }
    M128 { lanes: out }
}

/// Lanewise multiplication by the extension variable (the scalar 0x10).
pub fn packed_tower_16x8b_multiply_alpha(x: M128) -> (r: M128)
    requires
        x.wf(),
    ensures
        r.wf(),
        forall|i: int| 0 <= i < 16 ==> r.lanes@[i] as nat == t_malpha(3, x.lanes@[i] as nat),
{
    let mut out: Vec<u8> = Vec::new();
    let mut i: usize = 0;
    while i < 16
        invariant
            x.wf(),
            i <= 16,
            out@.len() == i,
            forall|j: int| 0 <= j < i ==> out@[j] as nat == t_malpha(3, x.lanes@[j] as nat),
        decreases 16 - i,
    {
        out.push(malpha_l3(x.lanes[i]));
        i = i + 1;
    }
    M128 { lanes: out }
}

/// Lanewise basis change of 16 tower-field scalars into the AES field.
pub fn packed_tower_16x8b_into_aes(x: M128) -> (r: M128)
    requires
        x.wf(),
    ensures
        r.wf(),
        forall|i: int| 0 <= i < 16 ==> r.lanes@[i] == to_aes_spec(x.lanes@[i]),
{
    let mut out: Vec<u8> = Vec::new();
    let mut i: usize = 0;
    while i < 16
        invariant
            x.wf(),
            i <= 16,
            out@.len() == i,
            forall|j: int| 0 <= j < i ==> out@[j] == to_aes_spec(x.lanes@[j]),
        decreases 16 - i,
    {
        out.push(to_aes(x.lanes[i]));
        i = i + 1;
    }
    M128 { lanes: out }
}

/// Lanewise basis change of 16 AES-field scalars back into the tower field.
pub fn packed_aes_16x8b_into_tower(x: M128) -> (r: M128)
    requires
        x.wf(),
    ensures
        r.wf(),
        forall|i: int| 0 <= i < 16 ==> r.lanes@[i] == to_tower_spec(x.lanes@[i]),
{
    let mut out: Vec<u8> = Vec::new();
    let mut i: usize = 0;
    while i < 16
        invariant
            x.wf(),
            i <= 16,
            out@.len() == i,
            forall|j: int| 0 <= j < i ==> out@[j] == to_tower_spec(x.lanes@[j]),
        decreases 16 - i,
    {
        out.push(to_tower(x.lanes[i]));
        i = i + 1;
    }
    M128 { lanes: out }
}

/// Lanewise AES-field multiplication of 16 scalars.
pub fn packed_aes_16x8b_multiply(a: M128, b: M128) -> (r: M128)
    requires
        a.wf(),
        b.wf(),
    ensures
        r.wf(),
        forall|i: int| 0 <= i < 16 ==> r.lanes@[i] == aes_mul_spec(a.lanes@[i], b.lanes@[i]),
{
    let mut out: Vec<u8> = Vec::new();
    let mut i: usize = 0;
    while i < 16
        invariant
            a.wf(),
            b.wf(),
            i <= 16,
            out@.len() == i,
            forall|j: int| 0 <= j < i ==> out@[j] == aes_mul_spec(a.lanes@[j], b.lanes@[j]),
        decreases 16 - i,
    {
        out.push(aes_mul(a.lanes[i], b.lanes[i]));
        i = i + 1;
    }
    M128 { lanes: out }
}

/// Lanewise AES-field multiplication by the image 0xD3 of the extension
/// variable 0x10 under the basis change.
pub fn packed_aes_16x8b_mul_alpha(x: M128) -> (r: M128)
    requires
        x.wf(),
    ensures
        r.wf(),
        forall|i: int| 0 <= i < 16 ==> r.lanes@[i] == aes_mul_spec(x.lanes@[i], 0xD3),
{
    let mut out: Vec<u8> = Vec::new();
    let mut i: usize = 0;
    while i < 16
        invariant
            x.wf(),
            i <= 16,
            out@.len() == i,
            forall|j: int| 0 <= j < i ==> out@[j] == aes_mul_spec(x.lanes@[j], 0xD3),
        decreases 16 - i,
    {
        out.push(aes_mul(x.lanes[i], 0xD3));
        i = i + 1;
    }
    M128 { lanes: out }
}

/// Lanewise AES-field inverse-or-zero, computed through the basis change and
/// the tower-field inverse.
pub fn packed_aes_16x8b_invert_or_zero(x: M128) -> (r: M128)
    requires
        x.wf(),
    ensures
        r.wf(),
        forall|i: int|
            0 <= i < 16 ==> r.lanes@[i] == to_aes_spec(
                (t_inv(3, to_tower_spec(x.lanes@[i]) as nat)) as u8,
            ),
{
    let mut out: Vec<u8> = Vec::new();
    let mut i: usize = 0;
    while i < 16
        invariant
            x.wf(),
            i <= 16,
            out@.len() == i,
            forall|j: int|
                0 <= j < i ==> out@[j] == to_aes_spec(
                    (t_inv(3, to_tower_spec(x.lanes@[j]) as nat)) as u8,
                ),
        decreases 16 - i,
    {
        let t: u8 = to_tower(x.lanes[i]);
        let v: u8 = inv_l3(t);
        proof {
            assert(v as nat == t_inv(3, to_tower_spec(x.lanes@[i as int]) as nat));
            assert((t_inv(3, to_tower_spec(x.lanes@[i as int]) as nat)) as u8 == v);
        }
        out.push(to_aes(v));
        i = i + 1;
    }
    M128 { lanes: out }
}



} // verus!
