//! Binary tower fields F_k = GF(2^(2^k)) for k = 0..=7.
//!
//! An element of F_k is a natural number below 2^(2^k).  For k >= 1 an
//! element splits into a pair (lo, hi) of F_(k-1) elements, read as
//! lo + hi * X_(k-1), where the extension variable X_(k-1) satisfies
//! X_(k-1)^2 = X_(k-1) * X_(k-2) + 1 (and X_0^2 = X_0 + 1 at the bottom).
//! Addition is bitwise XOR at every level.

use vstd::prelude::*;
use vstd::arithmetic::power2::pow2;

verus! {

/// Number of elements of F_k.
pub open spec fn level_size(k: nat) -> nat {
    pow2(pow2(k))
}

/// Is `a` an element of F_k?
pub open spec fn in_field(k: nat, a: nat) -> bool {
    a < level_size(k)
}

/// Low half of an F_k element, an element of F_(k-1).
pub open spec fn t_lo(k: nat, a: nat) -> nat
    recommends
        k >= 1,
{
    a % level_size((k - 1) as nat)
}

/// High half of an F_k element, an element of F_(k-1).
pub open spec fn t_hi(k: nat, a: nat) -> nat
    recommends
        k >= 1,
{
    a / level_size((k - 1) as nat)
}

/// Rebuild an F_k element from its halves.
pub open spec fn t_join(k: nat, l: nat, h: nat) -> nat
    recommends
        k >= 1,
{
    l + level_size((k - 1) as nat) * h
}

/// Field addition in F_k: bitwise XOR, written over the (lo, hi) split.
pub open spec fn t_add(k: nat, a: nat, b: nat) -> nat
    decreases k,
{
    if k == 0 {
        if a == b {
            0
        } else {
            1
        }
    } else {
        t_join(
            k,
            t_add((k - 1) as nat, t_lo(k, a), t_lo(k, b)),
            t_add((k - 1) as nat, t_hi(k, a), t_hi(k, b)),
        )
    }
}

/// Multiplication of an F_k element by the extension variable X_(k-1).
///
/// (x0 + x1 X) * X = x1 + (x0 + x1 * X_(k-2)) X, and at level 1 the
/// designated constant is 1, so the recursion bottoms out at the identity.
pub open spec fn t_malpha(k: nat, x: nat) -> nat
    decreases k,
{
    if k == 0 {
        x
    } else {
        t_join(
            k,
            t_hi(k, x),
            t_add((k - 1) as nat, t_lo(k, x), t_malpha((k - 1) as nat, t_hi(k, x))),
        )
    }
}

/// Field multiplication in F_k.
///
/// (a0 + a1 X)(b0 + b1 X) = (a0 b0 + a1 b1) + (a0 b1 + a1 b0 + a1 b1 X_(k-2)) X.
pub open spec fn t_mul(k: nat, a: nat, b: nat) -> nat
    decreases k,
{
    if k == 0 {
        a * b
    } else {
        let j = (k - 1) as nat;
        let ll = t_mul(j, t_lo(k, a), t_lo(k, b));
        let lh = t_mul(j, t_lo(k, a), t_hi(k, b));
        let hl = t_mul(j, t_hi(k, a), t_lo(k, b));
        let hh = t_mul(j, t_hi(k, a), t_hi(k, b));
        t_join(k, t_add(j, ll, hh), t_add(j, t_add(j, lh, hl), t_malpha(j, hh)))
    }
}

/// Inverse-or-zero in F_k, by the closed form over the (lo, hi) split.
///
/// For a = a0 + a1 X the conjugate a0 + a1 X_(k-2) + a1 X has product
/// delta = a0^2 + a0 a1 X_(k-2) + a1^2 with a, an element of F_(k-1);
/// the inverse is the conjugate scaled by delta^-1.  Zero maps to zero.
pub open spec fn t_inv(k: nat, a: nat) -> nat
    decreases k,
{
    if k == 0 {
        a
    } else {
        let j = (k - 1) as nat;
        let a0 = t_lo(k, a);
        let a1 = t_hi(k, a);
        let delta = t_add(
            j,
            t_add(j, t_mul(j, a0, a0), t_malpha(j, t_mul(j, a0, a1))),
            t_mul(j, a1, a1),
        );
        let di = t_inv(j, delta);
        t_join(k, t_mul(j, t_add(j, a0, t_malpha(j, a1)), di), t_mul(j, a1, di))
    }
}

/// Concrete field sizes for the levels the executable code works at.
pub proof fn lemma_level_size_values()
    ensures
        level_size(0) == 2,
        level_size(1) == 4,
        level_size(2) == 16,
        level_size(3) == 256,
        level_size(4) == 0x10000,
        level_size(5) == 0x1_0000_0000,
        level_size(6) == 0x1_0000_0000_0000_0000,
        level_size(7) == 0x1_0000_0000_0000_0000_0000_0000_0000_0000,
{
    vstd::arithmetic::power2::lemma2_to64();
    vstd::arithmetic::power2::lemma2_to64_rest();
    assert(pow2(128) == pow2(64) * pow2(64)) by {
        vstd::arithmetic::power2::lemma_pow2_adds(64, 64);
    }
}

/// Addition stays inside the field.
pub proof fn lemma_t_add_range(k: nat, a: nat, b: nat)
    requires
        in_field(k, a),
        in_field(k, b),
    ensures
        in_field(k, t_add(k, a, b)),
    decreases k,
{
    if k == 0 {
        assert(level_size(0) == 2) by {
            lemma_level_size_values();
        }
    } else {
        let j = (k - 1) as nat;
        let h = level_size(j);
        assert(h >= 1) by {
            vstd::arithmetic::power2::lemma_pow2_pos(pow2(j));
        }
        lemma_split_range(k, a);
        lemma_split_range(k, b);
        lemma_t_add_range(j, t_lo(k, a), t_lo(k, b));
        lemma_t_add_range(j, t_hi(k, a), t_hi(k, b));
        lemma_join_range(k, t_add(j, t_lo(k, a), t_lo(k, b)), t_add(j, t_hi(k, a), t_hi(k, b)));
    }
}

/// The halves of a field element are field elements one level down.
pub proof fn lemma_split_range(k: nat, a: nat)
    requires
        k >= 1,
        in_field(k, a),
    ensures
        in_field((k - 1) as nat, t_lo(k, a)),
        in_field((k - 1) as nat, t_hi(k, a)),
{
    let j = (k - 1) as nat;
    let h = level_size(j);
    assert(h >= 1) by {
        vstd::arithmetic::power2::lemma_pow2_pos(pow2(j));
    }
    lemma_level_size_square(k);
    assert(t_lo(k, a) < h) by {
        vstd::arithmetic::div_mod::lemma_mod_bound(a as int, h as int);
    }
    assert(t_hi(k, a) < h) by {
        vstd::arithmetic::div_mod::lemma_multiply_divide_lt(a as int, h as int, h as int);
    }
}

/// Joining two field elements of level k-1 gives a field element of level k.
pub proof fn lemma_join_range(k: nat, l: nat, h: nat)
    requires
        k >= 1,
        in_field((k - 1) as nat, l),
        in_field((k - 1) as nat, h),
    ensures
        in_field(k, t_join(k, l, h)),
{
    let j = (k - 1) as nat;
    let s = level_size(j);
    lemma_level_size_square(k);
    assert(l + s * h <= (s - 1) + s * (s - 1)) by {
        vstd::arithmetic::mul::lemma_mul_inequality(h as int, (s - 1) as int, s as int);
    }
    assert((s - 1) + s * (s - 1) < s * s) by {
        vstd::arithmetic::mul::lemma_mul_basics(s as int);
        vstd::arithmetic::mul::lemma_mul_is_distributive_sub(s as int, s as int, 1);
    }
}

/// Splitting a join recovers the halves.
pub proof fn lemma_join_split(k: nat, l: nat, h: nat)
    requires
        k >= 1,
        in_field((k - 1) as nat, l),
        in_field((k - 1) as nat, h),
    ensures
        t_lo(k, t_join(k, l, h)) == l,
        t_hi(k, t_join(k, l, h)) == h,
        in_field(k, t_join(k, l, h)),
{
    let j = (k - 1) as nat;
    let s = level_size(j);
    assert(s >= 1) by {
        vstd::arithmetic::power2::lemma_pow2_pos(pow2(j));
    }
    lemma_join_range(k, l, h);
    assert((s * h + l) as int % (s as int) == l as int % (s as int)) by {
        vstd::arithmetic::div_mod::lemma_mod_multiples_vanish(h as int, l as int, s as int);
    }
    assert(l as int % (s as int) == l as int) by {
        vstd::arithmetic::div_mod::lemma_small_mod(l, s);
    }
    assert((s * h + l) as int / (s as int) == h as int) by {
        vstd::arithmetic::div_mod::lemma_div_multiples_vanish_fancy(h as int, l as int, s as int);
    }
}

/// Joining the halves recovers the element.
pub proof fn lemma_split_join(k: nat, a: nat)
    requires
        k >= 1,
        in_field(k, a),
    ensures
        t_join(k, t_lo(k, a), t_hi(k, a)) == a,
{
    let s = level_size((k - 1) as nat);
    assert(s >= 1) by {
        vstd::arithmetic::power2::lemma_pow2_pos(pow2((k - 1) as nat));
    }
    vstd::arithmetic::div_mod::lemma_fundamental_div_mod(a as int, s as int);
}

/// level_size(k) is the square of level_size(k - 1).
pub proof fn lemma_level_size_square(k: nat)
    requires
        k >= 1,
    ensures
        level_size(k) == level_size((k - 1) as nat) * level_size((k - 1) as nat),
{
    let j = (k - 1) as nat;
    assert(pow2(k) == pow2(j) + pow2(j)) by {
        vstd::arithmetic::power2::lemma_pow2_unfold(k);
    }
    vstd::arithmetic::power2::lemma_pow2_adds(pow2(j), pow2(j));
}

/// Multiplication by the extension variable stays inside the field.
pub proof fn lemma_t_malpha_range(k: nat, x: nat)
    requires
        in_field(k, x),
    ensures
        in_field(k, t_malpha(k, x)),
    decreases k,
{
    if k == 0 {
    } else {
        let j = (k - 1) as nat;
        lemma_split_range(k, x);
        lemma_t_malpha_range(j, t_hi(k, x));
        lemma_t_add_range(j, t_lo(k, x), t_malpha(j, t_hi(k, x)));
        lemma_join_range(k, t_hi(k, x), t_add(j, t_lo(k, x), t_malpha(j, t_hi(k, x))));
    }
}

/// Multiplication stays inside the field.
pub proof fn lemma_t_mul_range(k: nat, a: nat, b: nat)
    requires
        in_field(k, a),
        in_field(k, b),
    ensures
        in_field(k, t_mul(k, a, b)),
    decreases k,
{
    if k == 0 {
        assert(level_size(0) == 2) by {
            lemma_level_size_values();
        }
        assert(a * b < 2) by (nonlinear_arith)
            requires
                a < 2,
                b < 2,
        ;
    } else {
        let j = (k - 1) as nat;
        lemma_split_range(k, a);
        lemma_split_range(k, b);
        let a0 = t_lo(k, a);
        let a1 = t_hi(k, a);
        let b0 = t_lo(k, b);
        let b1 = t_hi(k, b);
        lemma_t_mul_range(j, a0, b0);
        lemma_t_mul_range(j, a0, b1);
        lemma_t_mul_range(j, a1, b0);
        lemma_t_mul_range(j, a1, b1);
        lemma_t_malpha_range(j, t_mul(j, a1, b1));
        lemma_t_add_range(j, t_mul(j, a0, b0), t_mul(j, a1, b1));
        lemma_t_add_range(j, t_mul(j, a0, b1), t_mul(j, a1, b0));
        lemma_t_add_range(
            j,
            t_add(j, t_mul(j, a0, b1), t_mul(j, a1, b0)),
            t_malpha(j, t_mul(j, a1, b1)),
        );
        lemma_join_range(
            k,
            t_add(j, t_mul(j, a0, b0), t_mul(j, a1, b1)),
            t_add(j, t_add(j, t_mul(j, a0, b1), t_mul(j, a1, b0)), t_malpha(j, t_mul(j, a1, b1))),
        );
    }
}

/// Addition is commutative.
pub proof fn lemma_t_add_comm(k: nat, a: nat, b: nat)
    requires
        in_field(k, a),
        in_field(k, b),
    ensures
        t_add(k, a, b) == t_add(k, b, a),
    decreases k,
{
    if k == 0 {
    } else {
        let j = (k - 1) as nat;
        lemma_split_range(k, a);
        lemma_split_range(k, b);
        lemma_t_add_comm(j, t_lo(k, a), t_lo(k, b));
        lemma_t_add_comm(j, t_hi(k, a), t_hi(k, b));
    }
}

/// Addition is associative.
pub proof fn lemma_t_add_assoc(k: nat, a: nat, b: nat, c: nat)
    requires
        in_field(k, a),
        in_field(k, b),
        in_field(k, c),
    ensures
        t_add(k, t_add(k, a, b), c) == t_add(k, a, t_add(k, b, c)),
    decreases k,
{
    if k == 0 {
        assert(level_size(0) == 2) by {
            lemma_level_size_values();
        }
    } else {
        let j = (k - 1) as nat;
        lemma_split_range(k, a);
        lemma_split_range(k, b);
        lemma_split_range(k, c);
        let lab = t_add(j, t_lo(k, a), t_lo(k, b));
        let hab = t_add(j, t_hi(k, a), t_hi(k, b));
        let lbc = t_add(j, t_lo(k, b), t_lo(k, c));
        let hbc = t_add(j, t_hi(k, b), t_hi(k, c));
        lemma_t_add_range(j, t_lo(k, a), t_lo(k, b));
        lemma_t_add_range(j, t_hi(k, a), t_hi(k, b));
        lemma_t_add_range(j, t_lo(k, b), t_lo(k, c));
        lemma_t_add_range(j, t_hi(k, b), t_hi(k, c));
        lemma_join_split(k, lab, hab);
        lemma_join_split(k, lbc, hbc);
        lemma_t_add_assoc(j, t_lo(k, a), t_lo(k, b), t_lo(k, c));
        lemma_t_add_assoc(j, t_hi(k, a), t_hi(k, b), t_hi(k, c));
    }
}

/// An element added to itself gives zero.
pub proof fn lemma_t_add_self(k: nat, a: nat)
    requires
        in_field(k, a),
    ensures
        t_add(k, a, a) == 0,
    decreases k,
{
    if k == 0 {
    } else {
        let j = (k - 1) as nat;
        lemma_split_range(k, a);
        lemma_t_add_self(j, t_lo(k, a));
        lemma_t_add_self(j, t_hi(k, a));
        assert(t_add(k, a, a) == t_join(k, 0, 0));
    }
}

/// Zero is the additive identity.
pub proof fn lemma_t_add_zero(k: nat, a: nat)
    requires
        in_field(k, a),
    ensures
        t_add(k, a, 0) == a,
        t_add(k, 0, a) == a,
    decreases k,
{
    if k == 0 {
        assert(level_size(0) == 2) by {
            lemma_level_size_values();
        }
    } else {
        let j = (k - 1) as nat;
        let s = level_size(j);
        assert(s >= 1) by {
            vstd::arithmetic::power2::lemma_pow2_pos(pow2(j));
        }
        assert(t_lo(k, 0) == 0 && t_hi(k, 0) == 0) by {
            vstd::arithmetic::div_mod::lemma_small_mod(0, s);
            vstd::arithmetic::div_mod::lemma_basic_div_specific_divisor(s as int);
        }
        lemma_split_range(k, a);
        lemma_t_add_zero(j, t_lo(k, a));
        lemma_t_add_zero(j, t_hi(k, a));
        lemma_split_join(k, a);
    }
}

/// XOR of two bits is addition in F_0.
pub proof fn lemma_xor_l0(x: u8, y: u8)
    requires
        x < 2,
        y < 2,
    ensures
        (x ^ y) as nat == t_add(0, x as nat, y as nat),
        x ^ y < 2,
{
    assert((x < 2 && y < 2) ==> ((x == y ==> x ^ y == 0) && (x != y ==> x ^ y == 1)))
        by (bit_vector);
}

/// Split, join and XOR of 2-bit values against the F_1 model.
pub proof fn lemma_xor_l1(x: u8, y: u8)
    requires
        x < 4,
        y < 4,
    ensures
        (x & 1) as nat == t_lo(1, x as nat),
        (x >> 1) as nat == t_hi(1, x as nat),
        (x ^ y) as nat == t_add(1, x as nat, y as nat),
        x ^ y < 4,
        x & 1 < 2,
        x >> 1 < 2,
{
    lemma_level_size_values();
    assert(x & 1 == x % 2 && x >> 1 == x / 2 && y & 1 == y % 2 && y >> 1 == y / 2 && (x ^ y) & 1
        == (x & 1) ^ (y & 1) && (x ^ y) >> 1 == (x >> 1) ^ (y >> 1) && x ^ y < 4 && x & 1 < 2 && x
        >> 1 < 2 && y >> 1 < 2) by (bit_vector)
        requires
            x < 4,
            y < 4,
    ;
    lemma_xor_l0(x & 1, y & 1);
    lemma_xor_l0(x >> 1, y >> 1);
    assert((x ^ y) as nat == t_join(1, ((x ^ y) & 1) as nat, ((x ^ y) >> 1) as nat)) by {
        assert((x ^ y) & 1 == (x ^ y) % 2 && (x ^ y) >> 1 == (x ^ y) / 2) by (bit_vector);
        vstd::arithmetic::div_mod::lemma_fundamental_div_mod((x ^ y) as int, 2);
    }
}

/// Split, join and XOR of 4-bit values against the F_2 model.
pub proof fn lemma_xor_l2(x: u8, y: u8)
    requires
        x < 16,
        y < 16,
    ensures
        (x & 3) as nat == t_lo(2, x as nat),
        (x >> 2) as nat == t_hi(2, x as nat),
        (x ^ y) as nat == t_add(2, x as nat, y as nat),
        x ^ y < 16,
        x & 3 < 4,
        x >> 2 < 4,
{
    lemma_level_size_values();
    assert(x & 3 == x % 4 && x >> 2 == x / 4 && y & 3 == y % 4 && y >> 2 == y / 4 && (x ^ y) & 3
        == (x & 3) ^ (y & 3) && (x ^ y) >> 2 == (x >> 2) ^ (y >> 2) && x ^ y < 16 && x & 3 < 4 && x
        >> 2 < 4 && y >> 2 < 4 && y & 3 < 4) by (bit_vector)
        requires
            x < 16,
            y < 16,
    ;
    lemma_xor_l1(x & 3, y & 3);
    lemma_xor_l1(x >> 2, y >> 2);
    assert((x ^ y) as nat == t_join(2, ((x ^ y) & 3) as nat, ((x ^ y) >> 2) as nat)) by {
        assert((x ^ y) & 3 == (x ^ y) % 4 && (x ^ y) >> 2 == (x ^ y) / 4) by (bit_vector);
        vstd::arithmetic::div_mod::lemma_fundamental_div_mod((x ^ y) as int, 4);
    }
}

/// Split, join and XOR of bytes against the F_3 model.
pub proof fn lemma_xor_l3(x: u8, y: u8)
    ensures
        (x & 15) as nat == t_lo(3, x as nat),
        (x >> 4) as nat == t_hi(3, x as nat),
        (x ^ y) as nat == t_add(3, x as nat, y as nat),
        x & 15 < 16,
        x >> 4 < 16,
{
    lemma_level_size_values();
    assert(x & 15 == x % 16 && x >> 4 == x / 16 && y & 15 == y % 16 && y >> 4 == y / 16 && (x ^ y)
        & 15 == (x & 15) ^ (y & 15) && (x ^ y) >> 4 == (x >> 4) ^ (y >> 4) && x & 15 < 16 && x >> 4
        < 16 && y & 15 < 16 && y >> 4 < 16) by (bit_vector);
    lemma_xor_l2(x & 15, y & 15);
    lemma_xor_l2(x >> 4, y >> 4);
    assert((x ^ y) as nat == t_join(3, ((x ^ y) & 15) as nat, ((x ^ y) >> 4) as nat)) by {
        assert((x ^ y) & 15 == (x ^ y) % 16 && (x ^ y) >> 4 == (x ^ y) / 16) by (bit_vector);
        vstd::arithmetic::div_mod::lemma_fundamental_div_mod((x ^ y) as int, 16);
    }
}

/// Split, join and XOR of 16-bit values against the F_4 model.
pub proof fn lemma_xor_l4(x: u16, y: u16)
    ensures
        ((x & 0xFF) as u8) as nat == t_lo(4, x as nat),
        ((x >> 8) as u8) as nat == t_hi(4, x as nat),
        (x ^ y) as nat == t_add(4, x as nat, y as nat),
{
    lemma_level_size_values();
    assert((x & 0xFF) as u8 == x % 256 && (x >> 8) as u8 == x / 256 && (y & 0xFF) as u8 == y % 256
        && (y >> 8) as u8 == y / 256 && ((x ^ y) & 0xFF) as u8 == ((x & 0xFF) as u8) ^ ((y
        & 0xFF) as u8) && ((x ^ y) >> 8) as u8 == ((x >> 8) as u8) ^ ((y >> 8) as u8))
        by (bit_vector);
    lemma_xor_l3((x & 0xFF) as u8, (y & 0xFF) as u8);
    lemma_xor_l3((x >> 8) as u8, (y >> 8) as u8);
    assert((x ^ y) as nat == t_join(4, (((x ^ y) & 0xFF) as u8) as nat, (((x ^ y) >> 8) as u8) as nat))
        by {
        assert(((x ^ y) & 0xFF) as u8 == (x ^ y) % 256 && ((x ^ y) >> 8) as u8 == (x ^ y) / 256)
            by (bit_vector);
        vstd::arithmetic::div_mod::lemma_fundamental_div_mod((x ^ y) as int, 256);
    }
}

/// Split, join and XOR of 32-bit values against the F_5 model.
pub proof fn lemma_xor_l5(x: u32, y: u32)
    ensures
        ((x & 0xFFFF) as u16) as nat == t_lo(5, x as nat),
        ((x >> 16) as u16) as nat == t_hi(5, x as nat),
        (x ^ y) as nat == t_add(5, x as nat, y as nat),
{
    lemma_level_size_values();
    assert((x & 0xFFFF) as u16 == x % 0x10000 && (x >> 16) as u16 == x / 0x10000 && (y
        & 0xFFFF) as u16 == y % 0x10000 && (y >> 16) as u16 == y / 0x10000 && ((x ^ y)
        & 0xFFFF) as u16 == ((x & 0xFFFF) as u16) ^ ((y & 0xFFFF) as u16) && ((x ^ y) >> 16) as u16
        == ((x >> 16) as u16) ^ ((y >> 16) as u16)) by (bit_vector);
    lemma_xor_l4((x & 0xFFFF) as u16, (y & 0xFFFF) as u16);
    lemma_xor_l4((x >> 16) as u16, (y >> 16) as u16);
    assert((x ^ y) as nat == t_join(
        5,
        (((x ^ y) & 0xFFFF) as u16) as nat,
        (((x ^ y) >> 16) as u16) as nat,
    )) by {
        assert(((x ^ y) & 0xFFFF) as u16 == (x ^ y) % 0x10000 && ((x ^ y) >> 16) as u16 == (x ^ y)
            / 0x10000) by (bit_vector);
        vstd::arithmetic::div_mod::lemma_fundamental_div_mod((x ^ y) as int, 0x10000);
    }
}

/// Split, join and XOR of 64-bit values against the F_6 model.
pub proof fn lemma_xor_l6(x: u64, y: u64)
    ensures
        ((x & 0xFFFF_FFFF) as u32) as nat == t_lo(6, x as nat),
        ((x >> 32) as u32) as nat == t_hi(6, x as nat),
        (x ^ y) as nat == t_add(6, x as nat, y as nat),
{
    lemma_level_size_values();
    assert((x & 0xFFFF_FFFF) as u32 == x % 0x1_0000_0000 && (x >> 32) as u32 == x / 0x1_0000_0000
        && (y & 0xFFFF_FFFF) as u32 == y % 0x1_0000_0000 && (y >> 32) as u32 == y / 0x1_0000_0000
        && ((x ^ y) & 0xFFFF_FFFF) as u32 == ((x & 0xFFFF_FFFF) as u32) ^ ((y
        & 0xFFFF_FFFF) as u32) && ((x ^ y) >> 32) as u32 == ((x >> 32) as u32) ^ ((y
        >> 32) as u32)) by (bit_vector);
    lemma_xor_l5((x & 0xFFFF_FFFF) as u32, (y & 0xFFFF_FFFF) as u32);
    lemma_xor_l5((x >> 32) as u32, (y >> 32) as u32);
    assert((x ^ y) as nat == t_join(
        6,
        (((x ^ y) & 0xFFFF_FFFF) as u32) as nat,
        (((x ^ y) >> 32) as u32) as nat,
    )) by {
        assert(((x ^ y) & 0xFFFF_FFFF) as u32 == (x ^ y) % 0x1_0000_0000 && ((x ^ y) >> 32) as u32
            == (x ^ y) / 0x1_0000_0000) by (bit_vector);
        vstd::arithmetic::div_mod::lemma_fundamental_div_mod((x ^ y) as int, 0x1_0000_0000);
    }
}

/// Split, join and XOR of 128-bit values against the F_7 model.
pub proof fn lemma_xor_l7(x: u128, y: u128)
    ensures
        ((x & 0xFFFF_FFFF_FFFF_FFFF) as u64) as nat == t_lo(7, x as nat),
        ((x >> 64) as u64) as nat == t_hi(7, x as nat),
        (x ^ y) as nat == t_add(7, x as nat, y as nat),
{
    lemma_level_size_values();
    assert((x & 0xFFFF_FFFF_FFFF_FFFF) as u64 == x % 0x1_0000_0000_0000_0000 && (x >> 64) as u64
        == x / 0x1_0000_0000_0000_0000 && (y & 0xFFFF_FFFF_FFFF_FFFF) as u64 == y
        % 0x1_0000_0000_0000_0000 && (y >> 64) as u64 == y / 0x1_0000_0000_0000_0000 && ((x ^ y)
        & 0xFFFF_FFFF_FFFF_FFFF) as u64 == ((x & 0xFFFF_FFFF_FFFF_FFFF) as u64) ^ ((y
        & 0xFFFF_FFFF_FFFF_FFFF) as u64) && ((x ^ y) >> 64) as u64 == ((x >> 64) as u64) ^ ((y
        >> 64) as u64)) by (bit_vector);
    lemma_xor_l6((x & 0xFFFF_FFFF_FFFF_FFFF) as u64, (y & 0xFFFF_FFFF_FFFF_FFFF) as u64);
    lemma_xor_l6((x >> 64) as u64, (y >> 64) as u64);
    assert((x ^ y) as nat == t_join(
        7,
        (((x ^ y) & 0xFFFF_FFFF_FFFF_FFFF) as u64) as nat,
        (((x ^ y) >> 64) as u64) as nat,
    )) by {
        assert(((x ^ y) & 0xFFFF_FFFF_FFFF_FFFF) as u64 == (x ^ y) % 0x1_0000_0000_0000_0000 && ((x
            ^ y) >> 64) as u64 == (x ^ y) / 0x1_0000_0000_0000_0000) by (bit_vector);
        vstd::arithmetic::div_mod::lemma_fundamental_div_mod(
            (x ^ y) as int,
            0x1_0000_0000_0000_0000,
        );
    }
}

/// Multiplying the extension variable into zero gives zero.
pub proof fn lemma_t_malpha_zero(k: nat)
    ensures
        t_malpha(k, 0) == 0,
    decreases k,
{
    if k == 0 {
    } else {
        let j = (k - 1) as nat;
        let s = level_size(j);
        assert(s >= 1) by {
            vstd::arithmetic::power2::lemma_pow2_pos(pow2(j));
        }
        assert(t_lo(k, 0) == 0 && t_hi(k, 0) == 0) by {
            vstd::arithmetic::div_mod::lemma_small_mod(0, s);
            vstd::arithmetic::div_mod::lemma_basic_div_specific_divisor(s as int);
        }
        lemma_t_malpha_zero(j);
        lemma_t_add_zero(j, 0);
        assert(level_size(j) >= 2) by {
            lemma_level_size_at_least_two(j);
        }
    }
}

/// Sizes of the field levels are at least two.
pub proof fn lemma_level_size_at_least_two(k: nat)
    ensures
        level_size(k) >= 2,
{
    vstd::arithmetic::power2::lemma_pow2_pos(k);
    assert(pow2(k) >= 1);
    vstd::arithmetic::power2::lemma2_to64();
    assert(pow2(pow2(k)) >= pow2(1)) by {
        if 1 < pow2(k) {
            vstd::arithmetic::power2::lemma_pow2_strictly_increases(1, pow2(k));
        }
    }
}

/// Zero annihilates multiplication.
pub proof fn lemma_t_mul_zero(k: nat, a: nat)
    requires
        in_field(k, a),
    ensures
        t_mul(k, a, 0) == 0,
        t_mul(k, 0, a) == 0,
    decreases k,
{
    if k == 0 {
    } else {
        let j = (k - 1) as nat;
        let s = level_size(j);
        assert(s >= 2) by {
            lemma_level_size_at_least_two(j);
        }
        assert(t_lo(k, 0) == 0 && t_hi(k, 0) == 0) by {
            vstd::arithmetic::div_mod::lemma_small_mod(0, s);
            vstd::arithmetic::div_mod::lemma_basic_div_specific_divisor(s as int);
        }
        lemma_split_range(k, a);
        lemma_t_mul_zero(j, t_lo(k, a));
        lemma_t_mul_zero(j, t_hi(k, a));
        lemma_t_malpha_zero(j);
        lemma_t_add_zero(j, 0);
    }
}

/// One is the multiplicative identity.
pub proof fn lemma_t_mul_one(k: nat, a: nat)
    requires
        in_field(k, a),
    ensures
        t_mul(k, a, 1) == a,
        t_mul(k, 1, a) == a,
    decreases k,
{
    if k == 0 {
    } else {
        let j = (k - 1) as nat;
        let s = level_size(j);
        assert(s >= 2) by {
            lemma_level_size_at_least_two(j);
        }
        assert(t_lo(k, 1) == 1 && t_hi(k, 1) == 0) by {
            vstd::arithmetic::div_mod::lemma_small_mod(1, s);
            vstd::arithmetic::div_mod::lemma_basic_div_specific_divisor(s as int);
        }
        lemma_split_range(k, a);
        let a0 = t_lo(k, a);
        let a1 = t_hi(k, a);
        lemma_t_mul_one(j, a0);
        lemma_t_mul_one(j, a1);
        lemma_t_mul_zero(j, a0);
        lemma_t_mul_zero(j, a1);
        lemma_t_malpha_zero(j);
        lemma_t_add_zero(j, a0);
        lemma_t_add_zero(j, a1);
        lemma_t_add_range(j, 0, a1);
        lemma_split_join(k, a);
    }
}

/// Multiplication is commutative.
pub proof fn lemma_t_mul_comm(k: nat, a: nat, b: nat)
    requires
        in_field(k, a),
        in_field(k, b),
    ensures
        t_mul(k, a, b) == t_mul(k, b, a),
    decreases k,
{
    if k == 0 {
        assert(a * b == b * a) by (nonlinear_arith);
    } else {
        let j = (k - 1) as nat;
        lemma_split_range(k, a);
        lemma_split_range(k, b);
        let a0 = t_lo(k, a);
        let a1 = t_hi(k, a);
        let b0 = t_lo(k, b);
        let b1 = t_hi(k, b);
        lemma_t_mul_comm(j, a0, b0);
        lemma_t_mul_comm(j, a0, b1);
        lemma_t_mul_comm(j, a1, b0);
        lemma_t_mul_comm(j, a1, b1);
        lemma_t_mul_range(j, a0, b1);
        lemma_t_mul_range(j, a1, b0);
        lemma_t_add_comm(j, t_mul(j, a0, b1), t_mul(j, a1, b0));
    }
}

/// Rebracketing two sums: (w+x)+(y+z) = (w+y)+(x+z).
pub proof fn lemma_t_add_exchange(k: nat, w: nat, x: nat, y: nat, z: nat)
    requires
        in_field(k, w),
        in_field(k, x),
        in_field(k, y),
        in_field(k, z),
    ensures
        t_add(k, t_add(k, w, x), t_add(k, y, z)) == t_add(k, t_add(k, w, y), t_add(k, x, z)),
{
    lemma_t_add_range(k, w, x);
    lemma_t_add_range(k, y, z);
    lemma_t_add_range(k, w, y);
    lemma_t_add_range(k, x, z);
    lemma_t_add_range(k, x, y);
    lemma_t_add_range(k, y, x);
    lemma_t_add_assoc(k, t_add(k, w, x), y, z);
    lemma_t_add_assoc(k, w, x, y);
    lemma_t_add_comm(k, x, y);
    lemma_t_add_assoc(k, w, y, x);
    lemma_t_add_assoc(k, t_add(k, w, y), x, z);
}

/// Multiplication by the extension variable is additive.
pub proof fn lemma_t_malpha_add(k: nat, x: nat, y: nat)
    requires
        in_field(k, x),
        in_field(k, y),
    ensures
        t_malpha(k, t_add(k, x, y)) == t_add(k, t_malpha(k, x), t_malpha(k, y)),
    decreases k,
{
    if k == 0 {
    } else {
        let j = (k - 1) as nat;
        lemma_split_range(k, x);
        lemma_split_range(k, y);
        let x0 = t_lo(k, x);
        let x1 = t_hi(k, x);
        let y0 = t_lo(k, y);
        let y1 = t_hi(k, y);
        lemma_t_add_range(j, x0, y0);
        lemma_t_add_range(j, x1, y1);
        lemma_join_split(k, t_add(j, x0, y0), t_add(j, x1, y1));
        lemma_t_malpha_add(j, x1, y1);
        lemma_t_malpha_range(j, x1);
        lemma_t_malpha_range(j, y1);
        lemma_t_add_exchange(j, x0, t_malpha(j, x1), y0, t_malpha(j, y1));
        lemma_t_add_range(j, x0, t_malpha(j, x1));
        lemma_t_add_range(j, y0, t_malpha(j, y1));
        lemma_join_split(
            k,
            x1,
            t_add(j, x0, t_malpha(j, x1)),
        );
        lemma_join_split(
            k,
            y1,
            t_add(j, y0, t_malpha(j, y1)),
        );
        lemma_t_add_comm(j, t_malpha(j, x1), y0);
        lemma_t_add_exchange(j, x0, y0, t_malpha(j, x1), t_malpha(j, y1));
    }
}

/// Multiplication distributes over addition.
pub proof fn lemma_t_mul_distrib(k: nat, a: nat, b: nat, c: nat)
    requires
        in_field(k, a),
        in_field(k, b),
        in_field(k, c),
    ensures
        t_mul(k, a, t_add(k, b, c)) == t_add(k, t_mul(k, a, b), t_mul(k, a, c)),
    decreases k,
{
    if k == 0 {
        assert(level_size(0) == 2) by {
            lemma_level_size_values();
        }
        if a == 0 {
            assert(t_mul(0, a, t_add(0, b, c)) == 0) by (nonlinear_arith)
                requires
                    a == 0,
                    t_mul(0, a, t_add(0, b, c)) == a * t_add(0, b, c),
            ;
            assert(t_mul(0, a, b) == 0 && t_mul(0, a, c) == 0) by (nonlinear_arith)
                requires
                    a == 0,
                    t_mul(0, a, b) == a * b,
                    t_mul(0, a, c) == a * c,
            ;
        } else {
            assert(a == 1);
            assert(1 * t_add(0, b, c) == t_add(0, b, c) && 1 * b == b && 1 * c == c)
                by (nonlinear_arith);
        }
    } else {
        let j = (k - 1) as nat;
        lemma_split_range(k, a);
        lemma_split_range(k, b);
        lemma_split_range(k, c);
        let a0 = t_lo(k, a);
        let a1 = t_hi(k, a);
        let b0 = t_lo(k, b);
        let b1 = t_hi(k, b);
        let c0 = t_lo(k, c);
        let c1 = t_hi(k, c);
        lemma_t_add_range(j, b0, c0);
        lemma_t_add_range(j, b1, c1);
        lemma_join_split(k, t_add(j, b0, c0), t_add(j, b1, c1));
        // The four products against the summed halves.
        lemma_t_mul_distrib(j, a0, b0, c0);
        lemma_t_mul_distrib(j, a0, b1, c1);
        lemma_t_mul_distrib(j, a1, b0, c0);
        lemma_t_mul_distrib(j, a1, b1, c1);
        let p00 = t_mul(j, a0, b0);
        let p01 = t_mul(j, a0, b1);
        let p10 = t_mul(j, a1, b0);
        let p11 = t_mul(j, a1, b1);
        let q00 = t_mul(j, a0, c0);
        let q01 = t_mul(j, a0, c1);
        let q10 = t_mul(j, a1, c0);
        let q11 = t_mul(j, a1, c1);
        lemma_t_mul_range(j, a0, b0);
        lemma_t_mul_range(j, a0, b1);
        lemma_t_mul_range(j, a1, b0);
        lemma_t_mul_range(j, a1, b1);
        lemma_t_mul_range(j, a0, c0);
        lemma_t_mul_range(j, a0, c1);
        lemma_t_mul_range(j, a1, c0);
        lemma_t_mul_range(j, a1, c1);
        // Low halves: (p00 + q00) + (p11 + q11) = (p00 + p11) + (q00 + q11).
        lemma_t_add_exchange(j, p00, q00, p11, q11);
        // High halves: first the cross terms, then the alpha terms.
        lemma_t_malpha_add(j, p11, q11);
        lemma_t_malpha_range(j, p11);
        lemma_t_malpha_range(j, q11);
        lemma_t_add_exchange(j, p01, q01, p10, q10);
        lemma_t_add_range(j, p01, p10);
        lemma_t_add_range(j, q01, q10);
        lemma_t_add_exchange(
            j,
            t_add(j, p01, p10),
            t_add(j, q01, q10),
            t_malpha(j, p11),
            t_malpha(j, q11),
        );
        // Both sides are joins of equal halves.
        lemma_t_add_range(j, p00, p11);
        lemma_t_add_range(j, q00, q11);
        lemma_t_add_range(j, t_add(j, p01, p10), t_malpha(j, p11));
        lemma_t_add_range(j, t_add(j, q01, q10), t_malpha(j, q11));
        lemma_join_split(k, t_add(j, p00, p11), t_add(j, t_add(j, p01, p10), t_malpha(j, p11)));
        lemma_join_split(k, t_add(j, q00, q11), t_add(j, t_add(j, q01, q10), t_malpha(j, q11)));
        let lo_l = t_add(j, t_add(j, p00, q00), t_add(j, p11, q11));
        let hi_l = t_add(
            j,
            t_add(j, t_add(j, p01, q01), t_add(j, p10, q10)),
            t_add(j, t_malpha(j, p11), t_malpha(j, q11)),
        );
        assert(t_mul(k, a, t_add(k, b, c)) == t_join(k, lo_l, hi_l));
        let lo_r = t_add(j, t_add(j, p00, p11), t_add(j, q00, q11));
        let hi_r = t_add(
            j,
            t_add(j, t_add(j, p01, p10), t_malpha(j, p11)),
            t_add(j, t_add(j, q01, q10), t_malpha(j, q11)),
        );
        assert(t_add(k, t_mul(k, a, b), t_mul(k, a, c)) == t_join(k, lo_r, hi_r));
        assert(lo_l == lo_r);
        assert(hi_l == hi_r) by {
            lemma_t_add_range(j, t_add(j, p01, p10), t_add(j, q01, q10));
            lemma_t_add_range(j, t_malpha(j, p11), t_malpha(j, q11));
        }
    }
}

/// The extension variable X_(k-1) as a field element of F_k.
pub open spec fn alpha_c(k: nat) -> nat {
    if k == 0 {
        1
    } else {
        level_size((k - 1) as nat)
    }
}

/// Multiplication by the extension variable is multiplication by alpha_c.
pub proof fn lemma_t_malpha_is_mul(k: nat, x: nat)
    requires
        in_field(k, x),
    ensures
        in_field(k, alpha_c(k)),
        t_malpha(k, x) == t_mul(k, x, alpha_c(k)),
{
    if k == 0 {
        assert(level_size(0) == 2) by {
            lemma_level_size_values();
        }
        assert(x * 1 == x) by (nonlinear_arith);
    } else {
        let j = (k - 1) as nat;
        let s = level_size(j);
        assert(s >= 2) by {
            lemma_level_size_at_least_two(j);
        }
        assert(in_field(j, 0) && in_field(j, 1));
        lemma_join_split(k, 0, 1);
        assert(t_join(k, 0, 1) == s);
        lemma_split_range(k, x);
        let x0 = t_lo(k, x);
        let x1 = t_hi(k, x);
        lemma_t_mul_zero(j, x0);
        lemma_t_mul_zero(j, x1);
        lemma_t_mul_one(j, x0);
        lemma_t_mul_one(j, x1);
        lemma_t_malpha_zero(j);
        lemma_t_add_zero(j, x1);
        lemma_t_add_zero(j, x0);
        lemma_t_malpha_range(j, x1);
        lemma_t_add_zero(j, t_malpha(j, x1));
        lemma_t_add_comm(j, 0, x1);
    }
}

/// The extension variable commutes through products.
pub proof fn lemma_t_malpha_mul(k: nat, x: nat, y: nat)
    requires
        in_field(k, x),
        in_field(k, y),
    ensures
        t_mul(k, t_malpha(k, x), y) == t_malpha(k, t_mul(k, x, y)),
        t_mul(k, x, t_malpha(k, y)) == t_malpha(k, t_mul(k, x, y)),
    decreases k, 2int,
{
    lemma_t_malpha_is_mul(k, x);
    lemma_t_malpha_is_mul(k, y);
    lemma_t_mul_range(k, x, y);
    lemma_t_malpha_is_mul(k, t_mul(k, x, y));
    let al = alpha_c(k);
    lemma_t_mul_assoc(k, x, al, y);
    lemma_t_mul_comm(k, al, y);
    lemma_t_mul_assoc(k, x, y, al);
    lemma_t_mul_range(k, y, al);
    lemma_t_mul_comm(k, x, t_mul(k, y, al));
    lemma_t_mul_assoc(k, y, al, x);
    lemma_t_mul_comm(k, al, x);
    lemma_t_mul_assoc(k, y, x, al);
    lemma_t_mul_comm(k, y, x);
}

/// Multiplication is associative.
#[verifier::rlimit(100)]
#[verifier::spinoff_prover]
pub proof fn lemma_t_mul_assoc(k: nat, a: nat, b: nat, c: nat)
    requires
        in_field(k, a),
        in_field(k, b),
        in_field(k, c),
    ensures
        t_mul(k, t_mul(k, a, b), c) == t_mul(k, a, t_mul(k, b, c)),
    decreases k, 1int,
{
    if k == 0 {
        assert((a * b) * c == a * (b * c)) by (nonlinear_arith);
    } else {
        let j = (k - 1) as nat;
        lemma_split_range(k, a);
        lemma_split_range(k, b);
        lemma_split_range(k, c);
        let a0 = t_lo(k, a);
        let a1 = t_hi(k, a);
        let b0 = t_lo(k, b);
        let b1 = t_hi(k, b);
        let c0 = t_lo(k, c);
        let c1 = t_hi(k, c);
        // Ambient facts of the sublevel: closure and the additive group laws.
        assert forall|x: nat, y: nat| in_field(j, x) && in_field(j, y) implies in_field(
            j,
            #[trigger] t_add(j, x, y),
        ) && t_add(j, x, y) == t_add(j, y, x) by {
            lemma_t_add_range(j, x, y);
            lemma_t_add_comm(j, x, y);
        }
        assert forall|x: nat, y: nat, z: nat|
            in_field(j, x) && in_field(j, y) && in_field(j, z) implies #[trigger] t_add(
            j,
            t_add(j, x, y),
            z,
        ) == t_add(j, x, t_add(j, y, z)) by {
            lemma_t_add_assoc(j, x, y, z);
        }
        // The eight canonical triple products, left associated, and their
        // alpha twists.
        let t000 = t_mul(j, t_mul(j, a0, b0), c0);
        let t001 = t_mul(j, t_mul(j, a0, b0), c1);
        let t010 = t_mul(j, t_mul(j, a0, b1), c0);
        let t011 = t_mul(j, t_mul(j, a0, b1), c1);
        let t100 = t_mul(j, t_mul(j, a1, b0), c0);
        let t101 = t_mul(j, t_mul(j, a1, b0), c1);
        let t110 = t_mul(j, t_mul(j, a1, b1), c0);
        let t111 = t_mul(j, t_mul(j, a1, b1), c1);
        assert forall|x: nat, y: nat| in_field(j, x) && in_field(j, y) implies in_field(
            j,
            #[trigger] t_mul(j, x, y),
        ) by {
            lemma_t_mul_range(j, x, y);
        }
        assert forall|x: nat| in_field(j, x) implies in_field(j, #[trigger] t_malpha(j, x)) by {
            lemma_t_malpha_range(j, x);
        }
        // Left side: expand (a b) c.
        let ll = t_mul(j, a0, b0);
        let lh = t_mul(j, a0, b1);
        let hl = t_mul(j, a1, b0);
        let hh = t_mul(j, a1, b1);
        let p0 = t_add(j, ll, hh);
        let p1 = t_add(j, t_add(j, lh, hl), t_malpha(j, hh));
        lemma_join_split(k, p0, p1);
        assert(t_mul(k, a, b) == t_join(k, p0, p1));
        // p0 c0, p0 c1 by right distributivity.
        lemma_t_mul_distrib(j, c0, ll, hh);
        lemma_t_mul_comm(j, c0, t_add(j, ll, hh));
        lemma_t_mul_comm(j, c0, ll);
        lemma_t_mul_comm(j, c0, hh);
        lemma_t_mul_distrib(j, c1, ll, hh);
        lemma_t_mul_comm(j, c1, t_add(j, ll, hh));
        lemma_t_mul_comm(j, c1, ll);
        lemma_t_mul_comm(j, c1, hh);
        assert(t_mul(j, p0, c0) == t_add(j, t000, t110));
        assert(t_mul(j, p0, c1) == t_add(j, t001, t111));
        // p1 c0, p1 c1.
        lemma_t_mul_distrib(j, c0, t_add(j, lh, hl), t_malpha(j, hh));
        lemma_t_mul_comm(j, c0, p1);
        lemma_t_mul_comm(j, c0, t_add(j, lh, hl));
        lemma_t_mul_comm(j, c0, t_malpha(j, hh));
        lemma_t_mul_distrib(j, c0, lh, hl);
        lemma_t_mul_comm(j, c0, lh);
        lemma_t_mul_comm(j, c0, hl);
        lemma_t_malpha_mul(j, hh, c0);
        lemma_t_mul_distrib(j, c1, t_add(j, lh, hl), t_malpha(j, hh));
        lemma_t_mul_comm(j, c1, p1);
        lemma_t_mul_comm(j, c1, t_add(j, lh, hl));
        lemma_t_mul_comm(j, c1, t_malpha(j, hh));
        lemma_t_mul_distrib(j, c1, lh, hl);
        lemma_t_mul_comm(j, c1, lh);
        lemma_t_mul_comm(j, c1, hl);
        lemma_t_malpha_mul(j, hh, c1);
        assert(t_mul(j, p1, c0) == t_add(j, t_add(j, t010, t100), t_malpha(j, t110)));
        assert(t_mul(j, p1, c1) == t_add(j, t_add(j, t011, t101), t_malpha(j, t111)));
        lemma_t_malpha_add(j, t_add(j, t011, t101), t_malpha(j, t111));
        lemma_t_malpha_add(j, t011, t101);
        let lo_l = t_add(j, t_mul(j, p0, c0), t_mul(j, p1, c1));
        let hi_l = t_add(
            j,
            t_add(j, t_mul(j, p0, c1), t_mul(j, p1, c0)),
            t_malpha(j, t_mul(j, p1, c1)),
        );
        assert(t_mul(k, t_mul(k, a, b), c) == t_join(k, lo_l, hi_l));
        // Right side: expand a (b c).
        let sll = t_mul(j, b0, c0);
        let slh = t_mul(j, b0, c1);
        let shl = t_mul(j, b1, c0);
        let shh = t_mul(j, b1, c1);
        let q0 = t_add(j, sll, shh);
        let q1 = t_add(j, t_add(j, slh, shl), t_malpha(j, shh));
        lemma_join_split(k, q0, q1);
        assert(t_mul(k, b, c) == t_join(k, q0, q1));
        // a0 q0, a1 q0, a0 q1, a1 q1 by left distributivity, then the
        // inductive reassociation of each triple product.
        lemma_t_mul_distrib(j, a0, sll, shh);
        lemma_t_mul_distrib(j, a1, sll, shh);
        lemma_t_mul_distrib(j, a0, t_add(j, slh, shl), t_malpha(j, shh));
        lemma_t_mul_distrib(j, a0, slh, shl);
        lemma_t_mul_distrib(j, a1, t_add(j, slh, shl), t_malpha(j, shh));
        lemma_t_mul_distrib(j, a1, slh, shl);
        lemma_t_malpha_mul(j, shh, a0);
        lemma_t_mul_comm(j, a0, t_malpha(j, shh));
        lemma_t_mul_comm(j, shh, a0);
        lemma_t_malpha_mul(j, shh, a1);
        lemma_t_mul_comm(j, a1, t_malpha(j, shh));
        lemma_t_mul_comm(j, shh, a1);
        // The inductive hypothesis on every triple product.
        lemma_t_mul_assoc(j, a0, b0, c0);
        lemma_t_mul_assoc(j, a0, b0, c1);
        lemma_t_mul_assoc(j, a0, b1, c0);
        lemma_t_mul_assoc(j, a0, b1, c1);
        lemma_t_mul_assoc(j, a1, b0, c0);
        lemma_t_mul_assoc(j, a1, b0, c1);
        lemma_t_mul_assoc(j, a1, b1, c0);
        lemma_t_mul_assoc(j, a1, b1, c1);
        assert(t_mul(j, a0, q0) == t_add(j, t000, t011));
        assert(t_mul(j, a1, q0) == t_add(j, t100, t111));
        assert(t_mul(j, a0, q1) == t_add(j, t_add(j, t001, t010), t_malpha(j, t011)));
        assert(t_mul(j, a1, q1) == t_add(j, t_add(j, t101, t110), t_malpha(j, t111)));
        lemma_t_malpha_add(j, t_add(j, t101, t110), t_malpha(j, t111));
        lemma_t_malpha_add(j, t101, t110);
        let lo_r = t_add(j, t_mul(j, a0, q0), t_mul(j, a1, q1));
        let hi_r = t_add(
            j,
            t_add(j, t_mul(j, a0, q1), t_mul(j, a1, q0)),
            t_malpha(j, t_mul(j, a1, q1)),
        );
        assert(t_mul(k, a, t_mul(k, b, c)) == t_join(k, lo_r, hi_r));
        // Both halves agree up to rearranging the sums.
        assert(lo_l == lo_r);
        assert(hi_l == hi_r);
    }
}

/// The defining polynomial X^2 + X_(k-1) X + 1 of the next level, evaluated
/// at a point of F_k.
pub open spec fn def_poly(k: nat, t: nat) -> nat {
    t_add(k, t_add(k, t_mul(k, t, t), t_malpha(k, t)), 1)
}

/// The defining polynomial of the next level has no root in F_0.
pub proof fn lemma_no_root_l0(t: nat)
    requires
        in_field(0, t),
    ensures
        def_poly(0, t) != 0,
{
    lemma_level_size_values();
    assert(level_size((1 - 1) as nat) == 2 && level_size((2 - 1) as nat) == 4);
    if t == 0 {
        assert(t_mul(0, 0, 0) == 0);
        assert(def_poly(0, 0) == 1);
    } else {
        assert(t == 1);
        assert(t_mul(0, 1, 1) == 1);
        assert(t_malpha(0, 1) == 1);
        assert(t_add(0, 1, 1) == 0);
        assert(def_poly(0, 1) == 1);
    }
}

/// The defining polynomial of the next level has no root in F_1.
pub proof fn lemma_no_root_l1(t: nat)
    requires
        in_field(1, t),
    ensures
        def_poly(1, t) != 0,
{
    lemma_level_size_values();
    assert(level_size((1 - 1) as nat) == 2 && level_size((2 - 1) as nat) == 4);
    if t == 0 {
        assert(t_mul(0, 0, 0) == 0 && t_mul(0, 0, 1) == 0 && t_mul(0, 1, 0) == 0 && t_mul(0, 1, 1) == 1);
        assert(t_add(0, 0, 0) == 0 && t_add(0, 0, 1) == 1 && t_add(0, 1, 0) == 1 && t_add(0, 1, 1) == 0);
        assert(t_malpha(0, 0) == 0 && t_malpha(0, 1) == 1);
        assert(t_lo(1, 0) == 0 && t_hi(1, 0) == 0 && t_lo(1, 1) == 1 && t_hi(1, 1) == 0 && t_lo(1, 2) == 0 && t_hi(1, 2) == 1 && t_lo(1, 3) == 1 && t_hi(1, 3) == 1);
        assert(t_mul(1, 0, 0) == 0);
        assert(t_malpha(1, 0) == 0);
        assert(t_add(1, 0, 0) == 0);
        assert(t_add(1, 0, 1) == 1);
        assert(def_poly(1, 0) == 1);
    } else if t == 1 {
        assert(t_mul(0, 0, 0) == 0 && t_mul(0, 0, 1) == 0 && t_mul(0, 1, 0) == 0 && t_mul(0, 1, 1) == 1);
        assert(t_add(0, 0, 0) == 0 && t_add(0, 0, 1) == 1 && t_add(0, 1, 0) == 1 && t_add(0, 1, 1) == 0);
        assert(t_malpha(0, 0) == 0 && t_malpha(0, 1) == 1);
        assert(t_lo(1, 0) == 0 && t_hi(1, 0) == 0 && t_lo(1, 1) == 1 && t_hi(1, 1) == 0 && t_lo(1, 2) == 0 && t_hi(1, 2) == 1 && t_lo(1, 3) == 1 && t_hi(1, 3) == 1);
        assert(t_mul(1, 1, 1) == 1);
        assert(t_malpha(1, 1) == 2);
        assert(t_add(1, 1, 2) == 3);
        assert(t_add(1, 3, 1) == 2);
        assert(def_poly(1, 1) == 2);
    } else if t == 2 {
        assert(t_mul(0, 0, 0) == 0 && t_mul(0, 0, 1) == 0 && t_mul(0, 1, 0) == 0 && t_mul(0, 1, 1) == 1);
        assert(t_add(0, 0, 0) == 0 && t_add(0, 0, 1) == 1 && t_add(0, 1, 0) == 1 && t_add(0, 1, 1) == 0);
        assert(t_malpha(0, 0) == 0 && t_malpha(0, 1) == 1);
        assert(t_lo(1, 0) == 0 && t_hi(1, 0) == 0 && t_lo(1, 1) == 1 && t_hi(1, 1) == 0 && t_lo(1, 2) == 0 && t_hi(1, 2) == 1 && t_lo(1, 3) == 1 && t_hi(1, 3) == 1);
        assert(t_mul(1, 2, 2) == 3);
        assert(t_malpha(1, 2) == 3);
        assert(t_add(1, 3, 3) == 0);
        assert(t_add(1, 0, 1) == 1);
        assert(def_poly(1, 2) == 1);
    } else {
        assert(t == 3);
        assert(t_mul(0, 0, 0) == 0 && t_mul(0, 0, 1) == 0 && t_mul(0, 1, 0) == 0 && t_mul(0, 1, 1) == 1);
        assert(t_add(0, 0, 0) == 0 && t_add(0, 0, 1) == 1 && t_add(0, 1, 0) == 1 && t_add(0, 1, 1) == 0);
        assert(t_malpha(0, 0) == 0 && t_malpha(0, 1) == 1);
        assert(t_lo(1, 0) == 0 && t_hi(1, 0) == 0 && t_lo(1, 1) == 1 && t_hi(1, 1) == 0 && t_lo(1, 2) == 0 && t_hi(1, 2) == 1 && t_lo(1, 3) == 1 && t_hi(1, 3) == 1);
        assert(t_mul(1, 3, 3) == 2);
        assert(t_malpha(1, 3) == 1);
        assert(t_add(1, 2, 1) == 3);
        assert(t_add(1, 3, 1) == 2);
        assert(def_poly(1, 3) == 2);
    }
}

proof fn lemma_no_root_l2_part0(t: nat)
    requires
        0 <= t < 4,
    ensures
        def_poly(2, t) != 0,
{
    lemma_level_size_values();
    assert(level_size((1 - 1) as nat) == 2 && level_size((2 - 1) as nat) == 4);
    if t == 0 {
        assert(t_mul(0, 0, 0) == 0 && t_mul(0, 0, 1) == 0 && t_mul(0, 1, 0) == 0 && t_mul(0, 1, 1) == 1);
        assert(t_add(0, 0, 0) == 0 && t_add(0, 0, 1) == 1 && t_add(0, 1, 0) == 1 && t_add(0, 1, 1) == 0);
        assert(t_malpha(0, 0) == 0 && t_malpha(0, 1) == 1);
        assert(t_lo(1, 0) == 0 && t_hi(1, 0) == 0 && t_lo(1, 1) == 1 && t_hi(1, 1) == 0 && t_lo(1, 2) == 0 && t_hi(1, 2) == 1 && t_lo(1, 3) == 1 && t_hi(1, 3) == 1);
        assert(t_lo(2, 0) == 0 && t_hi(2, 0) == 0);
        assert(t_lo(2, 0) == 0 && t_hi(2, 0) == 0);
        assert(t_lo(2, 0) == 0 && t_hi(2, 0) == 0);
        assert(t_lo(2, 0) == 0 && t_hi(2, 0) == 0);
        assert(t_lo(2, 1) == 1 && t_hi(2, 1) == 0);
        assert(t_mul(1, 0, 0) == 0);
        assert(t_malpha(1, 0) == 0);
        assert(t_add(1, 0, 0) == 0);
        assert(t_mul(2, 0, 0) == 0);
        assert(t_malpha(2, 0) == 0);
        assert(t_add(2, 0, 0) == 0);
        assert(t_add(1, 0, 1) == 1);
        assert(t_add(2, 0, 1) == 1);
        assert(def_poly(2, 0) == 1);
    } else if t == 1 {
        assert(t_mul(0, 0, 0) == 0 && t_mul(0, 0, 1) == 0 && t_mul(0, 1, 0) == 0 && t_mul(0, 1, 1) == 1);
        assert(t_add(0, 0, 0) == 0 && t_add(0, 0, 1) == 1 && t_add(0, 1, 0) == 1 && t_add(0, 1, 1) == 0);
        assert(t_malpha(0, 0) == 0 && t_malpha(0, 1) == 1);
        assert(t_lo(1, 0) == 0 && t_hi(1, 0) == 0 && t_lo(1, 1) == 1 && t_hi(1, 1) == 0 && t_lo(1, 2) == 0 && t_hi(1, 2) == 1 && t_lo(1, 3) == 1 && t_hi(1, 3) == 1);
        assert(t_lo(2, 1) == 1 && t_hi(2, 1) == 0);
        assert(t_lo(2, 1) == 1 && t_hi(2, 1) == 0);
        assert(t_lo(2, 4) == 0 && t_hi(2, 4) == 1);
        assert(t_lo(2, 5) == 1 && t_hi(2, 5) == 1);
        assert(t_lo(2, 1) == 1 && t_hi(2, 1) == 0);
        assert(t_mul(1, 1, 1) == 1);
        assert(t_mul(1, 1, 0) == 0);
        assert(t_mul(1, 0, 1) == 0);
        assert(t_mul(1, 0, 0) == 0);
        assert(t_malpha(1, 0) == 0);
        assert(t_add(1, 1, 0) == 1);
        assert(t_add(1, 0, 0) == 0);
        assert(t_mul(2, 1, 1) == 1);
        assert(t_malpha(2, 1) == 4);
        assert(t_add(1, 0, 1) == 1);
        assert(t_add(2, 1, 4) == 5);
        assert(t_add(1, 1, 1) == 0);
        assert(t_add(2, 5, 1) == 4);
        assert(def_poly(2, 1) == 4);
    } else if t == 2 {
        assert(t_mul(0, 0, 0) == 0 && t_mul(0, 0, 1) == 0 && t_mul(0, 1, 0) == 0 && t_mul(0, 1, 1) == 1);
        assert(t_add(0, 0, 0) == 0 && t_add(0, 0, 1) == 1 && t_add(0, 1, 0) == 1 && t_add(0, 1, 1) == 0);
        assert(t_malpha(0, 0) == 0 && t_malpha(0, 1) == 1);
        assert(t_lo(1, 0) == 0 && t_hi(1, 0) == 0 && t_lo(1, 1) == 1 && t_hi(1, 1) == 0 && t_lo(1, 2) == 0 && t_hi(1, 2) == 1 && t_lo(1, 3) == 1 && t_hi(1, 3) == 1);
        assert(t_lo(2, 2) == 2 && t_hi(2, 2) == 0);
        assert(t_lo(2, 3) == 3 && t_hi(2, 3) == 0);
        assert(t_lo(2, 8) == 0 && t_hi(2, 8) == 2);
        assert(t_lo(2, 11) == 3 && t_hi(2, 11) == 2);
        assert(t_lo(2, 1) == 1 && t_hi(2, 1) == 0);
        assert(t_mul(1, 2, 2) == 3);
        assert(t_mul(1, 2, 0) == 0);
        assert(t_mul(1, 0, 2) == 0);
        assert(t_mul(1, 0, 0) == 0);
        assert(t_malpha(1, 0) == 0);
        assert(t_add(1, 3, 0) == 3);
        assert(t_add(1, 0, 0) == 0);
        assert(t_mul(2, 2, 2) == 3);
        assert(t_add(1, 2, 0) == 2);
        assert(t_malpha(2, 2) == 8);
        assert(t_add(1, 0, 2) == 2);
        assert(t_add(2, 3, 8) == 11);
        assert(t_add(1, 3, 1) == 2);
        assert(t_add(2, 11, 1) == 10);
        assert(def_poly(2, 2) == 10);
    } else {
        assert(t == 3);
        assert(t_mul(0, 0, 0) == 0 && t_mul(0, 0, 1) == 0 && t_mul(0, 1, 0) == 0 && t_mul(0, 1, 1) == 1);
        assert(t_add(0, 0, 0) == 0 && t_add(0, 0, 1) == 1 && t_add(0, 1, 0) == 1 && t_add(0, 1, 1) == 0);
        assert(t_malpha(0, 0) == 0 && t_malpha(0, 1) == 1);
        assert(t_lo(1, 0) == 0 && t_hi(1, 0) == 0 && t_lo(1, 1) == 1 && t_hi(1, 1) == 0 && t_lo(1, 2) == 0 && t_hi(1, 2) == 1 && t_lo(1, 3) == 1 && t_hi(1, 3) == 1);
        assert(t_lo(2, 3) == 3 && t_hi(2, 3) == 0);
        assert(t_lo(2, 2) == 2 && t_hi(2, 2) == 0);
        assert(t_lo(2, 12) == 0 && t_hi(2, 12) == 3);
        assert(t_lo(2, 14) == 2 && t_hi(2, 14) == 3);
        assert(t_lo(2, 1) == 1 && t_hi(2, 1) == 0);
        assert(t_mul(1, 3, 3) == 2);
        assert(t_mul(1, 3, 0) == 0);
        assert(t_mul(1, 0, 3) == 0);
        assert(t_mul(1, 0, 0) == 0);
        assert(t_malpha(1, 0) == 0);
        assert(t_add(1, 2, 0) == 2);
        assert(t_add(1, 0, 0) == 0);
        assert(t_mul(2, 3, 3) == 2);
        assert(t_add(1, 3, 0) == 3);
        assert(t_malpha(2, 3) == 12);
        assert(t_add(1, 0, 3) == 3);
        assert(t_add(2, 2, 12) == 14);
        assert(t_add(1, 2, 1) == 3);
        assert(t_add(2, 14, 1) == 15);
        assert(def_poly(2, 3) == 15);
    }
}

proof fn lemma_no_root_l2_part1(t: nat)
    requires
        4 <= t < 8,
    ensures
        def_poly(2, t) != 0,
{
    lemma_level_size_values();
    assert(level_size((1 - 1) as nat) == 2 && level_size((2 - 1) as nat) == 4);
    if t == 4 {
        assert(t_mul(0, 0, 0) == 0 && t_mul(0, 0, 1) == 0 && t_mul(0, 1, 0) == 0 && t_mul(0, 1, 1) == 1);
        assert(t_add(0, 0, 0) == 0 && t_add(0, 0, 1) == 1 && t_add(0, 1, 0) == 1 && t_add(0, 1, 1) == 0);
        assert(t_malpha(0, 0) == 0 && t_malpha(0, 1) == 1);
        assert(t_lo(1, 0) == 0 && t_hi(1, 0) == 0 && t_lo(1, 1) == 1 && t_hi(1, 1) == 0 && t_lo(1, 2) == 0 && t_hi(1, 2) == 1 && t_lo(1, 3) == 1 && t_hi(1, 3) == 1);
        assert(t_lo(2, 4) == 0 && t_hi(2, 4) == 1);
        assert(t_lo(2, 9) == 1 && t_hi(2, 9) == 2);
        assert(t_lo(2, 9) == 1 && t_hi(2, 9) == 2);
        assert(t_lo(2, 0) == 0 && t_hi(2, 0) == 0);
        assert(t_lo(2, 1) == 1 && t_hi(2, 1) == 0);
        assert(t_mul(1, 0, 0) == 0);
        assert(t_mul(1, 0, 1) == 0);
        assert(t_mul(1, 1, 0) == 0);
        assert(t_mul(1, 1, 1) == 1);
        assert(t_malpha(1, 1) == 2);
        assert(t_add(1, 0, 1) == 1);
        assert(t_add(1, 0, 0) == 0);
        assert(t_add(1, 0, 2) == 2);
        assert(t_mul(2, 4, 4) == 9);
        assert(t_malpha(2, 4) == 9);
        assert(t_add(1, 1, 1) == 0);
        assert(t_add(1, 2, 2) == 0);
        assert(t_add(2, 9, 9) == 0);
        assert(t_add(2, 0, 1) == 1);
        assert(def_poly(2, 4) == 1);
    } else if t == 5 {
        assert(t_mul(0, 0, 0) == 0 && t_mul(0, 0, 1) == 0 && t_mul(0, 1, 0) == 0 && t_mul(0, 1, 1) == 1);
        assert(t_add(0, 0, 0) == 0 && t_add(0, 0, 1) == 1 && t_add(0, 1, 0) == 1 && t_add(0, 1, 1) == 0);
        assert(t_malpha(0, 0) == 0 && t_malpha(0, 1) == 1);
        assert(t_lo(1, 0) == 0 && t_hi(1, 0) == 0 && t_lo(1, 1) == 1 && t_hi(1, 1) == 0 && t_lo(1, 2) == 0 && t_hi(1, 2) == 1 && t_lo(1, 3) == 1 && t_hi(1, 3) == 1);
        assert(t_lo(2, 5) == 1 && t_hi(2, 5) == 1);
        assert(t_lo(2, 8) == 0 && t_hi(2, 8) == 2);
        assert(t_lo(2, 13) == 1 && t_hi(2, 13) == 3);
        assert(t_lo(2, 5) == 1 && t_hi(2, 5) == 1);
        assert(t_lo(2, 1) == 1 && t_hi(2, 1) == 0);
        assert(t_mul(1, 1, 1) == 1);
        assert(t_malpha(1, 1) == 2);
        assert(t_add(1, 1, 1) == 0);
        assert(t_add(1, 0, 2) == 2);
        assert(t_mul(2, 5, 5) == 8);
        assert(t_add(1, 1, 2) == 3);
        assert(t_malpha(2, 5) == 13);
        assert(t_add(1, 0, 1) == 1);
        assert(t_add(1, 2, 3) == 1);
        assert(t_add(2, 8, 13) == 5);
        assert(t_add(1, 1, 0) == 1);
        assert(t_add(2, 5, 1) == 4);
        assert(def_poly(2, 5) == 4);
    } else if t == 6 {
        assert(t_mul(0, 0, 0) == 0 && t_mul(0, 0, 1) == 0 && t_mul(0, 1, 0) == 0 && t_mul(0, 1, 1) == 1);
        assert(t_add(0, 0, 0) == 0 && t_add(0, 0, 1) == 1 && t_add(0, 1, 0) == 1 && t_add(0, 1, 1) == 0);
        assert(t_malpha(0, 0) == 0 && t_malpha(0, 1) == 1);
        assert(t_lo(1, 0) == 0 && t_hi(1, 0) == 0 && t_lo(1, 1) == 1 && t_hi(1, 1) == 0 && t_lo(1, 2) == 0 && t_hi(1, 2) == 1 && t_lo(1, 3) == 1 && t_hi(1, 3) == 1);
        assert(t_lo(2, 6) == 2 && t_hi(2, 6) == 1);
        assert(t_lo(2, 10) == 2 && t_hi(2, 10) == 2);
        assert(t_lo(2, 1) == 1 && t_hi(2, 1) == 0);
        assert(t_lo(2, 11) == 3 && t_hi(2, 11) == 2);
        assert(t_lo(2, 1) == 1 && t_hi(2, 1) == 0);
        assert(t_mul(1, 2, 2) == 3);
        assert(t_mul(1, 2, 1) == 2);
        assert(t_mul(1, 1, 2) == 2);
        assert(t_mul(1, 1, 1) == 1);
        assert(t_malpha(1, 1) == 2);
        assert(t_add(1, 3, 1) == 2);
        assert(t_add(1, 2, 2) == 0);
        assert(t_add(1, 0, 2) == 2);
        assert(t_mul(2, 6, 6) == 10);
        assert(t_malpha(2, 6) == 1);
        assert(t_add(1, 2, 1) == 3);
        assert(t_add(1, 2, 0) == 2);
        assert(t_add(2, 10, 1) == 11);
        assert(t_add(2, 11, 1) == 10);
        assert(def_poly(2, 6) == 10);
    } else {
        assert(t == 7);
        assert(t_mul(0, 0, 0) == 0 && t_mul(0, 0, 1) == 0 && t_mul(0, 1, 0) == 0 && t_mul(0, 1, 1) == 1);
        assert(t_add(0, 0, 0) == 0 && t_add(0, 0, 1) == 1 && t_add(0, 1, 0) == 1 && t_add(0, 1, 1) == 0);
        assert(t_malpha(0, 0) == 0 && t_malpha(0, 1) == 1);
        assert(t_lo(1, 0) == 0 && t_hi(1, 0) == 0 && t_lo(1, 1) == 1 && t_hi(1, 1) == 0 && t_lo(1, 2) == 0 && t_hi(1, 2) == 1 && t_lo(1, 3) == 1 && t_hi(1, 3) == 1);
        assert(t_lo(2, 7) == 3 && t_hi(2, 7) == 1);
        assert(t_lo(2, 11) == 3 && t_hi(2, 11) == 2);
        assert(t_lo(2, 5) == 1 && t_hi(2, 5) == 1);
        assert(t_lo(2, 14) == 2 && t_hi(2, 14) == 3);
        assert(t_lo(2, 1) == 1 && t_hi(2, 1) == 0);
        assert(t_mul(1, 3, 3) == 2);
        assert(t_mul(1, 3, 1) == 3);
        assert(t_mul(1, 1, 3) == 3);
        assert(t_mul(1, 1, 1) == 1);
        assert(t_malpha(1, 1) == 2);
        assert(t_add(1, 2, 1) == 3);
        assert(t_add(1, 3, 3) == 0);
        assert(t_add(1, 0, 2) == 2);
        assert(t_mul(2, 7, 7) == 11);
        assert(t_add(1, 3, 2) == 1);
        assert(t_malpha(2, 7) == 5);
        assert(t_add(1, 3, 1) == 2);
        assert(t_add(2, 11, 5) == 14);
        assert(t_add(1, 3, 0) == 3);
        assert(t_add(2, 14, 1) == 15);
        assert(def_poly(2, 7) == 15);
    }
}

proof fn lemma_no_root_l2_part2(t: nat)
    requires
        8 <= t < 12,
    ensures
        def_poly(2, t) != 0,
{
    lemma_level_size_values();
    assert(level_size((1 - 1) as nat) == 2 && level_size((2 - 1) as nat) == 4);
    if t == 8 {
        assert(t_mul(0, 0, 0) == 0 && t_mul(0, 0, 1) == 0 && t_mul(0, 1, 0) == 0 && t_mul(0, 1, 1) == 1);
        assert(t_add(0, 0, 0) == 0 && t_add(0, 0, 1) == 1 && t_add(0, 1, 0) == 1 && t_add(0, 1, 1) == 0);
        assert(t_malpha(0, 0) == 0 && t_malpha(0, 1) == 1);
        assert(t_lo(1, 0) == 0 && t_hi(1, 0) == 0 && t_lo(1, 1) == 1 && t_hi(1, 1) == 0 && t_lo(1, 2) == 0 && t_hi(1, 2) == 1 && t_lo(1, 3) == 1 && t_hi(1, 3) == 1);
        assert(t_lo(2, 8) == 0 && t_hi(2, 8) == 2);
        assert(t_lo(2, 7) == 3 && t_hi(2, 7) == 1);
        assert(t_lo(2, 14) == 2 && t_hi(2, 14) == 3);
        assert(t_lo(2, 9) == 1 && t_hi(2, 9) == 2);
        assert(t_lo(2, 1) == 1 && t_hi(2, 1) == 0);
        assert(t_mul(1, 0, 0) == 0);
        assert(t_mul(1, 0, 2) == 0);
        assert(t_mul(1, 2, 0) == 0);
        assert(t_mul(1, 2, 2) == 3);
        assert(t_malpha(1, 3) == 1);
        assert(t_add(1, 0, 3) == 3);
        assert(t_add(1, 0, 0) == 0);
        assert(t_add(1, 0, 1) == 1);
        assert(t_mul(2, 8, 8) == 7);
        assert(t_malpha(1, 2) == 3);
        assert(t_malpha(2, 8) == 14);
        assert(t_add(1, 3, 2) == 1);
        assert(t_add(1, 1, 3) == 2);
        assert(t_add(2, 7, 14) == 9);
        assert(t_add(1, 1, 1) == 0);
        assert(t_add(1, 2, 0) == 2);
        assert(t_add(2, 9, 1) == 8);
        assert(def_poly(2, 8) == 8);
    } else if t == 9 {
        assert(t_mul(0, 0, 0) == 0 && t_mul(0, 0, 1) == 0 && t_mul(0, 1, 0) == 0 && t_mul(0, 1, 1) == 1);
        assert(t_add(0, 0, 0) == 0 && t_add(0, 0, 1) == 1 && t_add(0, 1, 0) == 1 && t_add(0, 1, 1) == 0);
        assert(t_malpha(0, 0) == 0 && t_malpha(0, 1) == 1);
        assert(t_lo(1, 0) == 0 && t_hi(1, 0) == 0 && t_lo(1, 1) == 1 && t_hi(1, 1) == 0 && t_lo(1, 2) == 0 && t_hi(1, 2) == 1 && t_lo(1, 3) == 1 && t_hi(1, 3) == 1);
        assert(t_lo(2, 9) == 1 && t_hi(2, 9) == 2);
        assert(t_lo(2, 6) == 2 && t_hi(2, 6) == 1);
        assert(t_lo(2, 10) == 2 && t_hi(2, 10) == 2);
        assert(t_lo(2, 12) == 0 && t_hi(2, 12) == 3);
        assert(t_lo(2, 1) == 1 && t_hi(2, 1) == 0);
        assert(t_mul(1, 1, 1) == 1);
        assert(t_mul(1, 1, 2) == 2);
        assert(t_mul(1, 2, 1) == 2);
        assert(t_mul(1, 2, 2) == 3);
        assert(t_malpha(1, 3) == 1);
        assert(t_add(1, 1, 3) == 2);
        assert(t_add(1, 2, 2) == 0);
        assert(t_add(1, 0, 1) == 1);
        assert(t_mul(2, 9, 9) == 6);
        assert(t_malpha(1, 2) == 3);
        assert(t_malpha(2, 9) == 10);
        assert(t_add(1, 1, 2) == 3);
        assert(t_add(2, 6, 10) == 12);
        assert(t_add(1, 3, 0) == 3);
        assert(t_add(2, 12, 1) == 13);
        assert(def_poly(2, 9) == 13);
    } else if t == 10 {
        assert(t_mul(0, 0, 0) == 0 && t_mul(0, 0, 1) == 0 && t_mul(0, 1, 0) == 0 && t_mul(0, 1, 1) == 1);
        assert(t_add(0, 0, 0) == 0 && t_add(0, 0, 1) == 1 && t_add(0, 1, 0) == 1 && t_add(0, 1, 1) == 0);
        assert(t_malpha(0, 0) == 0 && t_malpha(0, 1) == 1);
        assert(t_lo(1, 0) == 0 && t_hi(1, 0) == 0 && t_lo(1, 1) == 1 && t_hi(1, 1) == 0 && t_lo(1, 2) == 0 && t_hi(1, 2) == 1 && t_lo(1, 3) == 1 && t_hi(1, 3) == 1);
        assert(t_lo(2, 10) == 2 && t_hi(2, 10) == 2);
        assert(t_lo(2, 4) == 0 && t_hi(2, 4) == 1);
        assert(t_lo(2, 6) == 2 && t_hi(2, 6) == 1);
        assert(t_lo(2, 2) == 2 && t_hi(2, 2) == 0);
        assert(t_lo(2, 1) == 1 && t_hi(2, 1) == 0);
        assert(t_mul(1, 2, 2) == 3);
        assert(t_malpha(1, 3) == 1);
        assert(t_add(1, 3, 3) == 0);
        assert(t_add(1, 0, 1) == 1);
        assert(t_mul(2, 10, 10) == 4);
        assert(t_malpha(1, 2) == 3);
        assert(t_add(1, 2, 3) == 1);
        assert(t_malpha(2, 10) == 6);
        assert(t_add(1, 0, 2) == 2);
        assert(t_add(1, 1, 1) == 0);
        assert(t_add(2, 4, 6) == 2);
        assert(t_add(1, 2, 1) == 3);
        assert(t_add(1, 0, 0) == 0);
        assert(t_add(2, 2, 1) == 3);
        assert(def_poly(2, 10) == 3);
    } else {
        assert(t == 11);
        assert(t_mul(0, 0, 0) == 0 && t_mul(0, 0, 1) == 0 && t_mul(0, 1, 0) == 0 && t_mul(0, 1, 1) == 1);
        assert(t_add(0, 0, 0) == 0 && t_add(0, 0, 1) == 1 && t_add(0, 1, 0) == 1 && t_add(0, 1, 1) == 0);
        assert(t_malpha(0, 0) == 0 && t_malpha(0, 1) == 1);
        assert(t_lo(1, 0) == 0 && t_hi(1, 0) == 0 && t_lo(1, 1) == 1 && t_hi(1, 1) == 0 && t_lo(1, 2) == 0 && t_hi(1, 2) == 1 && t_lo(1, 3) == 1 && t_hi(1, 3) == 1);
        assert(t_lo(2, 11) == 3 && t_hi(2, 11) == 2);
        assert(t_lo(2, 5) == 1 && t_hi(2, 5) == 1);
        assert(t_lo(2, 2) == 2 && t_hi(2, 2) == 0);
        assert(t_lo(2, 7) == 3 && t_hi(2, 7) == 1);
        assert(t_lo(2, 1) == 1 && t_hi(2, 1) == 0);
        assert(t_mul(1, 3, 3) == 2);
        assert(t_mul(1, 3, 2) == 1);
        assert(t_mul(1, 2, 3) == 1);
        assert(t_mul(1, 2, 2) == 3);
        assert(t_malpha(1, 3) == 1);
        assert(t_add(1, 2, 3) == 1);
        assert(t_add(1, 1, 1) == 0);
        assert(t_add(1, 0, 1) == 1);
        assert(t_mul(2, 11, 11) == 5);
        assert(t_malpha(1, 2) == 3);
        assert(t_add(1, 3, 3) == 0);
        assert(t_malpha(2, 11) == 2);
        assert(t_add(1, 1, 2) == 3);
        assert(t_add(1, 1, 0) == 1);
        assert(t_add(2, 5, 2) == 7);
        assert(t_add(1, 3, 1) == 2);
        assert(t_add(2, 7, 1) == 6);
        assert(def_poly(2, 11) == 6);
    }
}

proof fn lemma_no_root_l2_part3(t: nat)
    requires
        12 <= t < 16,
    ensures
        def_poly(2, t) != 0,
{
    lemma_level_size_values();
    assert(level_size((1 - 1) as nat) == 2 && level_size((2 - 1) as nat) == 4);
    if t == 12 {
        assert(t_mul(0, 0, 0) == 0 && t_mul(0, 0, 1) == 0 && t_mul(0, 1, 0) == 0 && t_mul(0, 1, 1) == 1);
        assert(t_add(0, 0, 0) == 0 && t_add(0, 0, 1) == 1 && t_add(0, 1, 0) == 1 && t_add(0, 1, 1) == 0);
        assert(t_malpha(0, 0) == 0 && t_malpha(0, 1) == 1);
        assert(t_lo(1, 0) == 0 && t_hi(1, 0) == 0 && t_lo(1, 1) == 1 && t_hi(1, 1) == 0 && t_lo(1, 2) == 0 && t_hi(1, 2) == 1 && t_lo(1, 3) == 1 && t_hi(1, 3) == 1);
        assert(t_lo(2, 12) == 0 && t_hi(2, 12) == 3);
        assert(t_lo(2, 14) == 2 && t_hi(2, 14) == 3);
        assert(t_lo(2, 7) == 3 && t_hi(2, 7) == 1);
        assert(t_lo(2, 9) == 1 && t_hi(2, 9) == 2);
        assert(t_lo(2, 1) == 1 && t_hi(2, 1) == 0);
        assert(t_mul(1, 0, 0) == 0);
        assert(t_mul(1, 0, 3) == 0);
        assert(t_mul(1, 3, 0) == 0);
        assert(t_mul(1, 3, 3) == 2);
        assert(t_malpha(1, 2) == 3);
        assert(t_add(1, 0, 2) == 2);
        assert(t_add(1, 0, 0) == 0);
        assert(t_add(1, 0, 3) == 3);
        assert(t_mul(2, 12, 12) == 14);
        assert(t_malpha(1, 3) == 1);
        assert(t_add(1, 0, 1) == 1);
        assert(t_malpha(2, 12) == 7);
        assert(t_add(1, 2, 3) == 1);
        assert(t_add(1, 3, 1) == 2);
        assert(t_add(2, 14, 7) == 9);
        assert(t_add(1, 1, 1) == 0);
        assert(t_add(1, 2, 0) == 2);
        assert(t_add(2, 9, 1) == 8);
        assert(def_poly(2, 12) == 8);
    } else if t == 13 {
        assert(t_mul(0, 0, 0) == 0 && t_mul(0, 0, 1) == 0 && t_mul(0, 1, 0) == 0 && t_mul(0, 1, 1) == 1);
        assert(t_add(0, 0, 0) == 0 && t_add(0, 0, 1) == 1 && t_add(0, 1, 0) == 1 && t_add(0, 1, 1) == 0);
        assert(t_malpha(0, 0) == 0 && t_malpha(0, 1) == 1);
        assert(t_lo(1, 0) == 0 && t_hi(1, 0) == 0 && t_lo(1, 1) == 1 && t_hi(1, 1) == 0 && t_lo(1, 2) == 0 && t_hi(1, 2) == 1 && t_lo(1, 3) == 1 && t_hi(1, 3) == 1);
        assert(t_lo(2, 13) == 1 && t_hi(2, 13) == 3);
        assert(t_lo(2, 15) == 3 && t_hi(2, 15) == 3);
        assert(t_lo(2, 3) == 3 && t_hi(2, 3) == 0);
        assert(t_lo(2, 12) == 0 && t_hi(2, 12) == 3);
        assert(t_lo(2, 1) == 1 && t_hi(2, 1) == 0);
        assert(t_mul(1, 1, 1) == 1);
        assert(t_mul(1, 1, 3) == 3);
        assert(t_mul(1, 3, 1) == 3);
        assert(t_mul(1, 3, 3) == 2);
        assert(t_malpha(1, 2) == 3);
        assert(t_add(1, 1, 2) == 3);
        assert(t_add(1, 3, 3) == 0);
        assert(t_add(1, 0, 3) == 3);
        assert(t_mul(2, 13, 13) == 15);
        assert(t_malpha(1, 3) == 1);
        assert(t_add(1, 1, 1) == 0);
        assert(t_malpha(2, 13) == 3);
        assert(t_add(1, 3, 0) == 3);
        assert(t_add(2, 15, 3) == 12);
        assert(t_add(1, 0, 1) == 1);
        assert(t_add(2, 12, 1) == 13);
        assert(def_poly(2, 13) == 13);
    } else if t == 14 {
        assert(t_mul(0, 0, 0) == 0 && t_mul(0, 0, 1) == 0 && t_mul(0, 1, 0) == 0 && t_mul(0, 1, 1) == 1);
        assert(t_add(0, 0, 0) == 0 && t_add(0, 0, 1) == 1 && t_add(0, 1, 0) == 1 && t_add(0, 1, 1) == 0);
        assert(t_malpha(0, 0) == 0 && t_malpha(0, 1) == 1);
        assert(t_lo(1, 0) == 0 && t_hi(1, 0) == 0 && t_lo(1, 1) == 1 && t_hi(1, 1) == 0 && t_lo(1, 2) == 0 && t_hi(1, 2) == 1 && t_lo(1, 3) == 1 && t_hi(1, 3) == 1);
        assert(t_lo(2, 14) == 2 && t_hi(2, 14) == 3);
        assert(t_lo(2, 13) == 1 && t_hi(2, 13) == 3);
        assert(t_lo(2, 15) == 3 && t_hi(2, 15) == 3);
        assert(t_lo(2, 2) == 2 && t_hi(2, 2) == 0);
        assert(t_lo(2, 1) == 1 && t_hi(2, 1) == 0);
        assert(t_mul(1, 2, 2) == 3);
        assert(t_mul(1, 2, 3) == 1);
        assert(t_mul(1, 3, 2) == 1);
        assert(t_mul(1, 3, 3) == 2);
        assert(t_malpha(1, 2) == 3);
        assert(t_add(1, 3, 2) == 1);
        assert(t_add(1, 1, 1) == 0);
        assert(t_add(1, 0, 3) == 3);
        assert(t_mul(2, 14, 14) == 13);
        assert(t_malpha(1, 3) == 1);
        assert(t_add(1, 2, 1) == 3);
        assert(t_malpha(2, 14) == 15);
        assert(t_add(1, 1, 3) == 2);
        assert(t_add(1, 3, 3) == 0);
        assert(t_add(2, 13, 15) == 2);
        assert(t_add(1, 0, 0) == 0);
        assert(t_add(2, 2, 1) == 3);
        assert(def_poly(2, 14) == 3);
    } else {
        assert(t == 15);
        assert(t_mul(0, 0, 0) == 0 && t_mul(0, 0, 1) == 0 && t_mul(0, 1, 0) == 0 && t_mul(0, 1, 1) == 1);
        assert(t_add(0, 0, 0) == 0 && t_add(0, 0, 1) == 1 && t_add(0, 1, 0) == 1 && t_add(0, 1, 1) == 0);
        assert(t_malpha(0, 0) == 0 && t_malpha(0, 1) == 1);
        assert(t_lo(1, 0) == 0 && t_hi(1, 0) == 0 && t_lo(1, 1) == 1 && t_hi(1, 1) == 0 && t_lo(1, 2) == 0 && t_hi(1, 2) == 1 && t_lo(1, 3) == 1 && t_hi(1, 3) == 1);
        assert(t_lo(2, 15) == 3 && t_hi(2, 15) == 3);
        assert(t_lo(2, 12) == 0 && t_hi(2, 12) == 3);
        assert(t_lo(2, 11) == 3 && t_hi(2, 11) == 2);
        assert(t_lo(2, 7) == 3 && t_hi(2, 7) == 1);
        assert(t_lo(2, 1) == 1 && t_hi(2, 1) == 0);
        assert(t_mul(1, 3, 3) == 2);
        assert(t_malpha(1, 2) == 3);
        assert(t_add(1, 2, 2) == 0);
        assert(t_add(1, 0, 3) == 3);
        assert(t_mul(2, 15, 15) == 12);
        assert(t_malpha(1, 3) == 1);
        assert(t_add(1, 3, 1) == 2);
        assert(t_malpha(2, 15) == 11);
        assert(t_add(1, 3, 2) == 1);
        assert(t_add(2, 12, 11) == 7);
        assert(t_add(1, 1, 0) == 1);
        assert(t_add(2, 7, 1) == 6);
        assert(def_poly(2, 15) == 6);
    }
}

/// The defining polynomial of the next level has no root in F_2.
pub proof fn lemma_no_root_l2(t: nat)
    requires
        in_field(2, t),
    ensures
        def_poly(2, t) != 0,
{
    lemma_level_size_values();
    if t < 4 {
        lemma_no_root_l2_part0(t);
    } else if t < 8 {
        lemma_no_root_l2_part1(t);
    } else if t < 12 {
        lemma_no_root_l2_part2(t);
    } else {
        lemma_no_root_l2_part3(t);
    }
}

/// The defining polynomial has no root at the levels below the byte field.
pub proof fn lemma_no_root(k: nat, t: nat)
    requires
        k <= 2,
        in_field(k, t),
    ensures
        def_poly(k, t) != 0,
{
    if k == 0 {
        lemma_no_root_l0(t);
    } else if k == 1 {
        lemma_no_root_l1(t);
    } else {
        lemma_no_root_l2(t);
    }
}

/// Up to the byte level the fields have no zero divisors.
pub proof fn lemma_t_no_zero_divisor(k: nat, x: nat, y: nat)
    requires
        k <= 3,
        in_field(k, x),
        in_field(k, y),
        x != 0,
        y != 0,
    ensures
        t_mul(k, x, y) != 0,
    decreases k, 2int,
{
    if t_mul(k, x, y) == 0 {
        lemma_t_inv_law(k, x);
        let xi = t_inv(k, x);
        lemma_t_mul_zero(k, xi);
        lemma_t_mul_assoc(k, xi, x, y);
        lemma_t_mul_comm(k, xi, x);
        lemma_t_mul_comm(k, x, y);
        lemma_t_mul_assoc(k, x, xi, y);
        lemma_t_mul_one(k, y);
        assert(t_mul(k, xi, t_mul(k, x, y)) == 0);
        assert(t_mul(k, t_mul(k, x, xi), y) == y);
        assert(false);
    }
}

/// Inverse-or-zero is correct up to the byte level: zero maps to zero, and
/// every nonzero element multiplies with its inverse to one.
#[verifier::rlimit(100)]
#[verifier::spinoff_prover]
pub proof fn lemma_t_inv_law(k: nat, a: nat)
    requires
        k <= 3,
        in_field(k, a),
    ensures
        in_field(k, t_inv(k, a)),
        a == 0 ==> t_inv(k, a) == 0,
        a != 0 ==> t_mul(k, a, t_inv(k, a)) == 1,
    decreases k, 1int,
{
    if k == 0 {
        assert(level_size(0) == 2) by {
            lemma_level_size_values();
        }
        if a == 1 {
            assert(t_mul(0, 1, 1) == 1) by (nonlinear_arith);
        }
    } else {
        let j = (k - 1) as nat;
        let s = level_size(j);
        assert(s >= 2) by {
            lemma_level_size_at_least_two(j);
        }
        lemma_split_range(k, a);
        let a0 = t_lo(k, a);
        let a1 = t_hi(k, a);
        let am1 = t_malpha(j, a1);
        let sq0 = t_mul(j, a0, a0);
        let ab = t_mul(j, a0, a1);
        let cross = t_malpha(j, ab);
        let sq1 = t_mul(j, a1, a1);
        let delta = t_add(j, t_add(j, sq0, cross), sq1);
        lemma_t_mul_range(j, a0, a0);
        lemma_t_mul_range(j, a0, a1);
        lemma_t_mul_range(j, a1, a1);
        lemma_t_malpha_range(j, ab);
        lemma_t_malpha_range(j, a1);
        lemma_t_add_range(j, sq0, cross);
        lemma_t_add_range(j, t_add(j, sq0, cross), sq1);
        let di = t_inv(j, delta);
        lemma_t_inv_law(j, delta);
        lemma_t_add_range(j, a0, am1);
        lemma_t_mul_range(j, t_add(j, a0, am1), di);
        lemma_t_mul_range(j, a1, di);
        lemma_join_split(k, t_mul(j, t_add(j, a0, am1), di), t_mul(j, a1, di));
        assert(t_inv(k, a) == t_join(k, t_mul(j, t_add(j, a0, am1), di), t_mul(j, a1, di)));
        if a == 0 {
            assert(t_lo(k, 0) == 0 && t_hi(k, 0) == 0) by {
                vstd::arithmetic::div_mod::lemma_small_mod(0, s);
                vstd::arithmetic::div_mod::lemma_basic_div_specific_divisor(s as int);
            }
            lemma_t_mul_zero(j, 0);
            lemma_t_malpha_zero(j);
            lemma_t_add_zero(j, 0);
            lemma_t_mul_zero(j, di);
        } else {
            // The norm is nonzero.
            assert(a1 != 0 || a0 != 0) by {
                if a0 == 0 && a1 == 0 {
                    lemma_split_join(k, a);
                }
            }
            if a1 == 0 {
                lemma_t_mul_zero(j, a0);
                lemma_t_mul_zero(j, 0);
                lemma_t_malpha_zero(j);
                lemma_t_add_zero(j, sq0);
                assert(delta == sq0);
                lemma_t_no_zero_divisor(j, a0, a0);
            } else {
                lemma_t_inv_law(j, a1);
                let inv1 = t_inv(j, a1);
                lemma_t_mul_range(j, a0, inv1);
                let tt = t_mul(j, a0, inv1);
                // a0 equals tt * a1.
                assert(t_mul(j, tt, a1) == a0) by {
                    lemma_t_mul_assoc(j, a0, inv1, a1);
                    lemma_t_mul_comm(j, inv1, a1);
                    lemma_t_mul_comm(j, a1, inv1);
                    lemma_t_mul_one(j, a0);
                }
                // delta = (tt^2 + alpha tt + 1) * a1^2.
                let poly = def_poly(j, tt);
                lemma_t_mul_range(j, tt, tt);
                lemma_t_malpha_range(j, tt);
                assert(sq0 == t_mul(j, t_mul(j, tt, tt), sq1)) by {
                    lemma_t_mul_assoc(j, tt, a1, t_mul(j, tt, a1));
                    lemma_t_mul_comm(j, a1, t_mul(j, tt, a1));
                    lemma_t_mul_range(j, tt, a1);
                    lemma_t_mul_assoc(j, tt, a1, a1);
                    lemma_t_mul_range(j, a1, a1);
                    lemma_t_mul_assoc(j, tt, tt, sq1);
                    lemma_t_mul_comm(j, t_mul(j, tt, a1), a1);
                    lemma_t_mul_assoc(j, tt, t_mul(j, a1, a1), tt);
                    lemma_t_mul_comm(j, t_mul(j, a1, a1), tt);
                    lemma_t_mul_assoc(j, tt, tt, t_mul(j, a1, a1));
                }
                assert(cross == t_mul(j, t_malpha(j, tt), sq1)) by {
                    lemma_t_mul_assoc(j, tt, a1, a1);
                    lemma_t_malpha_mul(j, tt, t_mul(j, a1, a1));
                }
                let one_sq1 = t_mul(j, 1, sq1);
                assert(sq1 == one_sq1) by {
                    lemma_t_mul_one(j, sq1);
                }
                assert(delta == t_mul(j, poly, sq1)) by {
                    lemma_t_mul_comm(j, t_mul(j, tt, tt), sq1);
                    lemma_t_mul_comm(j, t_malpha(j, tt), sq1);
                    lemma_t_mul_comm(j, 1, sq1);
                    lemma_t_mul_distrib(j, sq1, t_mul(j, tt, tt), t_malpha(j, tt));
                    lemma_t_add_range(j, t_mul(j, tt, tt), t_malpha(j, tt));
                    lemma_t_mul_distrib(j, sq1, t_add(j, t_mul(j, tt, tt), t_malpha(j, tt)), 1);
                    lemma_t_add_range(j, t_add(j, t_mul(j, tt, tt), t_malpha(j, tt)), 1);
                    lemma_t_mul_comm(j, sq1, poly);
                }
                lemma_no_root(j, tt);
                lemma_t_no_zero_divisor(j, a1, a1);
                lemma_t_add_range(j, t_mul(j, tt, tt), t_malpha(j, tt));
                lemma_t_add_range(j, t_add(j, t_mul(j, tt, tt), t_malpha(j, tt)), 1);
                lemma_t_no_zero_divisor(j, poly, sq1);
                assert(delta != 0);
            }
            // Multiply out a times its inverse.
            let c0 = t_add(j, a0, am1);
            let c0di = t_mul(j, c0, di);
            let a1di = t_mul(j, a1, di);
            // Low half: a0 (c0 di) + a1 (a1 di) = delta di = 1.
            assert(t_mul(j, a0, c0di) == t_mul(j, t_mul(j, a0, c0), di)) by {
                lemma_t_mul_assoc(j, a0, c0, di);
            }
            assert(t_mul(j, a1, a1di) == t_mul(j, sq1, di)) by {
                lemma_t_mul_assoc(j, a1, a1, di);
            }
            assert(t_mul(j, a0, c0) == t_add(j, sq0, cross)) by {
                lemma_t_mul_distrib(j, a0, a0, am1);
                lemma_t_malpha_mul(j, a1, a0);
                lemma_t_mul_comm(j, a0, am1);
                lemma_t_mul_comm(j, a1, a0);
            }
            lemma_t_mul_range(j, a0, c0);
            let lo_part = t_add(j, t_mul(j, a0, c0di), t_mul(j, a1, a1di));
            assert(lo_part == t_mul(j, delta, di)) by {
                lemma_t_mul_comm(j, t_add(j, sq0, cross), di);
                lemma_t_mul_comm(j, sq1, di);
                lemma_t_mul_distrib(j, di, t_add(j, sq0, cross), sq1);
                lemma_t_mul_comm(j, di, delta);
            }
            assert(lo_part == 1);
            // High half: a0 (a1 di) + a1 (c0 di) + alpha(a1 (a1 di)) = 0.
            let h1 = t_mul(j, a0, a1di);
            let h2 = t_mul(j, a1, c0di);
            let h3 = t_malpha(j, t_mul(j, a1, a1di));
            assert(h1 == t_mul(j, ab, di)) by {
                lemma_t_mul_assoc(j, a0, a1, di);
            }
            assert(h2 == t_mul(j, t_add(j, ab, t_malpha(j, sq1)), di)) by {
                lemma_t_mul_assoc(j, a1, c0, di);
                lemma_t_mul_distrib(j, a1, a0, am1);
                lemma_t_mul_comm(j, a1, a0);
                lemma_t_malpha_mul(j, a1, a1);
            }
            assert(h3 == t_mul(j, t_malpha(j, sq1), di)) by {
                lemma_t_mul_assoc(j, a1, a1, di);
                lemma_t_malpha_mul(j, sq1, di);
            }
            lemma_t_malpha_range(j, sq1);
            lemma_t_add_range(j, ab, t_malpha(j, sq1));
            let hi_sum = t_add(j, t_add(j, h1, h2), h3);
            assert(hi_sum == t_mul(j, t_add(j, t_add(j, ab, t_add(j, ab, t_malpha(j, sq1))), t_malpha(j, sq1)), di)) by {
                lemma_t_mul_comm(j, ab, di);
                lemma_t_mul_comm(j, t_add(j, ab, t_malpha(j, sq1)), di);
                lemma_t_mul_comm(j, t_malpha(j, sq1), di);
                lemma_t_mul_distrib(j, di, ab, t_add(j, ab, t_malpha(j, sq1)));
                lemma_t_add_range(j, ab, t_add(j, ab, t_malpha(j, sq1)));
                lemma_t_mul_distrib(j, di, t_add(j, ab, t_add(j, ab, t_malpha(j, sq1))), t_malpha(j, sq1));
                lemma_t_add_range(j, t_add(j, ab, t_add(j, ab, t_malpha(j, sq1))), t_malpha(j, sq1));
                lemma_t_mul_comm(j, di, t_add(j, t_add(j, ab, t_add(j, ab, t_malpha(j, sq1))), t_malpha(j, sq1)));
            }
            assert(t_add(j, t_add(j, ab, t_add(j, ab, t_malpha(j, sq1))), t_malpha(j, sq1)) == 0) by {
                lemma_t_add_assoc(j, ab, ab, t_malpha(j, sq1));
                lemma_t_add_self(j, ab);
                lemma_t_add_zero(j, t_malpha(j, sq1));
                lemma_t_add_range(j, ab, ab);
                lemma_t_add_assoc(j, t_add(j, ab, ab), t_malpha(j, sq1), t_malpha(j, sq1));
                lemma_t_add_self(j, t_malpha(j, sq1));
                lemma_t_add_zero(j, 0);
            }
            assert(hi_sum == 0) by {
                lemma_t_mul_zero(j, di);
            }
            // The product is join(1, 0) = 1.
            assert(t_mul(k, a, t_inv(k, a)) == t_join(k, lo_part, hi_sum));
            assert(t_join(k, 1, 0) == 1);
        }
    }
}

/// AND of two bits is multiplication in F_0.
pub proof fn lemma_and_l0(x: u8, y: u8)
    requires
        x < 2,
        y < 2,
    ensures
        (x & y) as nat == t_mul(0, x as nat, y as nat),
        x & y < 2,
{
    assert(x < 2 && y < 2 ==> (x & y) == x * y && x & y < 2) by (bit_vector);
}

pub proof fn lemma_join_l1(l: u8, h: u8)
    requires
        l < 2,
        h < 2,
    ensures
        (l | (h << 1)) as nat == t_join(1, l as nat, h as nat),
        l | (h << 1) < 4,
{
    lemma_level_size_values();
    assert(l < 2 && h < 2 ==> (l | (h << 1)) == l + 2 * h && (l | (h << 1)) < 4) by (bit_vector);
}

pub proof fn lemma_join_l2(l: u8, h: u8)
    requires
        l < 4,
        h < 4,
    ensures
        (l | (h << 2)) as nat == t_join(2, l as nat, h as nat),
        l | (h << 2) < 16,
{
    lemma_level_size_values();
    assert(l < 4 && h < 4 ==> (l | (h << 2)) == l + 4 * h && (l | (h << 2)) < 16) by (bit_vector);
}

pub proof fn lemma_join_l3(l: u8, h: u8)
    requires
        l < 16,
        h < 16,
    ensures
        (l | (h << 4)) as nat == t_join(3, l as nat, h as nat),
{
    lemma_level_size_values();
    assert(l < 16 && h < 16 ==> (l | (h << 4)) == l + 16 * h) by (bit_vector);
}

pub proof fn lemma_join_l4(l: u8, h: u8)
    ensures
        ((l as u16) | ((h as u16) << 8)) as nat == t_join(4, l as nat, h as nat),
{
    lemma_level_size_values();
    assert(((l as u16) | ((h as u16) << 8)) == (l as u16) + 256 * (h as u16)) by (bit_vector);
}

pub proof fn lemma_join_l5(l: u16, h: u16)
    ensures
        ((l as u32) | ((h as u32) << 16)) as nat == t_join(5, l as nat, h as nat),
{
    lemma_level_size_values();
    assert(((l as u32) | ((h as u32) << 16)) == (l as u32) + 0x10000 * (h as u32)) by (bit_vector);
}

pub proof fn lemma_join_l6(l: u32, h: u32)
    ensures
        ((l as u64) | ((h as u64) << 32)) as nat == t_join(6, l as nat, h as nat),
{
    lemma_level_size_values();
    assert(((l as u64) | ((h as u64) << 32)) == (l as u64) + 0x1_0000_0000 * (h as u64))
        by (bit_vector);
}

pub proof fn lemma_join_l7(l: u64, h: u64)
    ensures
        ((l as u128) | ((h as u128) << 64)) as nat == t_join(7, l as nat, h as nat),
{
    lemma_level_size_values();
    assert(((l as u128) | ((h as u128) << 64)) == (l as u128) + 0x1_0000_0000_0000_0000
        * (h as u128)) by (bit_vector);
}

/// Addition (XOR) in the byte field F_3.
pub fn add_l3(a: u8, b: u8) -> (r: u8)
    ensures
        r as nat == t_add(3, a as nat, b as nat),
{
    proof {
        lemma_xor_l3(a, b);
    }
    a ^ b
}

/// Addition (XOR) in the 128-bit field F_7.
pub fn add_l7(a: u128, b: u128) -> (r: u128)
    ensures
        r as nat == t_add(7, a as nat, b as nat),
{
    proof {
        lemma_xor_l7(a, b);
    }
    a ^ b
}

/// Multiplication by the extension variable in F_1.
pub fn malpha_l1(x: u8) -> (r: u8)
    requires
        x < 4,
    ensures
        r as nat == t_malpha(1, x as nat),
        r < 4,
{
    let x0: u8 = x & 1;
    let x1: u8 = x >> 1;
    proof {
        lemma_xor_l1(x, x);
        lemma_xor_l0(x0, x1);
        lemma_join_l1(x1, x0 ^ x1);
        assert(t_malpha(0, t_hi(1, x as nat)) == t_hi(1, x as nat));
    }
    x1 | ((x0 ^ x1) << 1)
}

/// Multiplication by the extension variable in F_2.
pub fn malpha_l2(x: u8) -> (r: u8)
    requires
        x < 16,
    ensures
        r as nat == t_malpha(2, x as nat),
        r < 16,
{
    let x0: u8 = x & 3;
    let x1: u8 = x >> 2;
    proof {
        lemma_xor_l2(x, x);
    }
    let m: u8 = malpha_l1(x1);
    proof {
        lemma_xor_l1(x0, m);
        lemma_join_l2(x1, x0 ^ m);
    }
    x1 | ((x0 ^ m) << 2)
}

/// Multiplication by the extension variable in F_3.
pub fn malpha_l3(x: u8) -> (r: u8)
    ensures
        r as nat == t_malpha(3, x as nat),
{
    let x0: u8 = x & 15;
    let x1: u8 = x >> 4;
    proof {
        lemma_xor_l3(x, x);
    }
    let m: u8 = malpha_l2(x1);
    proof {
        lemma_xor_l2(x0, m);
        lemma_join_l3(x1, x0 ^ m);
    }
    x1 | ((x0 ^ m) << 4)
}

/// Multiplication by the extension variable in F_4.
pub fn malpha_l4(x: u16) -> (r: u16)
    ensures
        r as nat == t_malpha(4, x as nat),
{
    let x0: u8 = (x & 0xFF) as u8;
    let x1: u8 = (x >> 8) as u8;
    let m: u8 = malpha_l3(x1);
    proof {
        lemma_xor_l4(x, x);
        lemma_xor_l3(x0, m);
        lemma_join_l4(x1, x0 ^ m);
    }
    (x1 as u16) | (((x0 ^ m) as u16) << 8)
}

/// Multiplication by the extension variable in F_5.
pub fn malpha_l5(x: u32) -> (r: u32)
    ensures
        r as nat == t_malpha(5, x as nat),
{
    let x0: u16 = (x & 0xFFFF) as u16;
    let x1: u16 = (x >> 16) as u16;
    let m: u16 = malpha_l4(x1);
    proof {
        lemma_xor_l5(x, x);
        lemma_xor_l4(x0, m);
        lemma_join_l5(x1, x0 ^ m);
    }
    (x1 as u32) | (((x0 ^ m) as u32) << 16)
}

/// Multiplication by the extension variable in F_6.
pub fn malpha_l6(x: u64) -> (r: u64)
    ensures
        r as nat == t_malpha(6, x as nat),
{
    let x0: u32 = (x & 0xFFFF_FFFF) as u32;
    let x1: u32 = (x >> 32) as u32;
    let m: u32 = malpha_l5(x1);
    proof {
        lemma_xor_l6(x, x);
        lemma_xor_l5(x0, m);
        lemma_join_l6(x1, x0 ^ m);
    }
    (x1 as u64) | (((x0 ^ m) as u64) << 32)
}

/// Inverse-or-zero in F_1.
pub fn inv_l1(a: u8) -> (r: u8)
    requires
        a < 4,
    ensures
        r as nat == t_inv(1, a as nat),
        r < 4,
{
    let a0: u8 = a & 1;
    let a1: u8 = a >> 1;
    proof {
        lemma_xor_l1(a, a);
    }
    let d: u8 = ((a0 & a0) ^ (a0 & a1)) ^ (a1 & a1);
    let lo: u8 = (a0 ^ a1) & d;
    let hi: u8 = a1 & d;
    proof {
        lemma_and_l0(a0, a0);
        lemma_and_l0(a0, a1);
        lemma_and_l0(a1, a1);
        lemma_xor_l0(a0 & a0, a0 & a1);
        lemma_xor_l0((a0 & a0) ^ (a0 & a1), a1 & a1);
        lemma_xor_l0(a0, a1);
        lemma_and_l0(a0 ^ a1, d);
        lemma_and_l0(a1, d);
        lemma_join_l1(lo, hi);
        assert(t_malpha(0, t_mul(0, a0 as nat, a1 as nat)) == t_mul(0, a0 as nat, a1 as nat));
        assert(t_malpha(0, t_hi(1, a as nat)) == t_hi(1, a as nat));
        assert(t_inv(0, d as nat) == d as nat);
    }
    lo | (hi << 1)
}

/// Inverse-or-zero in F_2.
pub fn inv_l2(a: u8) -> (r: u8)
    requires
        a < 16,
    ensures
        r as nat == t_inv(2, a as nat),
        r < 16,
{
    let a0: u8 = a & 3;
    let a1: u8 = a >> 2;
    proof {
        lemma_xor_l2(a, a);
    }
    let pll: u8 = mul_l1(a0, a0);
    let plh: u8 = mul_l1(a0, a1);
    let phh: u8 = mul_l1(a1, a1);
    let ma: u8 = malpha_l1(plh);
    let d: u8 = (pll ^ ma) ^ phh;
    proof {
        lemma_xor_l1(pll, ma);
        lemma_xor_l1(pll ^ ma, phh);
    }
    let di: u8 = inv_l1(d);
    let mb: u8 = malpha_l1(a1);
    proof {
        lemma_xor_l1(a0, mb);
    }
    let lo: u8 = mul_l1(a0 ^ mb, di);
    let hi: u8 = mul_l1(a1, di);
    proof {
        lemma_join_l2(lo, hi);
    }
    lo | (hi << 2)
}

/// Inverse-or-zero in the byte field F_3.
pub fn inv_l3(a: u8) -> (r: u8)
    ensures
        r as nat == t_inv(3, a as nat),
{
    let a0: u8 = a & 15;
    let a1: u8 = a >> 4;
    proof {
        lemma_xor_l3(a, a);
    }
    let pll: u8 = mul_l2(a0, a0);
    let plh: u8 = mul_l2(a0, a1);
    let phh: u8 = mul_l2(a1, a1);
    let ma: u8 = malpha_l2(plh);
    let d: u8 = (pll ^ ma) ^ phh;
    proof {
        lemma_xor_l2(pll, ma);
        lemma_xor_l2(pll ^ ma, phh);
    }
    let di: u8 = inv_l2(d);
    let mb: u8 = malpha_l2(a1);
    proof {
        lemma_xor_l2(a0, mb);
    }
    let lo: u8 = mul_l2(a0 ^ mb, di);
    let hi: u8 = mul_l2(a1, di);
    proof {
        lemma_join_l3(lo, hi);
    }
    lo | (hi << 4)
}

/// Multiplication in F_1.
pub fn mul_l1(a: u8, b: u8) -> (r: u8)
    requires
        a < 4,
        b < 4,
    ensures
        r as nat == t_mul(1, a as nat, b as nat),
        r < 4,
{
    let a0: u8 = a & 1;
    let a1: u8 = a >> 1;
    let b0: u8 = b & 1;
    let b1: u8 = b >> 1;
    let ll: u8 = a0 & b0;
    let lh: u8 = a0 & b1;
    let hl: u8 = a1 & b0;
    let hh: u8 = a1 & b1;
    let lo: u8 = ll ^ hh;
    let hi: u8 = (lh ^ hl) ^ hh;
    proof {
        lemma_xor_l1(a, b);
        lemma_xor_l1(b, a);
        lemma_and_l0(a0, b0);
        lemma_and_l0(a0, b1);
        lemma_and_l0(a1, b0);
        lemma_and_l0(a1, b1);
        lemma_xor_l0(ll, hh);
        lemma_xor_l0(lh, hl);
        lemma_xor_l0(lh ^ hl, hh);
        lemma_join_l1(lo, hi);
    }
    lo | (hi << 1)
}

/// Multiplication in F_2.
pub fn mul_l2(a: u8, b: u8) -> (r: u8)
    requires
        a < 16,
        b < 16,
    ensures
        r as nat == t_mul(2, a as nat, b as nat),
        r < 16,
{
    let a0: u8 = a & 3;
    let a1: u8 = a >> 2;
    let b0: u8 = b & 3;
    let b1: u8 = b >> 2;
    proof {
        lemma_xor_l2(a, b);
        lemma_xor_l2(b, a);
    }
    let ll: u8 = mul_l1(a0, b0);
    let lh: u8 = mul_l1(a0, b1);
    let hl: u8 = mul_l1(a1, b0);
    let hh: u8 = mul_l1(a1, b1);
    let ma: u8 = malpha_l1(hh);
    let lo: u8 = ll ^ hh;
    let hi: u8 = (lh ^ hl) ^ ma;
    proof {
        lemma_xor_l2(a, b);
        lemma_xor_l2(b, a);
        lemma_xor_l1(ll, hh);
        lemma_xor_l1(lh, hl);
        lemma_xor_l1(lh ^ hl, ma);
        lemma_join_l2(lo, hi);
    }
    lo | (hi << 2)
}

/// Multiplication in the byte field F_3.
pub fn mul_l3(a: u8, b: u8) -> (r: u8)
    ensures
        r as nat == t_mul(3, a as nat, b as nat),
{
    let a0: u8 = a & 15;
    let a1: u8 = a >> 4;
    let b0: u8 = b & 15;
    let b1: u8 = b >> 4;
    proof {
        lemma_xor_l3(a, b);
        lemma_xor_l3(b, a);
    }
    let ll: u8 = mul_l2(a0, b0);
    let lh: u8 = mul_l2(a0, b1);
    let hl: u8 = mul_l2(a1, b0);
    let hh: u8 = mul_l2(a1, b1);
    let ma: u8 = malpha_l2(hh);
    let lo: u8 = ll ^ hh;
    let hi: u8 = (lh ^ hl) ^ ma;
    proof {
        lemma_xor_l3(a, b);
        lemma_xor_l3(b, a);
        lemma_xor_l2(ll, hh);
        lemma_xor_l2(lh, hl);
        lemma_xor_l2(lh ^ hl, ma);
        lemma_join_l3(lo, hi);
    }
    lo | (hi << 4)
}

/// Multiplication in F_4.
pub fn mul_l4(a: u16, b: u16) -> (r: u16)
    ensures
        r as nat == t_mul(4, a as nat, b as nat),
{
    let a0: u8 = (a & 0xFF) as u8;
    let a1: u8 = (a >> 8) as u8;
    let b0: u8 = (b & 0xFF) as u8;
    let b1: u8 = (b >> 8) as u8;
    let ll: u8 = mul_l3(a0, b0);
    let lh: u8 = mul_l3(a0, b1);
    let hl: u8 = mul_l3(a1, b0);
    let hh: u8 = mul_l3(a1, b1);
    let ma: u8 = malpha_l3(hh);
    let lo: u8 = ll ^ hh;
    let hi: u8 = (lh ^ hl) ^ ma;
    proof {
        lemma_xor_l4(a, b);
        lemma_xor_l4(b, a);
        lemma_xor_l3(ll, hh);
        lemma_xor_l3(lh, hl);
        lemma_xor_l3(lh ^ hl, ma);
        lemma_join_l4(lo, hi);
    }
    (lo as u16) | ((hi as u16) << 8)
}

/// Multiplication in F_5.
pub fn mul_l5(a: u32, b: u32) -> (r: u32)
    ensures
        r as nat == t_mul(5, a as nat, b as nat),
{
    let a0: u16 = (a & 0xFFFF) as u16;
    let a1: u16 = (a >> 16) as u16;
    let b0: u16 = (b & 0xFFFF) as u16;
    let b1: u16 = (b >> 16) as u16;
    let ll: u16 = mul_l4(a0, b0);
    let lh: u16 = mul_l4(a0, b1);
    let hl: u16 = mul_l4(a1, b0);
    let hh: u16 = mul_l4(a1, b1);
    let ma: u16 = malpha_l4(hh);
    let lo: u16 = ll ^ hh;
    let hi: u16 = (lh ^ hl) ^ ma;
    proof {
        lemma_xor_l5(a, b);
        lemma_xor_l5(b, a);
        lemma_xor_l4(ll, hh);
        lemma_xor_l4(lh, hl);
        lemma_xor_l4(lh ^ hl, ma);
        lemma_join_l5(lo, hi);
    }
    (lo as u32) | ((hi as u32) << 16)
}

/// Multiplication in F_6.
pub fn mul_l6(a: u64, b: u64) -> (r: u64)
    ensures
        r as nat == t_mul(6, a as nat, b as nat),
{
    let a0: u32 = (a & 0xFFFF_FFFF) as u32;
    let a1: u32 = (a >> 32) as u32;
    let b0: u32 = (b & 0xFFFF_FFFF) as u32;
    let b1: u32 = (b >> 32) as u32;
    let ll: u32 = mul_l5(a0, b0);
    let lh: u32 = mul_l5(a0, b1);
    let hl: u32 = mul_l5(a1, b0);
    let hh: u32 = mul_l5(a1, b1);
    let ma: u32 = malpha_l5(hh);
    let lo: u32 = ll ^ hh;
    let hi: u32 = (lh ^ hl) ^ ma;
    proof {
        lemma_xor_l6(a, b);
        lemma_xor_l6(b, a);
        lemma_xor_l5(ll, hh);
        lemma_xor_l5(lh, hl);
        lemma_xor_l5(lh ^ hl, ma);
        lemma_join_l6(lo, hi);
    }
    (lo as u64) | ((hi as u64) << 32)
}

/// Multiplication in the 128-bit field F_7.
pub fn mul_l7(a: u128, b: u128) -> (r: u128)
    ensures
        r as nat == t_mul(7, a as nat, b as nat),
{
    let a0: u64 = (a & 0xFFFF_FFFF_FFFF_FFFF) as u64;
    let a1: u64 = (a >> 64) as u64;
    let b0: u64 = (b & 0xFFFF_FFFF_FFFF_FFFF) as u64;
    let b1: u64 = (b >> 64) as u64;
    let ll: u64 = mul_l6(a0, b0);
    let lh: u64 = mul_l6(a0, b1);
    let hl: u64 = mul_l6(a1, b0);
    let hh: u64 = mul_l6(a1, b1);
    let ma: u64 = malpha_l6(hh);
    let lo: u64 = ll ^ hh;
    let hi: u64 = (lh ^ hl) ^ ma;
    proof {
        lemma_xor_l7(a, b);
        lemma_xor_l7(b, a);
        lemma_xor_l6(ll, hh);
        lemma_xor_l6(lh, hl);
        lemma_xor_l6(lh ^ hl, ma);
        lemma_join_l7(lo, hi);
    }
    (lo as u128) | ((hi as u128) << 64)
}

} // verus!
