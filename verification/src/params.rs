//! Parameter selection: test-query counts from the soundness error bound,
//! and the proof-size-optimal scheme parameters.
//!
//! The soundness bounds follow the analysis of the tensor commitment
//! construction: the total error is max(tensor_batching + non_proximal^q,
//! proximal^q), with the per-query factors determined by the relative
//! distance of the code.  Base-2 logarithms are computed in fixed point
//! with 48 fractional bits by the normalize-and-square digit recurrence.
//! Every step of the search is mirrored by a spec function, so the chosen
//! counts and the selected parameters are pinned exactly by the contracts.

use vstd::prelude::*;
use vstd::arithmetic::power2::pow2;
use crate::code::ReedSolomonCode;
use crate::error::Error;
use crate::util::pow2_u64;

verus! {

/// The integer part of the fixed-point logarithm: the number of doublings
/// of `den` that stay at or below `num`, counted from `e`, capped at 15.
pub open spec fn q48_msb(num: int, den: int, e: int) -> int
    decreases 15 - e,
    when 0 <= e <= 15
{
    if e < 15 && den * pow2((e + 1) as nat) <= num {
        q48_msb(num, den, e + 1)
    } else {
        e
    }
}

/// The mantissa of the squaring digit recurrence after `k` steps.
pub open spec fn q48_sq_m(m: int, k: nat) -> int
    decreases k,
{
    if k == 0 {
        m
    } else {
        let p = q48_sq_m(m, (k - 1) as nat);
        let mm = (p * p) / 0x1_0000_0000_0000;
        if mm >= 0x2_0000_0000_0000 {
            mm / 2
        } else {
            mm
        }
    }
}

/// The fractional digits of the squaring recurrence after `k` steps, as one
/// binary number, most significant digit first.
pub open spec fn q48_sq_digits(m: int, k: nat) -> int
    decreases k,
{
    if k == 0 {
        0
    } else {
        let p = q48_sq_m(m, (k - 1) as nat);
        let mm = (p * p) / 0x1_0000_0000_0000;
        q48_sq_digits(m, (k - 1) as nat) * 2 + if mm >= 0x2_0000_0000_0000 {
            1int
        } else {
            0int
        }
    }
}

/// log2(num/den) in Q48 fixed point, truncated: the normalized integer
/// part, and 48 fractional digits from the squaring recurrence, saturating
/// at 15.
#[verifier::opaque]
pub open spec fn log2_q48(num: int, den: int) -> int {
    let e = q48_msb(num, den, 0);
    let m0 = (num * 0x1_0000_0000_0000) / (den * pow2(e as nat));
    if m0 >= 0x2_0000_0000_0000 {
        15int * 0x1_0000_0000_0000
    } else {
        e * 0x1_0000_0000_0000 + q48_sq_digits(m0, 48)
    }
}

/// log2(num/den) in Q48 fixed point, truncated.  The ratio must lie in
/// [1, 2^15); the result is below 15 * 2^48.
fn log2_frac_q48(num: u64, den: u64) -> (r: u64)
    requires
        1 <= den <= num,
        num < 0x1_0000_0000,
    ensures
        r < 0x10_0000_0000_0000,
        r as int == log2_q48(num as int, den as int),
{
    proof {
        reveal(log2_q48);
        vstd::arithmetic::power2::lemma2_to64();
    }
    let mut e: u64 = 0;
    let mut s: u64 = den * 2;
    while s <= num && e < 15
        invariant
            e <= 15,
            den >= 1,
            num < 0x1_0000_0000,
            s as nat == den * pow2((e + 1) as nat),
            s <= 0x2_0000_0000,
            q48_msb(num as int, den as int, 0) == q48_msb(num as int, den as int, e as int),
        decreases 15 - e,
    {
        proof {
            vstd::arithmetic::power2::lemma_pow2_unfold((e + 2) as nat);
            assert(den * pow2((e + 2) as nat) == 2 * (den * pow2((e + 1) as nat)))
                by (nonlinear_arith)
                requires
                    pow2((e + 2) as nat) == 2 * pow2((e + 1) as nat),
            ;
            assert(q48_msb(num as int, den as int, e as int) == q48_msb(
                num as int,
                den as int,
                e as int + 1,
            ));
        }
        e = e + 1;
        s = s * 2;
    }
    proof {
        assert(q48_msb(num as int, den as int, e as int) == e as int);
        vstd::arithmetic::power2::lemma_pow2_unfold((e + 1) as nat);
        assert(s as int == 2 * ((den as int) * pow2(e as nat))) by (nonlinear_arith)
            requires
                s as int == (den as int) * pow2((e + 1) as nat),
                pow2((e + 1) as nat) == 2 * pow2(e as nat),
        ;
        vstd::arithmetic::power2::lemma_pow2_pos(e as nat);
        assert((den as int) * pow2(e as nat) >= 1) by (nonlinear_arith)
            requires
                den >= 1,
                pow2(e as nat) >= 1,
        ;
    }
    let divisor: u128 = (s / 2) as u128;
    let m0: u128 = (num as u128) * 0x1_0000_0000_0000u128 / divisor;
    if m0 >= 0x2_0000_0000_0000u128 {
        return 0xF_0000_0000_0000u64;
    }
    let mut m: u128 = m0;
    let mut frac: u64 = 0;
    let mut k: u64 = 0;
    while k < 48
        invariant
            k <= 48,
            m < 0x2_0000_0000_0000u128,
            (frac as nat) < pow2(k as nat),
            m as int == q48_sq_m(m0 as int, k as nat),
            frac as int == q48_sq_digits(m0 as int, k as nat),
        decreases 48 - k,
    {
        proof {
            vstd::arithmetic::power2::lemma2_to64();
            assert(m * m < 0x4_0000_0000_0000_0000_0000_0000u128) by (nonlinear_arith)
                requires
                    m < 0x2_0000_0000_0000u128,
            ;
            vstd::arithmetic::power2::lemma2_to64_rest();
            assert(pow2(k as nat) <= pow2(47)) by {
                if k < 47 {
                    vstd::arithmetic::power2::lemma_pow2_strictly_increases(k as nat, 47);
                }
            }
            vstd::arithmetic::power2::lemma_pow2_unfold((k + 1) as nat);
        }
        let mm: u128 = m * m;
        let md: u128 = mm / 0x1_0000_0000_0000u128;
        let bit: u64;
        if md >= 0x2_0000_0000_0000u128 {
            m = md / 2;
            bit = 1;
        } else {
            m = md;
            bit = 0;
        }
        frac = frac * 2 + bit;
        k = k + 1;
    }
    proof {
        vstd::arithmetic::power2::lemma2_to64();
        assert(pow2(48) == 0x1_0000_0000_0000nat) by {
            vstd::arithmetic::power2::lemma_pow2_adds(24, 24);
        }
        assert(e * 0x1_0000_0000_0000 <= 15 * 0x1_0000_0000_0000) by (nonlinear_arith)
            requires
                e <= 15,
        ;
    }
    e * 0x1_0000_0000_0000u64 + frac
}

/// floor of -log2(2^-a + 2^-b) for Q48 exponents; `b` absent means the
/// second term is zero.  The correction log2(1 + 2^-d) is computed by the
/// fixed-point logarithm at a reduced scale.
#[verifier::opaque]
pub open spec fn combined_q48(a: int, b: Option<u64>) -> int {
    match b {
        None => a / 0x1_0000_0000_0000,
        Some(x) => {
            let lo = if (x as int) < a {
                x as int
            } else {
                a
            };
            let hi = if (x as int) < a {
                a
            } else {
                x as int
            };
            let d = (hi - lo) / 0x1_0000_0000_0000;
            let corr = if d >= 48 {
                0
            } else {
                log2_q48((0x1_0000_0000_0000int + pow2((48 - d) as nat)) / 0x10_0000, 0x1000_0000)
            };
            if corr > lo {
                0
            } else {
                (lo - corr) / 0x1_0000_0000_0000
            }
        },
    }
}

/// floor of -log2(2^-a + 2^-b) for Q48 exponents; `b` absent means the
/// second term is zero.
fn combined_bound_q48(av: u128, b: Option<u64>) -> (r: u64)
    requires
        av < 0x4000_0000_0000_0000,
        b matches Some(x) ==> x < 0x4000_0000_0000_0000,
    ensures
        r as int == combined_q48(av as int, b),
{
    let a: u64 = av as u64;
    proof {
        reveal(combined_q48);
        assert(av as u64 as int == av as int) by (bit_vector)
            requires
                av < 0x4000_0000_0000_0000u128,
        ;
    }
    let (lo, hi): (u64, u64) = match b {
        Some(x) => {
            if x < a {
                (x, a)
            } else {
                (a, x)
            }
        },
        None => {
            return a / 0x1_0000_0000_0000u64;
        },
    };
    let d: u64 = (hi - lo) / 0x1_0000_0000_0000u64;
    let corr: u64 = if d >= 48 {
        0
    } else {
        let down: u64 = 48 - d;
        let pd: u64 = pow2_u64(down);
        proof {
            vstd::arithmetic::power2::lemma2_to64();
            assert(pow2(48) == 0x1_0000_0000_0000nat) by {
                vstd::arithmetic::power2::lemma_pow2_adds(24, 24);
            }
            assert(pow2(down as nat) <= pow2(48)) by {
                if down < 48 {
                    vstd::arithmetic::power2::lemma_pow2_strictly_increases(down as nat, 48);
                }
            }
        }
        let numv: u64 = 0x1_0000_0000_0000u64 + pd;
        let nv: u64 = numv / 0x10_0000;
        proof {
            assert(nv >= 0x1000_0000) by (nonlinear_arith)
                requires
                    nv == numv / 0x10_0000,
                    numv >= 0x1_0000_0000_0000u64,
            ;
            assert(nv < 0x1_0000_0000) by (nonlinear_arith)
                requires
                    nv == numv / 0x10_0000,
                    numv <= 0x2_0000_0000_0000u64,
            ;
        }
        log2_frac_q48(nv, 0x1000_0000)
    };
    if corr > lo {
        return 0;
    }
    (lo - corr) / 0x1_0000_0000_0000u64
}

/// The mantissa left by halving `c` until it drops below 2^15.
pub open spec fn norm_mantissa(c: int) -> int
    decreases c,
    when c >= 1
{
    if c >= 0x8000 {
        norm_mantissa(c / 2)
    } else {
        c
    }
}

/// The number of halvings of `c` until it drops below 2^15.
pub open spec fn norm_shift(c: int) -> int
    decreases c,
    when c >= 1
{
    if c >= 0x8000 {
        1 + norm_shift(c / 2)
    } else {
        0
    }
}

/// The tensor-batching error exponent: -log2(2 * log_rows * (e+1) / 2^128),
/// absent when the numerator vanishes or overwhelms the scale.
#[verifier::opaque]
pub open spec fn batching_q48(log_rows: int, e_plus_1: int) -> Option<u64> {
    let c = 2 * log_rows * e_plus_1;
    if c == 0 {
        None
    } else {
        let l = log2_q48(norm_mantissa(c), 1) + norm_shift(c) * 0x1_0000_0000_0000;
        if l >= 128 * 0x1_0000_0000_0000 {
            None
        } else {
            Some((128 * 0x1_0000_0000_0000 - l) as u64)
        }
    }
}

/// The tensor-batching error exponent: -log2(2 * log_rows * (e+1) / 2^128),
/// absent when the numerator vanishes.
fn batching_term_q48(log_rows: u64, e_plus_1: u64) -> (r: Option<u64>)
    requires
        log_rows <= 64,
        1 <= e_plus_1 <= 0x4000_0000,
    ensures
        r matches Some(x) ==> x < 0x4000_0000_0000_0000,
        r == batching_q48(log_rows as int, e_plus_1 as int),
{
    proof {
        reveal(batching_q48);
        assert(2 * log_rows * e_plus_1 <= 128 * 0x4000_0000) by (nonlinear_arith)
            requires
                log_rows <= 64,
                e_plus_1 <= 0x4000_0000,
        ;
    }
    let c: u64 = 2 * log_rows * e_plus_1;
    if c == 0 {
        return None;
    }
    // log2(c) = log2(c / 2^sh) + sh with c reduced below the ratio cap.
    let mut cc: u64 = c;
    let mut sh: u64 = 0;
    proof {
        vstd::arithmetic::power2::lemma2_to64();
    }
    while cc >= 0x8000
        invariant
            1 <= cc <= c,
            1 <= c <= 0x8000_0000_0000,
            (cc as nat) * pow2(sh as nat) <= c as nat,
            sh <= 48,
            norm_mantissa(c as int) == norm_mantissa(cc as int),
            norm_shift(c as int) == sh + norm_shift(cc as int),
        decreases cc,
    {
        proof {
            vstd::arithmetic::power2::lemma2_to64();
            assert(pow2(sh as nat) <= 0x1_0000_0000) by {
                assert((0x8000 as nat) * pow2(sh as nat) <= (cc as nat) * pow2(sh as nat))
                    by (nonlinear_arith)
                    requires
                        cc >= 0x8000,
                        pow2(sh as nat) >= 0,
                ;
                if pow2(sh as nat) > 0x1_0000_0000 {
                    assert((0x8000 as nat) * pow2(sh as nat) > 0x8000_0000_0000nat)
                        by (nonlinear_arith)
                        requires
                            pow2(sh as nat) > 0x1_0000_0000,
                    ;
                }
            }
            assert(sh < 48) by {
                if sh >= 48 {
                    vstd::arithmetic::power2::lemma_pow2_adds(24, 24);
                    assert(pow2(sh as nat) >= pow2(48)) by {
                        if sh > 48 {
                            vstd::arithmetic::power2::lemma_pow2_strictly_increases(
                                48,
                                sh as nat,
                            );
                        }
                    }
                }
            }
            vstd::arithmetic::power2::lemma_pow2_unfold((sh + 1) as nat);
            assert(((cc / 2) as nat) * pow2((sh + 1) as nat) <= (cc as nat) * pow2(sh as nat))
                by (nonlinear_arith)
                requires
                    pow2((sh + 1) as nat) == 2 * pow2(sh as nat),
            ;
        }
        cc = cc / 2;
        sh = sh + 1;
    }
    let lf: u64 = log2_frac_q48(cc, 1);
    proof {
        assert(sh * 0x1_0000_0000_0000 <= 48u64 * 0x1_0000_0000_0000) by (nonlinear_arith)
            requires
                sh <= 48,
        ;
    }
    let l: u64 = lf + sh * 0x1_0000_0000_0000u64;
    if l >= 0x80_0000_0000_0000u64 {
        return None;
    }
    Some(0x80_0000_0000_0000u64 - l)
}

/// Whether one query count clears the Reed-Solomon soundness bound: the
/// proximity exponent overflows the scale outright, or the combined bound
/// reaches the security level.
pub open spec fn rs_accepts(per: int, tb: Option<u64>, security_bits: int, qq: int) -> bool {
    let prod = qq * per;
    prod >= 0x4000_0000_0000_0000 || combined_q48(prod, tb) >= security_bits
}

/// The first accepted query count among `q + t .. q + 10`.
pub open spec fn rs_search_from(per: int, tb: Option<u64>, security_bits: int, q: int, t: int)
    -> Option<u64>
    decreases 10 - t,
    when 0 <= t <= 10
{
    if t >= 10 {
        None
    } else if rs_accepts(per, tb, security_bits, q + t) {
        Some((q + t) as u64)
    } else {
        rs_search_from(per, tb, security_bits, q, t + 1)
    }
}

/// The Reed-Solomon query-count search: the least accepted count within ten
/// increments of the starting estimate, if any.
pub open spec fn rs_search(security_bits: int, log_rows: int, n: int, d: int) -> Option<u64> {
    let per = log2_q48(2 * n, 2 * n - d);
    if per == 0 {
        None
    } else {
        let q0 = (security_bits * 0x1_0000_0000_0000 + per - 1) / per;
        if q0 >= 0x1000_0000 {
            None
        } else {
            let q = if q0 == 0 {
                1int
            } else {
                q0
            };
            rs_search_from(per, batching_q48(log_rows, (d - 1) / 2 + 1), security_bits, q, 0)
        }
    }
}

/// The least query count at least the starting estimate, within ten tries,
/// whose Reed-Solomon soundness bound reaches the security level: both
/// proximity factors are 1 - relative_dist/2.
#[verifier::rlimit(100)]
fn search_n_queries_rs(security_bits: u64, log_rows: u64, n: u64, d: u64) -> (r: Option<u64>)
    requires
        1 <= d <= n,
        2 <= n <= 0x4000_0000,
        1 <= security_bits <= 1024,
        log_rows <= 64,
    ensures
        r matches Some(q) ==> 1 <= q < 0x1100_0000,
        r == rs_search(security_bits as int, log_rows as int, n as int, d as int),
{
    let per: u64 = log2_frac_q48(2 * n, 2 * n - d);
    if per == 0 {
        return None;
    }
    let sbq: u128 = (security_bits as u128) * 0x1_0000_0000_0000u128;
    let q0: u128 = (sbq + (per as u128) - 1) / (per as u128);
    if q0 >= 0x1000_0000 {
        return None;
    }
    let q: u64 = if q0 == 0 {
        1
    } else {
        q0 as u64
    };
    let e_plus_1: u64 = (d - 1) / 2 + 1;
    let tb = batching_term_q48(log_rows, e_plus_1);
    let ghost sb = security_bits as int;
    proof {
        assert(rs_search(sb, log_rows as int, n as int, d as int) == rs_search_from(
            per as int,
            tb,
            sb,
            q as int,
            0,
        ));
    }
    let mut t: u64 = 0;
    while t < 10
        invariant
            t <= 10,
            1 <= q < 0x1000_0000,
            per < 0x10_0000_0000_0000,
            tb matches Some(x) ==> x < 0x4000_0000_0000_0000,
            tb == batching_q48(log_rows as int, e_plus_1 as int),
            sb == security_bits as int,
            rs_search(security_bits as int, log_rows as int, n as int, d as int)
                == rs_search_from(per as int, tb, sb, q as int, t as int),
        decreases 10 - t,
    {
        let qq: u64 = q + t;
        proof {
            assert((qq as u128) * (per as u128) < 0x1_0000_0000_0000_0000_0000_0000u128)
                by (nonlinear_arith)
                requires
                    qq < 0x1000_0000 + 10,
                    (per as u128) < 0x10_0000_0000_0000u128,
            ;
        }
        let prod: u128 = (qq as u128) * (per as u128);
        if prod >= 0x4000_0000_0000_0000u128 {
            // The proximity exponent alone towers over any security level.
            proof {
                assert(prod as int == (qq as int) * (per as int));
                assert(rs_accepts(per as int, tb, sb, qq as int));
                assert(rs_search_from(per as int, tb, sb, q as int, t as int) == Some(qq));
            }
            return Some(qq);
        }
        let bound = combined_bound_q48(prod, tb);
        proof {
            assert(prod as int == (qq as int) * (per as int));
            assert(bound as int == combined_q48((qq as int) * (per as int), tb));
        }
        if bound >= security_bits {
            proof {
                assert(rs_accepts(per as int, tb, sb, qq as int));
                assert(rs_search_from(per as int, tb, sb, q as int, t as int) == Some(qq));
            }
            return Some(qq);
        }
        proof {
            assert(!rs_accepts(per as int, tb, sb, qq as int));
        }
        t = t + 1;
    }
    None
}

/// Whether one query count clears the general linear-code soundness bound.
pub open spec fn gen_accepts(lnp: int, lp: int, tb: Option<u64>, security_bits: int, qq: int)
    -> bool {
    let p1 = qq * lnp;
    let p2 = qq * lp;
    if p1 >= 0x4000_0000_0000_0000 && p2 >= 0x4000_0000_0000_0000 {
        true
    } else if p1 < 0x4000_0000_0000_0000 && p2 < 0x4000_0000_0000_0000 {
        let b1 = combined_q48(p1, tb);
        let b2 = p2 / 0x1_0000_0000_0000;
        (if b1 < b2 {
            b1
        } else {
            b2
        }) >= security_bits
    } else {
        let small = if p1 < p2 {
            p1
        } else {
            p2
        };
        small / 0x1_0000_0000_0000 >= security_bits
    }
}

/// The first accepted query count among `q + t .. q + 10`, general bound.
pub open spec fn gen_search_from(
    lnp: int,
    lp: int,
    tb: Option<u64>,
    security_bits: int,
    q: int,
    t: int,
) -> Option<u64>
    decreases 10 - t,
    when 0 <= t <= 10
{
    if t >= 10 {
        None
    } else if gen_accepts(lnp, lp, tb, security_bits, q + t) {
        Some((q + t) as u64)
    } else {
        gen_search_from(lnp, lp, tb, security_bits, q, t + 1)
    }
}

/// The general linear-code query-count search: the least accepted count
/// within ten increments of the starting estimate, if any.
pub open spec fn gen_search(security_bits: int, log_rows: int, n: int, d: int) -> Option<u64> {
    let lnp = log2_q48(3 * n, 3 * n - d);
    if lnp == 0 {
        None
    } else if 3 * n <= 2 * d {
        None
    } else {
        let lp = log2_q48(3 * n, 3 * n - 2 * d);
        let q0 = (security_bits * 0x1_0000_0000_0000 + lnp - 1) / lnp;
        if q0 >= 0x1000_0000 {
            None
        } else {
            let q = if q0 == 0 {
                1int
            } else {
                q0
            };
            gen_search_from(lnp, lp, batching_q48(log_rows, (d - 1) / 3 + 1), security_bits, q, 0)
        }
    }
}

/// As the Reed-Solomon search, with the general linear-code factors
/// 1 - rd/3 and 1 - 2 rd/3 and the error radius (d-1)/3.
#[verifier::rlimit(100)]
fn search_n_queries_general(security_bits: u64, log_rows: u64, n: u64, d: u64) -> (r: Option<u64>)
    requires
        1 <= d <= n,
        2 <= n <= 0x4000_0000,
        1 <= security_bits <= 1024,
        log_rows <= 64,
    ensures
        r matches Some(q) ==> 1 <= q < 0x1100_0000,
        r == gen_search(security_bits as int, log_rows as int, n as int, d as int),
{
    let lnp: u64 = log2_frac_q48(3 * n, 3 * n - d);
    if lnp == 0 {
        return None;
    }
    if 3 * n <= 2 * d {
        return None;
    }
    let lp: u64 = log2_frac_q48(3 * n, 3 * n - 2 * d);
    let sbq: u128 = (security_bits as u128) * 0x1_0000_0000_0000u128;
    let q0: u128 = (sbq + (lnp as u128) - 1) / (lnp as u128);
    if q0 >= 0x1000_0000 {
        return None;
    }
    let q: u64 = if q0 == 0 {
        1
    } else {
        q0 as u64
    };
    let e_plus_1: u64 = (d - 1) / 3 + 1;
    let tb = batching_term_q48(log_rows, e_plus_1);
    let ghost sb = security_bits as int;
    proof {
        assert(gen_search(sb, log_rows as int, n as int, d as int) == gen_search_from(
            lnp as int,
            lp as int,
            tb,
            sb,
            q as int,
            0,
        ));
    }
    let mut t: u64 = 0;
    while t < 10
        invariant
            t <= 10,
            1 <= q < 0x1000_0000,
            lnp < 0x10_0000_0000_0000,
            lp < 0x10_0000_0000_0000,
            tb matches Some(x) ==> x < 0x4000_0000_0000_0000,
            tb == batching_q48(log_rows as int, e_plus_1 as int),
            sb == security_bits as int,
            gen_search(security_bits as int, log_rows as int, n as int, d as int)
                == gen_search_from(lnp as int, lp as int, tb, sb, q as int, t as int),
        decreases 10 - t,
    {
        let qq: u64 = q + t;
        proof {
            assert((qq as u128) * (lnp as u128) < 0x1_0000_0000_0000_0000_0000_0000u128 && (
            qq as u128) * (lp as u128) < 0x1_0000_0000_0000_0000_0000_0000u128)
                by (nonlinear_arith)
                requires
                    qq < 0x1000_0000 + 10,
                    (lnp as u128) < 0x10_0000_0000_0000u128,
                    (lp as u128) < 0x10_0000_0000_0000u128,
            ;
        }
        let prod1: u128 = (qq as u128) * (lnp as u128);
        let prod2: u128 = (qq as u128) * (lp as u128);
        proof {
            assert(prod1 as int == (qq as int) * (lnp as int));
            assert(prod2 as int == (qq as int) * (lp as int));
        }
        if prod1 >= 0x4000_0000_0000_0000u128 && prod2 >= 0x4000_0000_0000_0000u128 {
            proof {
                assert(gen_accepts(lnp as int, lp as int, tb, sb, qq as int));
                assert(gen_search_from(lnp as int, lp as int, tb, sb, q as int, t as int)
                    == Some(qq));
            }
            return Some(qq);
        }
        if prod1 < 0x4000_0000_0000_0000u128 && prod2 < 0x4000_0000_0000_0000u128 {
            let b1 = combined_bound_q48(prod1, tb);
            let b2: u64 = ((prod2 / 0x1_0000_0000_0000u128) as u64);
            proof {
                assert((prod2 / 0x1_0000_0000_0000u128) as u64 as int == (prod2
                    / 0x1_0000_0000_0000u128) as int) by (bit_vector)
                    requires
                        prod2 < 0x4000_0000_0000_0000u128,
                ;
                assert(b1 as int == combined_q48((qq as int) * (lnp as int), tb));
                assert(b2 as int == ((qq as int) * (lp as int)) / 0x1_0000_0000_0000);
            }
            let bound: u64 = if b1 < b2 {
                b1
            } else {
                b2
            };
            if bound >= security_bits {
                proof {
                    assert(gen_accepts(lnp as int, lp as int, tb, sb, qq as int));
                    assert(gen_search_from(lnp as int, lp as int, tb, sb, q as int, t as int)
                        == Some(qq));
                }
                return Some(qq);
            }
            proof {
                assert(!gen_accepts(lnp as int, lp as int, tb, sb, qq as int));
            }
        } else {
            let small: u128 = if prod1 < prod2 {
                prod1
            } else {
                prod2
            };
            let bound: u64 = ((small / 0x1_0000_0000_0000u128) as u64);
            proof {
                assert((small / 0x1_0000_0000_0000u128) as u64 as int == (small
                    / 0x1_0000_0000_0000u128) as int) by (bit_vector)
                    requires
                        small < 0x4000_0000_0000_0000u128,
                ;
                assert(bound as int == (if (qq as int) * (lnp as int) < (qq as int) * (lp as int) {
                    (qq as int) * (lnp as int)
                } else {
                    (qq as int) * (lp as int)
                }) / 0x1_0000_0000_0000);
            }
            if bound >= security_bits {
                proof {
                    assert(gen_accepts(lnp as int, lp as int, tb, sb, qq as int));
                    assert(gen_search_from(lnp as int, lp as int, tb, sb, q as int, t as int)
                        == Some(qq));
                }
                return Some(qq);
            }
            proof {
                assert(!gen_accepts(lnp as int, lp as int, tb, sb, qq as int));
            }
        }
        t = t + 1;
    }
    None
}

/// What `calculate_n_test_queries` returns: the search outcome over the
/// code's length and minimum distance, or the parameter error.
pub open spec fn n_queries_result(
    security_bits: int,
    log_rows: int,
    n: int,
    dim: int,
    reed_solomon: bool,
) -> Result<usize, Error> {
    let d = n - dim + 1;
    if n < 2 {
        Err(Error::ParameterError)
    } else {
        let s = if reed_solomon {
            rs_search(security_bits, log_rows, n, d)
        } else {
            gen_search(security_bits, log_rows, n, d)
        };
        match s {
            Some(q) => Ok(q as usize),
            None => Err(Error::ParameterError),
        }
    }
}

/// The least query count whose general linear-code soundness bound reaches
/// `security_bits`, within ten increments of the starting estimate.
pub fn calculate_n_test_queries(security_bits: usize, log_rows: usize, code: &ReedSolomonCode)
    -> (r: Result<usize, Error>)
    requires
        code.wf(),
        1 <= security_bits <= 1024,
        log_rows <= 64,
    ensures
        r == n_queries_result(
            security_bits as int,
            log_rows as int,
            code.spec_len() as int,
            code.spec_dim() as int,
            false,
        ),
        match r {
            Ok(q) => 1 <= q < 0x1100_0000,
            Err(e) => e == Error::ParameterError,
        },
{
    proof {
        lemma_code_sizes(code);
    }
    let n: u64 = code.len() as u64;
    let dim: u64 = code.dim() as u64;
    let d: u64 = n - dim + 1;
    if n < 2 {
        return Err(Error::ParameterError);
    }
    match search_n_queries_general(security_bits as u64, log_rows as u64, n, d) {
        Some(q) => Ok(q as usize),
        None => Err(Error::ParameterError),
    }
}

/// The least query count whose Reed-Solomon soundness bound reaches
/// `security_bits`, within ten increments of the starting estimate.
pub fn calculate_n_test_queries_reed_solomon(
    security_bits: usize,
    log_rows: usize,
    code: &ReedSolomonCode,
) -> (r: Result<usize, Error>)
    requires
        code.wf(),
        1 <= security_bits <= 1024,
        log_rows <= 64,
    ensures
        r == n_queries_result(
            security_bits as int,
            log_rows as int,
            code.spec_len() as int,
            code.spec_dim() as int,
            true,
        ),
        match r {
            Ok(q) => 1 <= q < 0x1100_0000,
            Err(e) => e == Error::ParameterError,
        },
{
    proof {
        lemma_code_sizes(code);
    }
    let n: u64 = code.len() as u64;
    let dim: u64 = code.dim() as u64;
    let d: u64 = n - dim + 1;
    if n < 2 {
        return Err(Error::ParameterError);
    }
    match search_n_queries_rs(security_bits as u64, log_rows as u64, n, d) {
        Some(q) => Ok(q as usize),
        None => Err(Error::ParameterError),
    }
}

/// Sizes a well-formed code guarantees.
proof fn lemma_code_sizes(code: &ReedSolomonCode)
    requires
        code.wf(),
    ensures
        1 <= code.spec_dim() <= code.spec_len(),
        code.spec_len() <= 256,
{
    vstd::arithmetic::power2::lemma2_to64();
    vstd::arithmetic::power2::lemma_pow2_pos(code.log_dim as nat);
    if code.log_dim < code.log_dim + code.log_inv_rate {
        vstd::arithmetic::power2::lemma_pow2_strictly_increases(
            code.log_dim as nat,
            (code.log_dim + code.log_inv_rate) as nat,
        );
    }
    assert(pow2((code.log_dim + code.log_inv_rate) as nat) <= pow2(8)) by {
        if code.log_dim + code.log_inv_rate < 8 {
            vstd::arithmetic::power2::lemma_pow2_strictly_increases(
                (code.log_dim + code.log_inv_rate) as nat,
                8,
            );
        }
    }
}

/// The field layout of a tensor commitment configuration, as plain sizes:
/// the base-2 logarithm of the intermediate extension degree over the
/// witness field, the byte size of one intermediate scalar, and the bit
/// size of the code's alphabet field.
#[derive(Clone, Copy, PartialEq, Eq, Structural)]
pub struct PcsFieldConfig {
    pub log_degree: usize,
    pub pi_scalar_bytes: u64,
    pub fa_bits: usize,
}

/// A chosen parameterization of the tensor commitment scheme.
pub struct PcsParams {
    pub log_rows: usize,
    pub log_dim: usize,
    pub log_inv_rate: usize,
    pub n_test_queries: usize,
    pub cfg: PcsFieldConfig,
}

impl PcsParams {
    pub open spec fn wf(&self) -> bool {
        &&& self.log_rows <= 32
        &&& self.log_dim + self.cfg.log_degree <= 32
        &&& self.log_dim + self.log_inv_rate <= 32
        &&& 1 <= self.n_test_queries < 0x1_0000_0000
        &&& 1 <= self.cfg.pi_scalar_bytes <= 64
    }

    /// Number of variables of a committed multilinear.
    pub fn n_vars(&self) -> (r: usize)
        requires
            self.wf(),
        ensures
            r == self.log_rows + self.log_dim + self.cfg.log_degree,
    {
        self.log_rows + self.log_dim + self.cfg.log_degree
    }

    /// Base-2 logarithm of the number of rows of the committed matrix.
    pub fn log_rows(&self) -> (r: usize)
        ensures
            r == self.log_rows,
    {
        self.log_rows
    }

    /// Base-2 logarithm of the number of columns of the pre-encoded matrix.
    pub fn log_cols(&self) -> (r: usize)
        requires
            self.wf(),
        ensures
            r == self.log_dim + self.cfg.log_degree,
    {
        self.log_dim + self.cfg.log_degree
    }

    /// Size in bytes of an evaluation proof for a batch of `n_polys`: the
    /// mixed partial evaluation, and per test query the opened columns of
    /// every polynomial and the Merkle path.
    pub fn proof_size(&self, n_polys: u64) -> (r: u128)
        requires
            self.wf(),
            n_polys <= 0x10000,
        ensures
            r as int == pcs_proof_size(*self, n_polys as int),
    {
        proof {
            vstd::arithmetic::power2::lemma2_to64();
            assert(pow2((self.log_dim + self.cfg.log_degree) as nat) <= pow2(32)) by {
                if self.log_dim + self.cfg.log_degree < 32 {
                    vstd::arithmetic::power2::lemma_pow2_strictly_increases(
                        (self.log_dim + self.cfg.log_degree) as nat,
                        32,
                    );
                }
            }
            assert(pow2(self.log_rows as nat) <= pow2(32)) by {
                if self.log_rows < 32 {
                    vstd::arithmetic::power2::lemma_pow2_strictly_increases(
                        self.log_rows as nat,
                        32,
                    );
                }
            }
        }
        let t_prime_size: u128 = 16 * (pow2_u64((self.log_dim + self.cfg.log_degree) as u64)
            as u128);
        let rowsz: u128 = pow2_u64(self.log_rows as u64) as u128;
        proof {
            assert((self.cfg.pi_scalar_bytes as u128) * rowsz <= 64 * 0x1_0000_0000u128)
                by (nonlinear_arith)
                requires
                    self.cfg.pi_scalar_bytes <= 64,
                    rowsz <= 0x1_0000_0000u128,
            ;
        }
        let column_size: u128 = (self.cfg.pi_scalar_bytes as u128) * rowsz;
        proof {
            assert((n_polys as u128) * column_size <= 0x10000u128 * (64 * 0x1_0000_0000))
                by (nonlinear_arith)
                requires
                    n_polys <= 0x10000,
                    column_size <= 64 * 0x1_0000_0000u128,
            ;
        }
        let vcs_size: u128 = 32 * ((self.log_dim + self.log_inv_rate) as u128);
        let per_query: u128 = (n_polys as u128) * column_size + vcs_size;
        proof {
            assert(per_query * (self.n_test_queries as u128) <= (0x10000u128 * (64
                * 0x1_0000_0000) + 0x800) * 0x1_0000_0000) by (nonlinear_arith)
                requires
                    per_query <= 0x10000u128 * (64 * 0x1_0000_0000) + 0x800,
                    self.n_test_queries < 0x1_0000_0000,
            ;
        }
        t_prime_size + per_query * (self.n_test_queries as u128)
    }
}

/// The size in bytes of an evaluation proof under a parameterization: the
/// mixed partial evaluation, and per test query the opened columns of every
/// polynomial and the Merkle path.
pub open spec fn pcs_proof_size(p: PcsParams, n_polys: int) -> int {
    16 * pow2((p.log_dim + p.cfg.log_degree) as nat) + (n_polys * (p.cfg.pi_scalar_bytes
        * pow2(p.log_rows as nat)) + 32 * (p.log_dim + p.log_inv_rate)) * p.n_test_queries
}

/// The candidate parameterization at one row count: feasible when the code
/// fits the alphabet field and the query-count search succeeds.
pub open spec fn pcs_candidate(
    security_bits: int,
    n_vars: int,
    log_inv_rate: int,
    conservative_testing: bool,
    cfg: PcsFieldConfig,
    lr: int,
) -> Option<PcsParams> {
    let log_dim = n_vars - lr - cfg.log_degree;
    if log_dim + log_inv_rate <= cfg.fa_bits {
        let n = pow2((log_dim + log_inv_rate) as nat) as int;
        let dim = pow2(log_dim as nat) as int;
        let d = n - dim + 1;
        let s = if conservative_testing {
            gen_search(security_bits, lr, n, d)
        } else {
            rs_search(security_bits, lr, n, d)
        };
        match s {
            Some(q) => Some(
                PcsParams {
                    log_rows: lr as usize,
                    log_dim: log_dim as usize,
                    log_inv_rate: log_inv_rate as usize,
                    n_test_queries: q as usize,
                    cfg,
                },
            ),
            None => None,
        }
    } else {
        None
    }
}

/// Find the parameterization that minimizes proof size for a given number
/// of variables, batch size and inverse rate, scanning the feasible range
/// of row counts.  The earliest minimum is kept: `None` exactly when no row
/// count is feasible, and on `Some` every feasible candidate is at least as
/// large, strictly larger at every earlier row count.
#[verifier::rlimit(100)]
pub fn find_proof_size_optimal_pcs(
    security_bits: usize,
    n_vars: usize,
    n_polys: usize,
    log_inv_rate: usize,
    conservative_testing: bool,
    cfg: PcsFieldConfig,
) -> (r: Option<PcsParams>)
    requires
        1 <= security_bits <= 1024,
        cfg.log_degree <= n_vars,
        n_vars <= 32,
        1 <= log_inv_rate <= 8,
        1 <= n_polys <= 0x10000,
        cfg.fa_bits <= 30,
        1 <= cfg.pi_scalar_bytes <= 64,
    ensures
        r is None <==> (forall|lr: int|
            0 <= lr <= n_vars - cfg.log_degree ==> #[trigger] pcs_candidate(
                security_bits as int,
                n_vars as int,
                log_inv_rate as int,
                conservative_testing,
                cfg,
                lr,
            ) is None),
        match r {
            Some(p) => {
                &&& p.wf()
                &&& p.log_rows + p.log_dim + p.cfg.log_degree == n_vars
                &&& p.log_inv_rate == log_inv_rate
                &&& p.log_rows + cfg.log_degree <= n_vars
                &&& pcs_candidate(
                    security_bits as int,
                    n_vars as int,
                    log_inv_rate as int,
                    conservative_testing,
                    cfg,
                    p.log_rows as int,
                ) == Some(p)
                &&& forall|lr: int|
                    0 <= lr <= n_vars - cfg.log_degree ==> match #[trigger] pcs_candidate(
                        security_bits as int,
                        n_vars as int,
                        log_inv_rate as int,
                        conservative_testing,
                        cfg,
                        lr,
                    ) {
                        Some(c) => pcs_proof_size(c, n_polys as int) >= pcs_proof_size(
                            p,
                            n_polys as int,
                        ),
                        None => true,
                    }
                &&& forall|lr: int|
                    0 <= lr < p.log_rows ==> match #[trigger] pcs_candidate(
                        security_bits as int,
                        n_vars as int,
                        log_inv_rate as int,
                        conservative_testing,
                        cfg,
                        lr,
                    ) {
                        Some(c) => pcs_proof_size(c, n_polys as int) > pcs_proof_size(
                            p,
                            n_polys as int,
                        ),
                        None => true,
                    }
            },
            None => true,
        },
{
    let ghost sb = security_bits as int;
    let ghost nv = n_vars as int;
    let ghost lir = log_inv_rate as int;
    let mut best_size: u128 = 0;
    let mut best: Option<PcsParams> = None;
    let mut log_rows: usize = 0;
    while log_rows <= n_vars - cfg.log_degree
        invariant
            log_rows <= n_vars - cfg.log_degree + 1,
            cfg.log_degree <= n_vars,
            n_vars <= 32,
            1 <= log_inv_rate <= 8,
            1 <= n_polys <= 0x10000,
            1 <= security_bits <= 1024,
            1 <= cfg.pi_scalar_bytes <= 64,
            cfg.fa_bits <= 30,
            sb == security_bits as int,
            nv == n_vars as int,
            lir == log_inv_rate as int,
            match best {
                Some(p) => {
                    &&& p.wf()
                    &&& p.log_rows + p.log_dim + p.cfg.log_degree == n_vars
                    &&& p.log_inv_rate == log_inv_rate
                    &&& p.log_rows < log_rows
                    &&& pcs_candidate(sb, nv, lir, conservative_testing, cfg, p.log_rows as int)
                        == Some(p)
                    &&& best_size as int == pcs_proof_size(p, n_polys as int)
                    &&& forall|lr: int|
                        0 <= lr < log_rows ==> match #[trigger] pcs_candidate(
                            sb,
                            nv,
                            lir,
                            conservative_testing,
                            cfg,
                            lr,
                        ) {
                            Some(c) => pcs_proof_size(c, n_polys as int) >= best_size as int,
                            None => true,
                        }
                    &&& forall|lr: int|
                        0 <= lr < p.log_rows ==> match #[trigger] pcs_candidate(
                            sb,
                            nv,
                            lir,
                            conservative_testing,
                            cfg,
                            lr,
                        ) {
                            Some(c) => pcs_proof_size(c, n_polys as int) > best_size as int,
                            None => true,
                        }
                },
                None => forall|lr: int|
                    0 <= lr < log_rows ==> #[trigger] pcs_candidate(
                        sb,
                        nv,
                        lir,
                        conservative_testing,
                        cfg,
                        lr,
                    ) is None,
            },
        decreases n_vars - cfg.log_degree + 1 - log_rows,
    {
        let log_dim: usize = n_vars - log_rows - cfg.log_degree;
        let ghost cand_here = pcs_candidate(sb, nv, lir, conservative_testing, cfg,
            log_rows as int);
        if log_dim + log_inv_rate <= cfg.fa_bits {
            let n: u64 = pow2_u64((log_dim + log_inv_rate) as u64);
            let dim: u64 = pow2_u64(log_dim as u64);
            proof {
                vstd::arithmetic::power2::lemma2_to64();
                assert(pow2((log_dim + log_inv_rate) as nat) <= pow2(30)) by {
                    if log_dim + log_inv_rate < 30 {
                        vstd::arithmetic::power2::lemma_pow2_strictly_increases(
                            (log_dim + log_inv_rate) as nat,
                            30,
                        );
                    }
                }
                assert(pow2(log_dim as nat) < pow2((log_dim + log_inv_rate) as nat)) by {
                    vstd::arithmetic::power2::lemma_pow2_strictly_increases(
                        log_dim as nat,
                        (log_dim + log_inv_rate) as nat,
                    );
                }
                assert(pow2((log_dim + log_inv_rate) as nat) >= pow2(1)) by {
                    if 1 < log_dim + log_inv_rate {
                        vstd::arithmetic::power2::lemma_pow2_strictly_increases(
                            1,
                            (log_dim + log_inv_rate) as nat,
                        );
                    }
                }
            }
            let d: u64 = n - dim + 1;
            let q_opt: Option<u64> = if conservative_testing {
                search_n_queries_general(security_bits as u64, log_rows as u64, n, d)
            } else {
                search_n_queries_rs(security_bits as u64, log_rows as u64, n, d)
            };
            match q_opt {
                Some(q) => {
                    let cand = PcsParams {
                        log_rows,
                        log_dim,
                        log_inv_rate,
                        n_test_queries: q as usize,
                        cfg,
                    };
                    proof {
                        assert(cand_here == Some(cand));
                    }
                    let size = cand.proof_size(n_polys as u64);
                    match best {
                        None => {
                            best_size = size;
                            best = Some(cand);
                        },
                        Some(_) => {
                            if size < best_size {
                                best_size = size;
                                best = Some(cand);
                            }
                        },
                    }
                },
                None => {
                    proof {
                        assert(cand_here is None);
                    }
                },
            }
        } else {
            proof {
                assert(cand_here is None);
            }
        }
        log_rows = log_rows + 1;
    }
    best
}

} // verus!
