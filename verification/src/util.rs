//! Small integer utilities: base-2 logarithms and power-of-two tests.

use vstd::prelude::*;
use vstd::arithmetic::power2::pow2;

verus! {

/// The exact base-2 logarithm of `n`, if `n` is a power of two.
pub fn log2_strict_usize(n: usize) -> (r: Option<usize>)
    ensures
        match r {
            Some(k) => n as nat == pow2(k as nat) && k < 64,
            None => forall|j: nat| n as nat != pow2(j),
        },
{
    if n == 0 {
        proof {
            assert forall|j: nat| 0 as nat != pow2(j) by {
                vstd::arithmetic::power2::lemma_pow2_pos(j);
            }
        }
        return None;
    }
    let mut k: usize = 0;
    let mut p: usize = 1;
    proof {
        vstd::arithmetic::power2::lemma2_to64();
    }
    while p < n
        invariant
            1 <= p,
            p as nat == pow2(k as nat),
            k > 0 ==> pow2((k - 1) as nat) < n as nat,
            k < 64,
            n >= 1,
        decreases 64 - k,
    {
        if p > usize::MAX / 2 {
            proof {
                assert forall|j: nat| n as nat != pow2(j) by {
                    if n as nat == pow2(j) {
                        if j <= k as nat {
                            assert(pow2(j) <= pow2(k as nat)) by {
                                if j < k as nat {
                                    vstd::arithmetic::power2::lemma_pow2_strictly_increases(
                                        j,
                                        k as nat,
                                    );
                                }
                            }
                        } else {
                            let kk = (k + 1) as nat;
                            assert(pow2(kk) <= pow2(j)) by {
                                if kk < j {
                                    vstd::arithmetic::power2::lemma_pow2_strictly_increases(kk, j);
                                }
                            }
                            vstd::arithmetic::power2::lemma_pow2_unfold(kk);
                        }
                    }
                }
            }
            return None;
        }
        proof {
            vstd::arithmetic::power2::lemma_pow2_unfold((k + 1) as nat);
            assert(k + 1 < 64) by {
                if k + 1 >= 64 {
                    vstd::arithmetic::power2::lemma2_to64_rest();
                    assert(pow2(63) <= pow2(k as nat)) by {
                        if 63 < k as nat {
                            vstd::arithmetic::power2::lemma_pow2_strictly_increases(63, k as nat);
                        }
                    }
                }
            }
        }
        p = p * 2;
        k = k + 1;
    }
    if p == n {
        Some(k)
    } else {
        proof {
            assert forall|j: nat| n as nat != pow2(j) by {
                if n as nat == pow2(j) {
                    if j < k as nat {
                        assert(pow2(j) <= pow2((k - 1) as nat)) by {
                            if j < (k - 1) as nat {
                                vstd::arithmetic::power2::lemma_pow2_strictly_increases(
                                    j,
                                    (k - 1) as nat,
                                );
                            }
                        }
                    } else if j > k as nat {
                        vstd::arithmetic::power2::lemma_pow2_strictly_increases(k as nat, j);
                    }
                }
            }
        }
        None
    }
}

/// The least k with 2^k >= n.
pub fn log2_ceil_usize(n: usize) -> (r: usize)
    requires
        n <= 0x4000_0000,
    ensures
        n as nat <= pow2(r as nat),
        r > 0 ==> pow2((r - 1) as nat) < n as nat,
        r <= 30,
{
    if n <= 1 {
        proof {
            vstd::arithmetic::power2::lemma2_to64();
        }
        return 0;
    }
    let mut k: usize = 0;
    let mut p: usize = 1;
    proof {
        vstd::arithmetic::power2::lemma2_to64();
    }
    while p < n
        invariant
            1 <= p,
            p as nat == pow2(k as nat),
            k > 0 ==> pow2((k - 1) as nat) < n as nat,
            k <= 30,
            p <= 0x4000_0000,
            n <= 0x4000_0000,
        decreases 31 - k,
    {
        proof {
            vstd::arithmetic::power2::lemma2_to64();
            assert(k < 30) by {
                if k >= 30 {
                    vstd::arithmetic::power2::lemma_pow2_strictly_increases(30, (k + 1) as nat);
                    if k > 30 {
                        vstd::arithmetic::power2::lemma_pow2_strictly_increases(30, k as nat);
                    }
                }
            }
            vstd::arithmetic::power2::lemma_pow2_unfold((k + 1) as nat);
            assert(pow2((k + 1) as nat) <= pow2(30)) by {
                if k + 1 < 30 {
                    vstd::arithmetic::power2::lemma_pow2_strictly_increases((k + 1) as nat, 30);
                }
            }
        }
        p = p * 2;
        k = k + 1;
    }
    k
}

/// 2^k as a usize.
pub fn pow2_usize(k: usize) -> (r: usize)
    requires
        k < 31,
    ensures
        r as nat == pow2(k as nat),
        r >= 1,
{
    let mut p: usize = 1;
    let mut i: usize = 0;
    proof {
        vstd::arithmetic::power2::lemma2_to64();
    }
    while i < k
        invariant
            i <= k,
            k < 31,
            p as nat == pow2(i as nat),
            p >= 1,
        decreases k - i,
    {
        proof {
            assert(pow2(i as nat) < pow2(30)) by {
                vstd::arithmetic::power2::lemma_pow2_strictly_increases(i as nat, 30);
            }
            vstd::arithmetic::power2::lemma2_to64();
            vstd::arithmetic::power2::lemma_pow2_unfold((i + 1) as nat);
        }
        p = p * 2;
        i = i + 1;
    }
    p
}

/// 2^k as a u64.
pub fn pow2_u64(k: u64) -> (r: u64)
    requires
        k < 64,
    ensures
        r as nat == pow2(k as nat),
        r >= 1,
{
    let mut p: u64 = 1;
    let mut i: u64 = 0;
    proof {
        vstd::arithmetic::power2::lemma2_to64();
    }
    while i < k
        invariant
            i <= k,
            k < 64,
            p as nat == pow2(i as nat),
            p >= 1,
        decreases k - i,
    {
        proof {
            assert(pow2(i as nat) < pow2(63)) by {
                vstd::arithmetic::power2::lemma_pow2_strictly_increases(i as nat, 63);
            }
            vstd::arithmetic::power2::lemma2_to64();
            vstd::arithmetic::power2::lemma2_to64_rest();
            vstd::arithmetic::power2::lemma_pow2_unfold((i + 1) as nat);
        }
        p = p * 2;
        i = i + 1;
    }
    p
}

} // verus!
