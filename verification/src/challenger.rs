//! A Fiat-Shamir challenger: a deterministic sponge over Groestl-256.
//!
//! The challenger absorbs prover messages and squeezes verifier challenges.
//! Observing clears any pending output; squeezing past the buffered digest
//! rehashes the previous digest, chaining the output stream.  Every
//! transition is a function of the state alone, so a prover and a verifier
//! that observe the same bytes in the same order sample the same values.

use vstd::prelude::*;
use vstd::arithmetic::power2::pow2;
use crate::hashing::{groestl_of, groestl256};

verus! {

/// The mathematical state of a challenger.
pub ghost struct ChState {
    pub inb: Seq<u8>,
    pub outb: Seq<u8>,
}

/// Absorbing bytes: they join the input buffer and void pending output.
pub open spec fn ch_observe(s: ChState, data: Seq<u8>) -> ChState {
    ChState { inb: s.inb + data, outb: Seq::empty() }
}

/// Squeezing from an empty output buffer hashes the input buffer; the digest
/// becomes both the output stream and the next input.
pub open spec fn ch_refill(s: ChState) -> ChState {
    if s.outb.len() == 0 {
        ChState { inb: groestl_of(s.inb), outb: groestl_of(s.inb) }
    } else {
        s
    }
}

/// The byte a single squeeze yields.
pub open spec fn ch_byte_val(s: ChState) -> u8 {
    ch_refill(s).outb.last()
}

/// The state after a single squeeze.
pub open spec fn ch_byte_st(s: ChState) -> ChState {
    let t = ch_refill(s);
    ChState { inb: t.inb, outb: t.outb.drop_last() }
}

/// The bytes that `n` squeezes yield, in order.
pub open spec fn ch_bytes_val(s: ChState, n: nat) -> Seq<u8>
    decreases n,
{
    if n == 0 {
        Seq::empty()
    } else {
        seq![ch_byte_val(s)] + ch_bytes_val(ch_byte_st(s), (n - 1) as nat)
    }
}

/// The state after `n` squeezes.
pub open spec fn ch_bytes_st(s: ChState, n: nat) -> ChState
    decreases n,
{
    if n == 0 {
        s
    } else {
        ch_bytes_st(ch_byte_st(s), (n - 1) as nat)
    }
}

/// A byte string read as a little-endian natural number.
pub open spec fn le_val(s: Seq<u8>) -> nat
    decreases s.len(),
{
    if s.len() == 0 {
        0
    } else {
        (s.first() + 256 * le_val(s.drop_first())) as nat
    }
}

/// A scalar serialised as little-endian bytes, as the wire format reads it.
pub open spec fn le_bytes(x: nat, n: nat) -> Seq<u8>
    decreases n,
{
    if n == 0 {
        Seq::empty()
    } else {
        seq![(x % 256) as u8] + le_bytes(x / 256, (n - 1) as nat)
    }
}

/// The Fiat-Shamir challenger.
#[derive(Clone)]
pub struct HashChallenger {
    pub input_buf: Vec<u8>,
    pub output_buf: Vec<u8>,
}

impl HashChallenger {
    /// The mathematical state.
    pub open spec fn st(&self) -> ChState {
        ChState { inb: self.input_buf@, outb: self.output_buf@ }
    }

    /// A fresh challenger with empty buffers.
    pub fn new() -> (r: HashChallenger)
        ensures
            r.st() == (ChState { inb: Seq::<u8>::empty(), outb: Seq::<u8>::empty() }),
    {
        let r = HashChallenger { input_buf: Vec::new(), output_buf: Vec::new() };
        proof {
            assert(r.input_buf@ =~= Seq::<u8>::empty());
            assert(r.output_buf@ =~= Seq::<u8>::empty());
        }
        r
    }

    /// Absorb prover bytes.
    pub fn observe_bytes(&mut self, data: &Vec<u8>)
        ensures
            final(self).st() == ch_observe(old(self).st(), data@),
    {
        self.output_buf = Vec::new();
        let mut i: usize = 0;
        while i < data.len()
            invariant
                i <= data@.len(),
                self.input_buf@ == old(self).input_buf@ + data@.take(i as int),
                self.output_buf@.len() == 0,
            decreases data@.len() - i,
        {
            self.input_buf.push(data[i]);
            proof {
                assert(old(self).input_buf@ + data@.take(i as int + 1) =~= (old(self).input_buf@
                    + data@.take(i as int)).push(data@[i as int]));
            }
            i = i + 1;
        }
        proof {
            assert(data@.take(data@.len() as int) =~= data@);
            assert(self.output_buf@ =~= Seq::<u8>::empty());
        }
    }

    /// Absorb one 128-bit scalar, little-endian.
    pub fn observe_scalar(&mut self, x: u128)
        ensures
            final(self).st() == ch_observe(old(self).st(), le_bytes(x as nat, 16)),
    {
        let bytes = scalar_to_le_bytes(x);
        self.observe_bytes(&bytes);
    }

    /// Squeeze one byte.
    pub fn sample_byte(&mut self) -> (r: u8)
        ensures
            r == ch_byte_val(old(self).st()),
            final(self).st() == ch_byte_st(old(self).st()),
    {
        if self.output_buf.len() == 0 {
            let digest = groestl256(&self.input_buf);
            let digest2 = groestl256(&self.input_buf);
            self.input_buf = digest2;
            self.output_buf = digest;
        }
        let b = self.output_buf.pop().unwrap();
        proof {
            assert(self.output_buf@ =~= ch_byte_st(old(self).st()).outb);
        }
        b
    }

    /// Squeeze `n` bytes.
    pub fn sample_bytes(&mut self, n: usize) -> (r: Vec<u8>)
        ensures
            r@ == ch_bytes_val(old(self).st(), n as nat),
            r@.len() == n,
            final(self).st() == ch_bytes_st(old(self).st(), n as nat),
    {
        let mut out: Vec<u8> = Vec::new();
        let mut i: usize = 0;
        while i < n
            invariant
                i <= n,
                out@.len() == i,
                out@ == ch_bytes_val(old(self).st(), i as nat),
                self.st() == ch_bytes_st(old(self).st(), i as nat),
            decreases n - i,
        {
            let ghost mid = self.st();
            let b = self.sample_byte();
            out.push(b);
            i = i + 1;
            proof {
                lemma_ch_bytes_snoc(old(self).st(), (i - 1) as nat);
                assert(out@ =~= ch_bytes_val(old(self).st(), i as nat));
            }
        }
        out
    }

    /// Squeeze one 128-bit field challenge, little-endian.
    pub fn sample(&mut self) -> (r: u128)
        ensures
            r as nat == le_val(ch_bytes_val(old(self).st(), 16)),
            final(self).st() == ch_bytes_st(old(self).st(), 16),
    {
        let bytes = self.sample_bytes(16);
        scalar_from_le_bytes(&bytes)
    }

    /// Squeeze `bits` unbiased bits as an index below 2^bits.
    pub fn sample_bits(&mut self, bits: usize) -> (r: usize)
        requires
            bits < 31,
        ensures
            r as nat == le_val(ch_bytes_val(old(self).st(), 4)) % pow2(bits as nat),
            r < pow2(bits as nat),
            final(self).st() == ch_bytes_st(old(self).st(), 4),
    {
        let bytes = self.sample_bytes(4);
        let mut acc: usize = 0;
        let mut i: usize = 4;
        proof {
            vstd::arithmetic::power2::lemma2_to64();
            assert(bytes@.skip(4) =~= Seq::<u8>::empty());
        }
        while i > 0
            invariant
                i <= 4,
                bytes@.len() == 4,
                acc as nat == le_val(bytes@.skip(i as int)),
                (acc as nat) < pow2((8 * (4 - i)) as nat),
            decreases i,
        {
            i = i - 1;
            proof {
                assert(bytes@.skip(i as int).first() == bytes@[i as int]);
                assert(bytes@.skip(i as int).drop_first() =~= bytes@.skip(i as int + 1));
                assert((8 * (4 - i)) as nat == (8 * (4 - i - 1)) as nat + 8);
                vstd::arithmetic::power2::lemma_pow2_adds((8 * (4 - i - 1)) as nat, 8);
                vstd::arithmetic::power2::lemma2_to64();
            }
            acc = acc * 256 + (bytes[i] as usize);
        }
        proof {
            assert(bytes@.skip(0) =~= bytes@);
            vstd::arithmetic::power2::lemma2_to64();
        }
        let m: usize = crate::util::pow2_usize(bits);
        proof {
            vstd::arithmetic::div_mod::lemma_mod_bound(acc as int, m as int);
        }
        acc % m
    }
}

/// The field scalars that `n` 128-bit squeezes yield, in order.
pub open spec fn ch_samples_vals(s: ChState, n: nat) -> Seq<nat>
    decreases n,
{
    if n == 0 {
        Seq::empty()
    } else {
        seq![le_val(ch_bytes_val(s, 16))] + ch_samples_vals(ch_bytes_st(s, 16), (n - 1) as nat)
    }
}

/// The state after `n` scalar squeezes.
pub open spec fn ch_samples_st(s: ChState, n: nat) -> ChState
    decreases n,
{
    if n == 0 {
        s
    } else {
        ch_samples_st(ch_bytes_st(s, 16), (n - 1) as nat)
    }
}

/// Scalar samples extend one at a time at the back.
pub proof fn lemma_ch_samples_snoc(s: ChState, n: nat)
    ensures
        ch_samples_vals(s, n + 1) == ch_samples_vals(s, n).push(
            le_val(ch_bytes_val(ch_samples_st(s, n), 16)),
        ),
        ch_samples_st(s, n + 1) == ch_bytes_st(ch_samples_st(s, n), 16),
    decreases n,
{
    if n == 0 {
        assert(ch_samples_vals(ch_bytes_st(s, 16), 0) =~= Seq::<nat>::empty());
        assert(ch_samples_st(ch_bytes_st(s, 16), 0) == ch_bytes_st(s, 16));
        assert(ch_samples_st(s, 0) == s);
        assert(ch_samples_vals(s, 1) =~= ch_samples_vals(s, 0).push(
            le_val(ch_bytes_val(ch_samples_st(s, 0), 16)),
        ));
    } else {
        lemma_ch_samples_snoc(ch_bytes_st(s, 16), (n - 1) as nat);
        assert(ch_samples_st(s, n + 1) == ch_samples_st(ch_bytes_st(s, 16), n));
        assert(ch_samples_st(s, n) == ch_samples_st(ch_bytes_st(s, 16), (n - 1) as nat));
        assert(ch_samples_vals(s, n + 1) == seq![le_val(ch_bytes_val(s, 16))] + ch_samples_vals(
            ch_bytes_st(s, 16),
            n,
        ));
        assert(ch_samples_vals(s, n) == seq![le_val(ch_bytes_val(s, 16))] + ch_samples_vals(
            ch_bytes_st(s, 16),
            (n - 1) as nat,
        ));
        assert(ch_samples_vals(s, n + 1) =~= ch_samples_vals(s, n).push(
            le_val(ch_bytes_val(ch_samples_st(s, n), 16)),
        ));
    }
}

/// The state after absorbing a sequence of scalars, first scalar first.
pub open spec fn observe_scalars_st(s: ChState, vals: Seq<nat>) -> ChState
    decreases vals.len(),
{
    if vals.len() == 0 {
        s
    } else {
        observe_scalars_st(ch_observe(s, le_bytes(vals.first(), 16)), vals.drop_first())
    }
}

/// Absorbing one more scalar at the back.
pub proof fn lemma_observe_scalars_snoc(s: ChState, vals: Seq<nat>, v: nat)
    ensures
        observe_scalars_st(s, vals.push(v)) == ch_observe(
            observe_scalars_st(s, vals),
            le_bytes(v, 16),
        ),
    decreases vals.len(),
{
    if vals.len() == 0 {
        assert(vals.push(v).first() == v);
        assert(vals.push(v).drop_first() =~= Seq::<nat>::empty());
        assert(observe_scalars_st(s, vals.push(v)) == observe_scalars_st(
            ch_observe(s, le_bytes(v, 16)),
            vals.push(v).drop_first(),
        ));
        assert(observe_scalars_st(ch_observe(s, le_bytes(v, 16)), Seq::<nat>::empty())
            == ch_observe(s, le_bytes(v, 16)));
        assert(observe_scalars_st(s, vals) == s);
    } else {
        let s2 = ch_observe(s, le_bytes(vals.first(), 16));
        assert(vals.push(v).first() == vals.first());
        assert(vals.push(v).drop_first() =~= vals.drop_first().push(v));
        assert(observe_scalars_st(s, vals.push(v)) == observe_scalars_st(
            s2,
            vals.drop_first().push(v),
        ));
        assert(observe_scalars_st(s, vals) == observe_scalars_st(s2, vals.drop_first()));
        lemma_observe_scalars_snoc(s2, vals.drop_first(), v);
    }
}

impl HashChallenger {
    /// Squeeze a vector of field challenges.
    pub fn sample_vec(&mut self, n: usize) -> (r: Vec<u128>)
        ensures
            r@.len() == n,
            crate::multilinear::nats(r@) == ch_samples_vals(old(self).st(), n as nat),
            final(self).st() == ch_samples_st(old(self).st(), n as nat),
    {
        let mut out: Vec<u128> = Vec::new();
        let mut i: usize = 0;
        proof {
            assert(crate::multilinear::nats(out@) =~= ch_samples_vals(old(self).st(), 0));
        }
        while i < n
            invariant
                i <= n,
                out@.len() == i,
                crate::multilinear::nats(out@) == ch_samples_vals(old(self).st(), i as nat),
                self.st() == ch_samples_st(old(self).st(), i as nat),
            decreases n - i,
        {
            let ghost pre = crate::multilinear::nats(out@);
            let v = self.sample();
            out.push(v);
            i = i + 1;
            proof {
                lemma_ch_samples_snoc(old(self).st(), (i - 1) as nat);
                assert(crate::multilinear::nats(out@) =~= pre.push(v as nat));
            }
        }
        out
    }

    /// Absorb a vector of scalars in order.
    pub fn observe_scalars(&mut self, vals: &Vec<u128>)
        ensures
            final(self).st() == observe_scalars_st(old(self).st(), crate::multilinear::nats(vals@)),
    {
        let mut i: usize = 0;
        while i < vals.len()
            invariant
                i <= vals@.len(),
                self.st() == observe_scalars_st(
                    old(self).st(),
                    crate::multilinear::nats(vals@).take(i as int),
                ),
            decreases vals@.len() - i,
        {
            let ghost pre = crate::multilinear::nats(vals@).take(i as int);
            self.observe_scalar(vals[i]);
            i = i + 1;
            proof {
                assert(crate::multilinear::nats(vals@).take(i as int) =~= pre.push(
                    vals@[i - 1] as nat,
                ));
                lemma_observe_scalars_snoc(old(self).st(), pre, vals@[i - 1] as nat);
            }
        }
        proof {
            assert(crate::multilinear::nats(vals@).take(vals@.len() as int) =~= crate::multilinear::nats(vals@));
        }
    }
}

/// ch_bytes over n+1 squeezes is ch_bytes over n, then one more.
pub proof fn lemma_ch_bytes_snoc(s: ChState, n: nat)
    ensures
        ch_bytes_val(s, n + 1) == ch_bytes_val(s, n).push(ch_byte_val(ch_bytes_st(s, n))),
        ch_bytes_st(s, n + 1) == ch_byte_st(ch_bytes_st(s, n)),
    decreases n,
{
    if n == 0 {
        assert(ch_bytes_val(ch_byte_st(s), 0) =~= Seq::<u8>::empty());
        assert(ch_bytes_st(ch_byte_st(s), 0) == ch_byte_st(s));
        assert(ch_bytes_st(s, 0) == s);
        assert(ch_bytes_val(s, 1) =~= ch_bytes_val(s, 0).push(ch_byte_val(ch_bytes_st(s, 0))));
    } else {
        lemma_ch_bytes_snoc(ch_byte_st(s), (n - 1) as nat);
        assert(ch_bytes_st(s, n + 1) == ch_bytes_st(ch_byte_st(s), n));
        assert(ch_bytes_st(s, n) == ch_bytes_st(ch_byte_st(s), (n - 1) as nat));
        assert(ch_bytes_val(s, n + 1) == seq![ch_byte_val(s)] + ch_bytes_val(ch_byte_st(s), n));
        assert(ch_bytes_val(s, n) == seq![ch_byte_val(s)] + ch_bytes_val(
            ch_byte_st(s),
            (n - 1) as nat,
        ));
        assert(ch_bytes_val(s, n + 1) =~= ch_bytes_val(s, n).push(
            ch_byte_val(ch_bytes_st(s, n)),
        ));
    }
}

/// Serialise one 128-bit scalar as 16 little-endian bytes.
pub fn scalar_to_le_bytes(x: u128) -> (r: Vec<u8>)
    ensures
        r@ == le_bytes(x as nat, 16),
        r@.len() == 16,
{
    let mut out: Vec<u8> = Vec::new();
    let mut cur: u128 = x;
    let mut i: usize = 0;
    while i < 16
        invariant
            i <= 16,
            out@.len() == i,
            le_bytes(x as nat, 16) == out@ + le_bytes(cur as nat, (16 - i) as nat),
        decreases 16 - i,
    {
        let ghost pre = out@;
        let ghost precur = cur as nat;
        out.push((cur % 256) as u8);
        cur = cur / 256;
        i = i + 1;
        proof {
            assert(le_bytes(precur, (16 - i + 1) as nat) == seq![(precur % 256) as u8] + le_bytes(
                precur / 256,
                (16 - i) as nat,
            ));
            assert(pre + le_bytes(precur, (16 - i + 1) as nat) =~= out@ + le_bytes(
                cur as nat,
                (16 - i) as nat,
            ));
        }
    }
    proof {
        assert(le_bytes(cur as nat, 0) =~= Seq::<u8>::empty());
        assert(out@ + Seq::<u8>::empty() =~= out@);
    }
    out
}

/// Read a 128-bit scalar from 16 little-endian bytes.
pub fn scalar_from_le_bytes(bytes: &Vec<u8>) -> (r: u128)
    requires
        bytes@.len() == 16,
    ensures
        r as nat == le_val(bytes@),
{
    let mut acc: u128 = 0;
    let mut i: usize = 16;
    proof {
        assert(bytes@.skip(16) =~= Seq::<u8>::empty());
        vstd::arithmetic::power2::lemma2_to64();
    }
    while i > 0
        invariant
            i <= 16,
            bytes@.len() == 16,
            acc as nat == le_val(bytes@.skip(i as int)),
            (acc as nat) < pow2((8 * (16 - i)) as nat),
        decreases i,
    {
        i = i - 1;
        proof {
            assert(bytes@.skip(i as int).first() == bytes@[i as int]);
            assert(bytes@.skip(i as int).drop_first() =~= bytes@.skip(i as int + 1));
            assert((8 * (16 - i)) as nat == (8 * (16 - i - 1)) as nat + 8);
            vstd::arithmetic::power2::lemma_pow2_adds((8 * (16 - i - 1)) as nat, 8);
            vstd::arithmetic::power2::lemma2_to64();
            vstd::arithmetic::power2::lemma2_to64_rest();
            let e = (8 * (16 - i)) as nat;
            assert(pow2(128) == 0x1_0000_0000_0000_0000_0000_0000_0000_0000) by {
                vstd::arithmetic::power2::lemma2_to64();
                vstd::arithmetic::power2::lemma2_to64_rest();
                vstd::arithmetic::power2::lemma_pow2_adds(64, 64);
            }
            assert(pow2(e) <= pow2(128)) by {
                if e < 128 {
                    vstd::arithmetic::power2::lemma_pow2_strictly_increases(e, 128);
                }
            }
        }
        acc = acc * 256 + (bytes[i] as u128);
    }
    proof {
        assert(bytes@.skip(0) =~= bytes@);
    }
    acc
}

} // verus!
