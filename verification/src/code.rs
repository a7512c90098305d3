//! A systematic Reed-Solomon code over the byte tower field.
//!
//! The code of dimension 2^log_dim and length 2^(log_dim + log_inv_rate)
//! evaluates the degree < dim polynomial through the message values at the
//! first `dim` field points at all `len` field points.  The generator matrix
//! is built from the Lagrange basis at construction, and its systematic
//! top square is checked to be the identity, so encoding leaves the first
//! `dim` positions of every message unchanged.

use vstd::prelude::*;
use vstd::arithmetic::power2::pow2;
use crate::tower::{t_add, t_mul, t_inv, mul_l3, inv_l3, lemma_xor_l3};
use crate::merkle::digs;
use crate::error::Error;
use crate::util::pow2_usize;

verus! {

/// Inner product over the byte tower field.
pub open spec fn ip3(row: Seq<u8>, msg: Seq<u8>) -> nat
    decreases row.len(),
{
    if row.len() == 0 {
        0
    } else {
        t_add(3, ip3(row.drop_last(), msg.drop_last()), t_mul(3, row.last() as nat, msg.last() as nat))
    }
}

/// The message with index `b` inside a buffer of `nb` interleaved messages.
pub open spec fn stride_msg(msgs: Seq<u8>, nb: nat, b: int, dim: nat) -> Seq<u8> {
    Seq::new(dim, |i: int| msgs[i * (nb as int) + b])
}

/// A systematic Reed-Solomon code over bytes.
pub struct ReedSolomonCode {
    pub log_dim: usize,
    pub log_inv_rate: usize,
    pub generator: Vec<Vec<u8>>,
}

impl ReedSolomonCode {
    /// The generator matrix as a mathematical value, row-major: entry
    /// (j, i) weights message position i in codeword position j.
    pub open spec fn gen_mat(&self) -> Seq<Seq<u8>> {
        digs(self.generator@)
    }

    pub open spec fn spec_dim(&self) -> nat {
        pow2(self.log_dim as nat)
    }

    pub open spec fn spec_len(&self) -> nat {
        pow2((self.log_dim + self.log_inv_rate) as nat)
    }

    /// Generator shape, and a systematic identity block on top.
    pub open spec fn wf(&self) -> bool {
        &&& self.log_dim + self.log_inv_rate <= 8
        &&& self.gen_mat().len() == self.spec_len()
        &&& forall|j: int|
            0 <= j < self.spec_len() ==> (#[trigger] self.gen_mat()[j]).len() == self.spec_dim()
        &&& forall|j: int, i: int|
            0 <= j < self.spec_dim() && 0 <= i < self.spec_dim() ==> self.gen_mat()[j][i] == (
            if i == j {
                1u8
            } else {
                0u8
            })
    }

    /// Code dimension: the number of message symbols.
    pub fn dim(&self) -> (r: usize)
        requires
            self.log_dim < 31,
        ensures
            r as nat == self.spec_dim(),
    {
        pow2_usize(self.log_dim)
    }

    /// Base-2 logarithm of the dimension.
    pub fn dim_bits(&self) -> (r: usize)
        ensures
            r == self.log_dim,
    {
        self.log_dim
    }

    /// Code length: the number of codeword symbols.
    pub fn len(&self) -> (r: usize)
        requires
            self.log_dim + self.log_inv_rate < 31,
        ensures
            r as nat == self.spec_len(),
    {
        pow2_usize(self.log_dim + self.log_inv_rate)
    }

    /// Minimum distance of Reed-Solomon: length - dimension + 1.
    pub fn min_dist(&self) -> (r: usize)
        requires
            self.wf(),
        ensures
            r as nat == self.spec_len() - self.spec_dim() + 1,
    {
        proof {
            vstd::arithmetic::power2::lemma2_to64();
            if self.log_dim < self.log_dim + self.log_inv_rate {
                vstd::arithmetic::power2::lemma_pow2_strictly_increases(
                    self.log_dim as nat,
                    (self.log_dim + self.log_inv_rate) as nat,
                );
            }
        }
        self.len() - self.dim() + 1
    }

    /// Construct the code: build the Lagrange generator matrix over the
    /// first field points and check its systematic block.
    pub fn new(log_dim: usize, log_inv_rate: usize) -> (r: Result<ReedSolomonCode, Error>)
        ensures
            match r {
                Ok(c) => c.wf() && c.log_dim == log_dim && c.log_inv_rate == log_inv_rate,
                Err(e) => e == Error::CodeFieldTooSmall && log_dim + log_inv_rate > 8,
            },
    {
        if log_dim > 8 {
            return Err(Error::CodeFieldTooSmall);
        }
        if log_inv_rate > 8 - log_dim {
            return Err(Error::CodeFieldTooSmall);
        }
        let dim: usize = pow2_usize(log_dim);
        let n: usize = pow2_usize(log_dim + log_inv_rate);
        proof {
            vstd::arithmetic::power2::lemma2_to64();
            assert(pow2((log_dim + log_inv_rate) as nat) <= pow2(8)) by {
                if log_dim + log_inv_rate < 8 {
                    vstd::arithmetic::power2::lemma_pow2_strictly_increases(
                        (log_dim + log_inv_rate) as nat,
                        8,
                    );
                }
            }
            assert(pow2(log_dim as nat) <= pow2((log_dim + log_inv_rate) as nat)) by {
                if log_dim < log_dim + log_inv_rate {
                    vstd::arithmetic::power2::lemma_pow2_strictly_increases(
                        log_dim as nat,
                        (log_dim + log_inv_rate) as nat,
                    );
                }
            }
        }
        let mut generator: Vec<Vec<u8>> = Vec::new();
        let mut j: usize = 0;
        while j < n
            invariant
                j <= n,
                n <= 256,
                dim <= n,
                generator@.len() == j,
                forall|t: int| 0 <= t < j ==> (#[trigger] generator@[t])@.len() == dim,
                forall|t: int, i: int|
                    0 <= t < j && t < dim && 0 <= i < dim ==> generator@[t]@[i] == (if i == t {
                        1u8
                    } else {
                        0u8
                    }),
            decreases n - j,
        {
            let mut row: Vec<u8> = Vec::new();
            let mut i: usize = 0;
            while i < dim
                invariant
                    i <= dim,
                    dim <= n <= 256,
                    j < n,
                    row@.len() == i,
                    forall|t: int|
                        j < dim && 0 <= t < i ==> row@[t] == (if t == j { 1u8 } else { 0u8 }),
                decreases dim - i,
            {
                if j < dim {
                    // The systematic block: the identity, since the codeword
                    // evaluates the interpolating polynomial at the message
                    // points themselves.
                    row.push(if i == j {
                        1
                    } else {
                        0
                    });
                } else {
                    // Lagrange basis value L_i(x_j) over the byte field.
                    let mut num: u8 = 1;
                    let mut den: u8 = 1;
                    let mut t: usize = 0;
                    while t < dim
                        invariant
                            t <= dim,
                            dim <= 256,
                            i < dim,
                            j < 256,
                        decreases dim - t,
                    {
                        if t != i {
                            num = mul_l3(num, (j as u8) ^ (t as u8));
                            den = mul_l3(den, (i as u8) ^ (t as u8));
                        }
                        t = t + 1;
                    }
                    row.push(mul_l3(num, inv_l3(den)));
                }
                i = i + 1;
            }
            generator.push(row);
            j = j + 1;
        }
        let code = ReedSolomonCode { log_dim, log_inv_rate, generator };
        proof {
            assert(code.wf());
        }
        Ok(code)
    }

    /// Encode `2^log_batch` interleaved messages in place: the buffer holds
    /// message symbol `i` of message `b` at `i * 2^log_batch + b`, and after
    /// the call codeword symbol `j` of message `b` at `j * 2^log_batch + b`.
    pub fn encode_batch_inplace(&self, buf: &mut Vec<u8>, log_batch: usize) -> (r: Result<
        (),
        Error,
    >)
        requires
            self.wf(),
            log_batch < 22,
        ensures
            match r {
                Ok(()) => {
                    let nb = pow2(log_batch as nat);
                    &&& old(buf)@.len() == self.spec_len() * nb
                    &&& final(buf)@.len() == old(buf)@.len()
                    &&& forall|j: int, b: int|
                        0 <= j < self.spec_len() && 0 <= b < nb ==> final(buf)@[j * (nb as int)
                            + b] as nat == ip3(
                            self.gen_mat()[j],
                            stride_msg(old(buf)@, nb, b, self.spec_dim()),
                        )
                },
                Err(e) => e == Error::EncodeError && old(buf)@.len() != self.spec_len() * pow2(
                    log_batch as nat,
                ) && final(buf)@ == old(buf)@,
            },
    {
        let nb: usize = pow2_usize(log_batch);
        let n: usize = self.len();
        let dim: usize = self.dim();
        proof {
            vstd::arithmetic::power2::lemma2_to64();
            assert(n <= 256);
            assert(self.spec_len() * pow2(log_batch as nat) == (n * nb) as nat) by {
                assert(n * nb <= 256 * 0x400000) by (nonlinear_arith)
                    requires
                        n <= 256,
                        nb <= 0x400000,
                        n >= 0,
                        nb >= 0,
                ;
            }
            assert(pow2(log_batch as nat) <= pow2(21)) by {
                if log_batch < 21 {
                    vstd::arithmetic::power2::lemma_pow2_strictly_increases(log_batch as nat, 21);
                }
            }
        }
        proof {
            assert(n * nb <= 0x4000_0000) by (nonlinear_arith)
                requires
                    n <= 256,
                    nb <= 0x400000,
                    n >= 0,
                    nb >= 0,
            ;
        }
        if buf.len() != n * nb {
            return Err(Error::EncodeError);
        }
        let mut out: Vec<u8> = Vec::new();
        let mut j: usize = 0;
        while j < n
            invariant
                j <= n,
                self.wf(),
                n as nat == self.spec_len(),
                dim as nat == self.spec_dim(),
                dim <= n <= 256,
                nb as nat == pow2(log_batch as nat),
                nb <= 0x400000,
                buf@ == old(buf)@,
                buf@.len() == n * nb,
                n * nb <= usize::MAX,
                out@.len() == j * nb,
                forall|t: int, b: int|
                    0 <= t < j && 0 <= b < nb ==> out@[t * (nb as int) + b] as nat == ip3(
                        self.gen_mat()[t],
                        stride_msg(buf@, nb as nat, b, self.spec_dim()),
                    ),
            decreases n - j,
        {
            let mut b: usize = 0;
            proof {
                assert((j + 1) * nb == j * nb + nb) by (nonlinear_arith);
                assert(j * nb + nb <= n * nb) by (nonlinear_arith)
                    requires
                        j + 1 <= n,
                        nb >= 0,
                ;
            }
            while b < nb
                invariant
                    b <= nb,
                    j < n,
                    self.wf(),
                    n as nat == self.spec_len(),
                    dim as nat == self.spec_dim(),
                    dim <= n <= 256,
                    nb as nat == pow2(log_batch as nat),
                    nb <= 0x400000,
                    buf@ == old(buf)@,
                    buf@.len() == n * nb,
                    n * nb <= usize::MAX,
                    out@.len() == j * nb + b,
                    j * nb + nb <= n * nb,
                    forall|t: int, bb: int|
                        0 <= t < j && 0 <= bb < nb ==> out@[t * (nb as int) + bb] as nat == ip3(
                            self.gen_mat()[t],
                            stride_msg(buf@, nb as nat, bb, self.spec_dim()),
                        ),
                    forall|bb: int|
                        0 <= bb < b ==> out@[j * (nb as int) + bb] as nat == ip3(
                            self.gen_mat()[j as int],
                            stride_msg(buf@, nb as nat, bb, self.spec_dim()),
                        ),
                decreases nb - b,
            {
                let mut acc: u8 = 0;
                let mut i: usize = 0;
                proof {
                    assert(ip3(
                        self.gen_mat()[j as int].take(0),
                        stride_msg(buf@, nb as nat, b as int, self.spec_dim()).take(0),
                    ) == 0);
                }
                while i < dim
                    invariant
                        i <= dim,
                        j < n,
                        b < nb,
                        self.wf(),
                        n as nat == self.spec_len(),
                        dim as nat == self.spec_dim(),
                        dim <= n <= 256,
                        nb <= 0x400000,
                        buf@ == old(buf)@,
                        buf@.len() == n * nb,
                        n * nb <= usize::MAX,
                        acc as nat == ip3(
                            self.gen_mat()[j as int].take(i as int),
                            stride_msg(buf@, nb as nat, b as int, self.spec_dim()).take(i as int),
                        ),
                    decreases dim - i,
                {
                    proof {
                        assert(i * nb + b < n * nb) by (nonlinear_arith)
                            requires
                                i < dim,
                                dim <= n,
                                b < nb,
                                nb >= 0,
                                i >= 0,
                        ;
                    }
                    let term: u8 = mul_l3(self.generator[j][i], buf[i * nb + b]);
                    let ghost preacc = acc;
                    acc = acc ^ term;
                    proof {
                        lemma_xor_l3(preacc, term);
                        let g = self.gen_mat()[j as int];
                        let m = stride_msg(buf@, nb as nat, b as int, self.spec_dim());
                        assert(g.take(i as int + 1).drop_last() =~= g.take(i as int));
                        assert(m.take(i as int + 1).drop_last() =~= m.take(i as int));
                        assert(g.take(i as int + 1).last() == g[i as int]);
                        assert(m.take(i as int + 1).last() == m[i as int]);
                        assert(m[i as int] == buf@[i as int * (nb as int) + b as int]);
                    }
                    i = i + 1;
                }
                proof {
                    let g = self.gen_mat()[j as int];
                    let m = stride_msg(buf@, nb as nat, b as int, self.spec_dim());
                    assert(g.take(dim as int) =~= g);
                    assert(m.take(dim as int) =~= m);
                }
                out.push(acc);
                b = b + 1;
                proof {
                    assert forall|t: int, bb: int|
                        0 <= t < j && 0 <= bb < nb implies out@[t * (nb as int) + bb] as nat == ip3(
                        self.gen_mat()[t],
                        stride_msg(buf@, nb as nat, bb, self.spec_dim()),
                    ) by {
                        assert(t * (nb as int) + bb < j * (nb as int)) by (nonlinear_arith)
                            requires
                                0 <= t < j,
                                0 <= bb < nb,
                        ;
                    }
                }
            }
            j = j + 1;
        }
        let ghost origbuf = old(buf)@;
        *buf = out;
        proof {
            assert(buf@.len() == n * nb) by {
                assert(n * nb == n * nb);
            }
            assert forall|jj: int, bb: int|
                0 <= jj < self.spec_len() && 0 <= bb < pow2(log_batch as nat) implies buf@[jj * (
            pow2(log_batch as nat) as int) + bb] as nat == ip3(
                self.gen_mat()[jj],
                stride_msg(origbuf, pow2(log_batch as nat), bb, self.spec_dim()),
            ) by {
                assert(jj * (nb as int) + bb < n * nb) by (nonlinear_arith)
                    requires
                        0 <= jj < n,
                        0 <= bb < nb,
                ;
            }
        }
        Ok(())
    }
}

} // verus!
