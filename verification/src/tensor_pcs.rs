//! The tensor polynomial commitment scheme over the byte tower field.
//!
//! Committed polynomials are multilinears over the byte field F_3; queries
//! and proof scalars live in the 128-bit extension field F_7.  A committed
//! polynomial's evaluation table is arranged as a matrix of 2^log_rows rows,
//! transposed to column-major form, each row encoded by the Reed-Solomon
//! code, every encoded column hashed to a digest, and the digests committed
//! by a Merkle tree.

use vstd::prelude::*;
use vstd::arithmetic::power2::pow2;
use crate::tower::{t_add, t_mul, mul_l7, lemma_xor_l7};
use crate::code::{ReedSolomonCode, ip3, stride_msg};
use crate::merkle::{
    MerkleTree, digs, lvls, batch_leaves, merkle_root_spec, commit_batch, verify_batch_opening,
    walk_spec, concat_seq,
};
use crate::multilinear::{MultilinearExtension, MultilinearQuery, nats, fold_hi_all, eval_ml, tensor_spec};
use crate::challenger::{
    HashChallenger, ChState, ch_bytes_val, ch_bytes_st, le_val, le_bytes, ch_samples_st,
    ch_samples_vals, observe_scalars_st,
};
use crate::hashing::groestl_of;
use crate::error::{Error, VerificationError};
use crate::util::{pow2_usize, log2_ceil_usize};

verus! {

/// A multilinear over the byte field, by its evaluation table.
pub struct ByteMultilinear {
    pub n_vars: usize,
    pub evals: Vec<u8>,
}

impl ByteMultilinear {
    pub open spec fn wf(&self) -> bool {
        self.evals@.len() == pow2(self.n_vars as nat)
    }

    /// Wrap an evaluation vector; its length must be a power of two.
    pub fn from_values(values: Vec<u8>) -> (r: Result<ByteMultilinear, Error>)
        ensures
            match r {
                Ok(m) => m.wf() && m.evals@ == values@,
                Err(e) => e == Error::PowerOfTwoLengthRequired && (forall|j: nat|
                    values@.len() != pow2(j)),
            },
    {
        match crate::util::log2_strict_usize(values.len()) {
            Some(k) => Ok(ByteMultilinear { n_vars: k, evals: values }),
            None => Err(Error::PowerOfTwoLengthRequired),
        }
    }

    /// The same polynomial over the extension field, scalar by scalar.
    pub fn to_ext(&self) -> (r: MultilinearExtension)
        requires
            self.wf(),
        ensures
            r.wf(),
            r.n_vars == self.n_vars,
            r.evals@.len() == self.evals@.len(),
            forall|i: int| 0 <= i < self.evals@.len() ==> r.evals@[i] == self.evals@[i] as u128,
    {
        let mut out: Vec<u128> = Vec::new();
        let mut i: usize = 0;
        while i < self.evals.len()
            invariant
                i <= self.evals@.len(),
                out@.len() == i,
                forall|j: int| 0 <= j < i ==> out@[j] == self.evals@[j] as u128,
            decreases self.evals@.len() - i,
        {
            out.push(self.evals[i] as u128);
            i = i + 1;
        }
        MultilinearExtension { n_vars: self.n_vars, evals: out }
    }
}

/// Relies on transpose::transpose: out-of-place matrix transposition; the
/// entry at row y, column x of the input lands at row x, column y.
#[verifier::external_body]
fn transpose_bytes(input: &Vec<u8>, width: usize, height: usize) -> (r: Vec<u8>)
    requires
        input@.len() == width * height,
    ensures
        r@.len() == input@.len(),
        forall|x: int, y: int|
            0 <= x < width && 0 <= y < height ==> #[trigger] r@[x * height + y] == input@[y * width + x],
{
    let mut out = vec![0u8; input.len()];
    transpose::transpose(input.as_slice(), out.as_mut_slice(), width, height);
    out
}

/// Row `r` of the row-major evaluation matrix with `dim` columns.
pub open spec fn msg_row(evals: Seq<u8>, dim: nat, r: int) -> Seq<u8> {
    Seq::new(dim, |i: int| evals[r * (dim as int) + i])
}

/// Entry (j, r) of the encoded matrix: codeword symbol j of row r.
pub open spec fn enc_entry(g: Seq<Seq<u8>>, evals: Seq<u8>, dim: nat, j: int, r: int) -> nat {
    ip3(g[j], msg_row(evals, dim, r))
}

/// Encoded column `j`: the n_rows codeword symbols at position j.
pub open spec fn enc_col(g: Seq<Seq<u8>>, evals: Seq<u8>, dim: nat, n_rows: nat, j: int) -> Seq<
    u8,
> {
    Seq::new(n_rows, |r: int| enc_entry(g, evals, dim, j, r) as u8)
}

/// The digest stream of one committed polynomial: one digest per encoded
/// column.
pub open spec fn poly_stream(
    g: Seq<Seq<u8>>,
    evals: Seq<u8>,
    dim: nat,
    n_rows: nat,
    code_len: nat,
) -> Seq<Seq<u8>> {
    Seq::new(code_len as nat, |j: int| groestl_of(enc_col(g, evals, dim, n_rows, j)))
}

/// All digest streams of a batch of polynomials.
pub open spec fn commit_streams(
    g: Seq<Seq<u8>>,
    polys: Seq<Seq<u8>>,
    dim: nat,
    n_rows: nat,
    code_len: nat,
) -> Seq<Seq<Seq<u8>>> {
    Seq::new(polys.len(), |p: int| poly_stream(g, polys[p], dim, n_rows, code_len))
}

/// The commitment that a batch of polynomials determines: the Merkle root
/// over the per-column batch leaves.
pub open spec fn commitment_of(
    g: Seq<Seq<u8>>,
    polys: Seq<Seq<u8>>,
    dim: nat,
    n_rows: nat,
    code_len: nat,
) -> Seq<u8> {
    merkle_root_spec(batch_leaves(commit_streams(g, polys, dim, n_rows, code_len), code_len))
}

/// The committed state: the encoded matrices, column-major with each column
/// of a polynomial contiguous, and the Merkle tree over the batch leaves.
pub struct Committed {
    pub mats: Vec<Vec<u8>>,
    pub tree: MerkleTree,
}

/// The tensor polynomial commitment scheme.
pub struct TensorPCS {
    pub log_rows: usize,
    pub n_test_queries: usize,
    pub code: ReedSolomonCode,
}

impl TensorPCS {
    /// Structural validity: a well-formed code and sizes the machine can
    /// hold.
    pub open spec fn wf(&self) -> bool {
        &&& self.code.wf()
        &&& self.log_rows <= 20
        &&& 1 <= self.n_test_queries <= 0x10000
    }

    pub open spec fn spec_n_rows(&self) -> nat {
        pow2(self.log_rows as nat)
    }

    pub open spec fn spec_n_vars(&self) -> nat {
        (self.log_rows + self.code.log_dim) as nat
    }

    /// Construct the scheme over the given code.
    ///
    /// The byte-field instantiation packs one scalar per word, so the width
    /// divisibility checks of the general construction hold by themselves;
    /// the code length is a power of two by construction, and both extension
    /// degrees are powers of two.  What remains are machine limits this
    /// crate imposes beyond the mathematical construction: `log_rows` is
    /// capped at 20 and `n_test_queries` at 2^16 so that the table sizes
    /// and the proof-size arithmetic stay within machine integers.  A
    /// parameterization outside those caps is rejected here though the
    /// construction itself would admit it.
    pub fn new(log_rows: usize, code: ReedSolomonCode, n_test_queries: usize) -> (r: Result<
        TensorPCS,
        Error,
    >)
        requires
            code.wf(),
        ensures
            match r {
                Ok(pcs) => pcs.wf() && pcs.log_rows == log_rows && pcs.n_test_queries
                    == n_test_queries && pcs.code == code,
                Err(e) => e == Error::ParameterError && (log_rows > 20 || n_test_queries == 0
                    || n_test_queries > 0x10000),
            },
    {
        if log_rows > 20 || n_test_queries == 0 || n_test_queries > 0x10000 {
            return Err(Error::ParameterError);
        }
        Ok(TensorPCS { log_rows, n_test_queries, code })
    }

    /// Construct the scheme with the Groestl Merkle tree commitment, the
    /// only vector commitment this library provides.
    pub fn new_using_groestl_merkle_tree(
        log_rows: usize,
        code: ReedSolomonCode,
        n_test_queries: usize,
    ) -> (r: Result<TensorPCS, Error>)
        requires
            code.wf(),
        ensures
            match r {
                Ok(pcs) => pcs.wf() && pcs.log_rows == log_rows && pcs.n_test_queries
                    == n_test_queries && pcs.code == code,
                Err(e) => e == Error::ParameterError && (log_rows > 20 || n_test_queries == 0
                    || n_test_queries > 0x10000),
            },
    {
        TensorPCS::new(log_rows, code, n_test_queries)
    }

    /// The number of variables of a committed multilinear.
    pub fn n_vars(&self) -> (r: usize)
        requires
            self.wf(),
        ensures
            r == self.log_rows + self.code.log_dim,
    {
        self.log_rows + self.code.dim_bits()
    }

    /// Base-2 logarithm of the number of rows of the committed matrix.
    pub fn log_rows(&self) -> (r: usize)
        ensures
            r == self.log_rows,
    {
        self.log_rows
    }

    /// Base-2 logarithm of the number of columns of the pre-encoded matrix.
    pub fn log_cols(&self) -> (r: usize)
        ensures
            r == self.code.log_dim,
    {
        self.code.dim_bits()
    }

    /// Size in bytes of an evaluation proof for a batch of `n_polys`.
    pub fn proof_size(&self, n_polys: usize) -> (r: u64)
        requires
            self.wf(),
            n_polys <= 0x10000,
        ensures
            r as nat == 16 * pow2(self.code.log_dim as nat) + (n_polys * pow2(
                self.log_rows as nat,
            ) + 32 * (self.code.log_dim + self.code.log_inv_rate)) * self.n_test_queries,
    {
        proof {
            vstd::arithmetic::power2::lemma2_to64();
            assert(pow2(self.code.log_dim as nat) <= pow2(8)) by {
                if self.code.log_dim < 8 {
                    vstd::arithmetic::power2::lemma_pow2_strictly_increases(
                        self.code.log_dim as nat,
                        8,
                    );
                }
            }
            assert(pow2(self.log_rows as nat) <= pow2(20)) by {
                if self.log_rows < 20 {
                    vstd::arithmetic::power2::lemma_pow2_strictly_increases(
                        self.log_rows as nat,
                        20,
                    );
                }
            }
        }
        let t_prime_size: u64 = 16 * (pow2_usize(self.code.log_dim) as u64);
        let column_size: u64 = pow2_usize(self.log_rows) as u64;
        let vcs_size: u64 = 32 * ((self.code.dim_bits() + self.code.log_inv_rate) as u64);
        proof {
            assert((n_polys as u64) * column_size <= 0x10000 * 0x100000) by (nonlinear_arith)
                requires
                    n_polys <= 0x10000,
                    column_size <= 0x100000,
            ;
            assert(((n_polys as u64) * column_size + vcs_size) * (self.n_test_queries as u64)
                <= (0x10000 * 0x100000 + 0x10000u64) * 0x10000) by (nonlinear_arith)
                requires
                    (n_polys as u64) * column_size <= 0x10000 * 0x100000,
                    vcs_size <= 0x10000,
                    self.n_test_queries <= 0x10000,
            ;
        }
        t_prime_size + ((n_polys as u64) * column_size + vcs_size) * (self.n_test_queries as u64)
    }

    /// Commit to a batch of multilinears of `n_vars` variables.
    ///
    /// Each polynomial's table is transposed to column-major form, each row
    /// encoded by the code, every encoded column hashed, and the digest
    /// streams committed through the Merkle tree.  The commitment equals the
    /// Merkle root that the polynomials determine.
    pub fn commit(&self, polys: &Vec<ByteMultilinear>) -> (r: Result<(Vec<u8>, Committed), Error>)
        requires
            self.wf(),
            polys@.len() >= 1,
            polys@.len() <= 0x10000,
            forall|p: int| 0 <= p < polys@.len() ==> (#[trigger] polys@[p]).wf(),
        ensures
            match r {
                Ok(t) => {
                    &&& forall|p: int|
                        0 <= p < polys@.len() ==> (#[trigger] polys@[p]).n_vars == self.log_rows
                            + self.code.log_dim
                    &&& t.0@ == commitment_of(
                        self.code.gen_mat(),
                        poly_views(polys@),
                        self.code.spec_dim(),
                        self.spec_n_rows(),
                        self.code.spec_len(),
                    )
                    &&& self.committed_matches(&t.1, polys@)
                    &&& t.1.tree.root@ == t.0@
                },
                Err(e) => e == (Error::IncorrectPolynomialSize {
                    expected: (self.log_rows + self.code.log_dim) as usize,
                }) && (exists|p: int|
                    0 <= p < polys@.len() && (#[trigger] polys@[p]).n_vars != self.log_rows
                        + self.code.log_dim),
            },
    {
        let n_vars = self.n_vars();
        let mut p: usize = 0;
        while p < polys.len()
            invariant
                p <= polys@.len(),
                n_vars == self.log_rows + self.code.log_dim,
                forall|q: int| 0 <= q < p ==> (#[trigger] polys@[q]).n_vars == n_vars,
            decreases polys@.len() - p,
        {
            if polys[p].n_vars != n_vars {
                return Err(Error::IncorrectPolynomialSize { expected: n_vars });
            }
            p = p + 1;
        }
        let n_rows: usize = pow2_usize(self.log_rows);
        let dim: usize = self.code.dim();
        let n: usize = self.code.len();
        proof {
            lemma_pcs_sizes(self);
        }
        let mut mats: Vec<Vec<u8>> = Vec::new();
        let mut streams: Vec<Vec<Vec<u8>>> = Vec::new();
        let ghost g = self.code.gen_mat();
        let mut p2: usize = 0;
        while p2 < polys.len()
            invariant
                p2 <= polys@.len(),
                self.wf(),
                g == self.code.gen_mat(),
                forall|q: int| 0 <= q < polys@.len() ==> (#[trigger] polys@[q]).wf(),
                forall|q: int|
                    0 <= q < polys@.len() ==> (#[trigger] polys@[q]).n_vars == self.log_rows
                        + self.code.log_dim,
                n_rows as nat == self.spec_n_rows(),
                dim as nat == self.code.spec_dim(),
                n as nat == self.code.spec_len(),
                dim <= n <= 256,
                1 <= n_rows <= 0x100000,
                mats@.len() == p2,
                streams@.len() == p2,
                forall|q: int| 0 <= q < p2 ==> (#[trigger] mats@[q])@.len() == n * n_rows,
                forall|q: int, j: int, rr: int|
                    0 <= q < p2 && 0 <= j < n && 0 <= rr < n_rows ==> mats@[q]@[j * (
                    n_rows as int) + rr] as nat == #[trigger] enc_entry(
                        g,
                        polys@[q].evals@,
                        dim as nat,
                        j,
                        rr,
                    ),
                forall|q: int| 0 <= q < p2 ==> (#[trigger] streams@[q])@.len() == n,
                forall|q: int|
                    0 <= q < p2 ==> digs((#[trigger] streams@[q])@) == poly_stream(
                        g,
                        polys@[q].evals@,
                        dim as nat,
                        n_rows as nat,
                        n as nat,
                    ),
            decreases polys@.len() - p2,
        {
            let ghost evals = polys@[p2 as int].evals@;
            proof {
                vstd::arithmetic::power2::lemma_pow2_adds(
                    self.log_rows as nat,
                    self.code.log_dim as nat,
                );
                assert(evals.len() == dim * n_rows) by (nonlinear_arith)
                    requires
                        evals.len() == pow2(self.log_rows as nat) * pow2(self.code.log_dim as nat),
                        n_rows as nat == pow2(self.log_rows as nat),
                        dim as nat == pow2(self.code.log_dim as nat),
                ;
            }
            let transposed = transpose_bytes(&polys[p2].evals, dim, n_rows);
            let ghost tview = transposed@;
            let mut buf: Vec<u8> = transposed;
            proof {
                assert(dim * n_rows <= n * n_rows && n * n_rows <= 256 * 0x100000)
                    by (nonlinear_arith)
                    requires
                        dim <= n <= 256,
                        1 <= n_rows <= 0x100000,
                ;
            }
            let target: usize = n * n_rows;
            while buf.len() < target
                invariant
                    tview.len() <= buf@.len() <= target,
                    target <= 0x10000000,
                    buf@.take(tview.len() as int) == tview,
                decreases target - buf@.len(),
            {
                buf.push(0);
                proof {
                    assert(buf@.take(tview.len() as int) =~= tview);
                }
            }
            let ghost prebuf = buf@;
            let enc_res = self.code.encode_batch_inplace(&mut buf, self.log_rows);
            proof {
                if enc_res.is_err() {
                    assert(prebuf.len() == self.code.spec_len() * pow2(self.log_rows as nat));
                    assert(false);
                }
                // The encoded entries are the codeword symbols of the rows.
                assert forall|j: int, rr: int|
                    0 <= j < n && 0 <= rr < n_rows implies buf@[j * (n_rows as int) + rr] as nat
                    == enc_entry(g, evals, dim as nat, j, rr) by {
                    let m1 = stride_msg(prebuf, n_rows as nat, rr, dim as nat);
                    let m2 = msg_row(evals, dim as nat, rr);
                    assert forall|i: int| 0 <= i < dim implies m1[i] == m2[i] by {
                        assert(i * (n_rows as int) + rr < dim * n_rows) by (nonlinear_arith)
                            requires
                                0 <= i < dim,
                                0 <= rr < n_rows,
                        ;
                        assert(m1[i] == prebuf[i * (n_rows as int) + rr]);
                        assert(prebuf[i * (n_rows as int) + rr] == prebuf.take(
                            tview.len() as int,
                        )[i * (n_rows as int) + rr]);
                        assert(tview[i * (n_rows as int) + rr] == evals[rr * (dim as int) + i]);
                    }
                    assert(m1 =~= m2);
                    assert(buf@[j * (n_rows as int) + rr] as nat == ip3(
                        self.code.gen_mat()[j],
                        m1,
                    ));
                }
            }
            // Hash each encoded column into the polynomial's digest stream.
            let mut stream: Vec<Vec<u8>> = Vec::new();
            let mut j: usize = 0;
            while j < n
                invariant
                    j <= n,
                    dim <= n <= 256,
                    1 <= n_rows <= 0x100000,
                    n * n_rows <= 0x10000000,
                    buf@.len() <= usize::MAX,
                    buf@.len() == n * n_rows,
                    g == self.code.gen_mat(),
                    forall|jj: int, rr: int|
                        0 <= jj < n && 0 <= rr < n_rows ==> buf@[jj * (n_rows as int) + rr] as nat
                            == enc_entry(g, evals, dim as nat, jj, rr),
                    stream@.len() == j,
                    forall|t: int|
                        0 <= t < j ==> (#[trigger] stream@[t])@ == groestl_of(
                            enc_col(g, evals, dim as nat, n_rows as nat, t),
                        ),
                decreases n - j,
            {
                let mut col: Vec<u8> = Vec::new();
                let mut rr: usize = 0;
                proof {
                    assert(j * n_rows + n_rows <= n * n_rows) by (nonlinear_arith)
                        requires
                            0 <= j < n,
                            n_rows >= 0,
                    ;
                }
                while rr < n_rows
                    invariant
                        rr <= n_rows,
                        j < n,
                        buf@.len() <= usize::MAX,
                        buf@.len() == n * n_rows,
                        j * n_rows + n_rows <= n * n_rows,
                        col@.len() == rr,
                        forall|t: int|
                            0 <= t < rr ==> col@[t] == buf@[j * (n_rows as int) + t],
                    decreases n_rows - rr,
                {
                    col.push(buf[j * n_rows + rr]);
                    rr = rr + 1;
                }
                proof {
                    assert(col@ =~= enc_col(g, evals, dim as nat, n_rows as nat, j as int));
                }
                let d = crate::hashing::groestl256(&col);
                stream.push(d);
                j = j + 1;
            }
            proof {
                assert(digs(stream@) =~= poly_stream(g, evals, dim as nat, n_rows as nat, n as nat));
            }
            mats.push(buf);
            streams.push(stream);
            p2 = p2 + 1;
        }
        proof {
            assert(streams@[0int]@.len() == n);
            assert forall|q: int|
                0 <= q < streams@.len() implies (#[trigger] streams@[q])@.len()
                == streams@[0int]@.len() by {}
        }
        let committed = match commit_batch(&streams) {
            Ok(t) => t,
            Err(_) => {
                proof {
                    assert(streams@[0int]@.len() == pow2(
                        (self.code.log_dim + self.code.log_inv_rate) as nat,
                    ));
                    let clb = (self.code.log_dim + self.code.log_inv_rate) as nat;
                    assert(clb < 31);
                    vstd::arithmetic::power2::lemma2_to64();
                    assert(pow2((self.code.log_dim + self.code.log_inv_rate) as nat) < pow2(31))
                        by {
                        vstd::arithmetic::power2::lemma_pow2_strictly_increases(
                            (self.code.log_dim + self.code.log_inv_rate) as nat,
                            31,
                        );
                    }
                    assert(false);
                }
                return Err(Error::VectorCommit);
            },
        };
        let (root, tree) = committed;
        proof {
            assert(lvls(streams@) =~= commit_streams(
                g,
                poly_views(polys@),
                dim as nat,
                n_rows as nat,
                n as nat,
            ));
        }
        Ok((root, Committed { mats, tree }))
    }

    /// The committed state matches the batch: the matrices hold the encoded
    /// tables, and the tree commits to their column digests.
    pub open spec fn committed_matches(&self, committed: &Committed, polys: Seq<ByteMultilinear>)
        -> bool {
        let g = self.code.gen_mat();
        let dim = self.code.spec_dim();
        let n_rows = self.spec_n_rows();
        let n = self.code.spec_len();
        &&& committed.mats@.len() == polys.len()
        &&& forall|q: int|
            0 <= q < polys.len() ==> (#[trigger] committed.mats@[q])@.len() == n * n_rows
        &&& forall|q: int, j: int, rr: int|
            0 <= q < polys.len() && 0 <= j < n && 0 <= rr < n_rows
                ==> committed.mats@[q]@[j * (n_rows as int) + rr] as nat == #[trigger] enc_entry(
                g,
                polys[q].evals@,
                dim,
                j,
                rr,
            )
        &&& committed.tree.wf()
        &&& committed.tree.leaves() == batch_leaves(
            commit_streams(g, poly_views(polys), dim, n_rows, n),
            n,
        )
        &&& committed.tree.depth < 31
        &&& committed.tree.leaves().len() == n
    }
}

/// Evaluation proof data for the tensor commitment scheme: the number of
/// batched polynomials, the mixed partial evaluation, and for each test
/// query the opened columns of every polynomial with their Merkle path.
pub struct Proof {
    pub n_polys: usize,
    pub mixed_t_prime: MultilinearExtension,
    pub vcs_proofs: Vec<(Vec<Vec<u8>>, Vec<Vec<u8>>)>,
}

/// The per-polynomial partial evaluations at the high variables of the
/// query: what the prover mixes into t'.
pub open spec fn folded_views(polys: Seq<ByteMultilinear>, qh: Seq<nat>) -> Seq<Seq<nat>> {
    Seq::new(polys.len(), |p: int| fold_hi_all(bex(polys[p].evals@), qh))
}

impl TensorPCS {
    /// Generate an evaluation proof at a challenge point.
    ///
    /// Mixing challenges are sampled, the polynomials are partially
    /// evaluated at the high variables and mixed, the mixed polynomial is
    /// observed, and the challenger then names the columns to open.
    #[verifier::rlimit(100)]
    pub fn prove_evaluation(
        &self,
        challenger: &mut HashChallenger,
        committed: &Committed,
        polys: &Vec<ByteMultilinear>,
        query: &Vec<u128>,
    ) -> (r: Result<Proof, Error>)
        requires
            self.wf(),
            1 <= polys@.len() <= 0x10000,
            forall|p: int| 0 <= p < polys@.len() ==> (#[trigger] polys@[p]).wf(),
            self.committed_matches(committed, polys@),
        ensures
            match r {
                Ok(proof) => {
                    let s0 = old(challenger).st();
                    let nc = clog2(polys@.len() as nat);
                    let s1 = ch_samples_st(s0, nc);
                    let coeffs = tensor_spec(ch_samples_vals(s0, nc)).take(polys@.len() as int);
                    let qh = nats(query@).skip(self.code.log_dim as int);
                    let s2 = observe_scalars_st(s1, nats(proof.mixed_t_prime.evals@));
                    let bits = (self.code.log_dim + self.code.log_inv_rate) as nat;
                    &&& query@.len() == self.spec_n_vars()
                    &&& forall|p: int|
                        0 <= p < polys@.len() ==> (#[trigger] polys@[p]).n_vars
                            == self.spec_n_vars()
                    &&& proof.n_polys == polys@.len()
                    &&& proof.mixed_t_prime.wf()
                    &&& proof.mixed_t_prime.n_vars == self.code.log_dim
                    &&& forall|i: int|
                        0 <= i < proof.mixed_t_prime.evals@.len()
                            ==> (#[trigger] proof.mixed_t_prime.evals@[i]) as nat
                            == mix_entry_n(folded_views(polys@, qh), coeffs, i)
                    &&& final(challenger).st() == query_st(s2, self.n_test_queries as nat)
                    &&& proof.vcs_proofs@.len() == self.n_test_queries
                    &&& forall|k: int|
                        0 <= k < self.n_test_queries ==> {
                            let idx = idx_of(s2, k as nat, bits);
                            let cols = (#[trigger] proof.vcs_proofs@[k]).0;
                            let path = proof.vcs_proofs@[k].1;
                            &&& cols@.len() == polys@.len()
                            &&& digs(path@) == crate::merkle::path_of(
                                lvls(committed.tree.levels@),
                                idx,
                            )
                            &&& path@.len() == committed.tree.depth
                            &&& forall|p: int|
                                0 <= p < polys@.len() ==> (#[trigger] cols@[p])@.len()
                                    == self.spec_n_rows() && forall|rr: int|
                                    0 <= rr < self.spec_n_rows() ==> cols@[p]@[rr]
                                        == committed.mats@[p]@[(idx * self.spec_n_rows()) as int
                                        + rr]
                        }
                },
                Err(e) => {
                    &&& (query@.len() != self.spec_n_vars() || (exists|p: int|
                        0 <= p < polys@.len() && (#[trigger] polys@[p]).n_vars
                            != self.spec_n_vars()))
                    &&& (query@.len() != self.spec_n_vars() ==> e == (Error::IncorrectQuerySize {
                        expected: (self.log_rows + self.code.log_dim) as usize,
                    }))
                    &&& (query@.len() == self.spec_n_vars() ==> {
                        ||| (exists|p: int|
                            0 <= p < polys@.len() && (#[trigger] polys@[p]).n_vars
                                < self.log_rows && (forall|q: int|
                                0 <= q < p ==> polys@[q].n_vars >= self.log_rows) && e == (
                            Error::IncorrectQuerySize { expected: polys@[p].n_vars as usize }))
                        ||| ((forall|p: int|
                            0 <= p < polys@.len() ==> (#[trigger] polys@[p]).n_vars
                                >= self.log_rows) && e == (Error::IncorrectPolynomialSize {
                            expected: self.code.log_dim as usize,
                        }))
                    })
                },
            },
    {
        let n_polys = polys.len();
        if query.len() != self.n_vars() {
            return Err(Error::IncorrectQuerySize { expected: self.n_vars() });
        }
        let n_challenges = log2_ceil_usize(n_polys);
        proof {
            lemma_log2_ceil_is_clog2(n_challenges as nat, n_polys as nat);
            vstd::arithmetic::power2::lemma2_to64();
            assert(n_challenges <= 16) by {
                if n_challenges > 16 {
                    assert(pow2((n_challenges - 1) as nat) >= pow2(16)) by {
                        if n_challenges - 1 > 16 {
                            vstd::arithmetic::power2::lemma_pow2_strictly_increases(
                                16,
                                (n_challenges - 1) as nat,
                            );
                        }
                    }
                }
            }
        }
        let mixing_challenges = challenger.sample_vec(n_challenges);
        let mq = match MultilinearQuery::with_full_query(&mixing_challenges) {
            Ok(m) => m,
            Err(_) => {
                proof {
                    assert(false);
                }
                return Err(Error::ParameterError);
            },
        };
        let expansion = mq.into_expansion();
        proof {
            lemma_clog2_bracket(n_polys as nat);
        }
        let mut mixing_coeffs: Vec<u128> = Vec::new();
        let mut t: usize = 0;
        while t < n_polys
            invariant
                t <= n_polys,
                n_polys <= expansion@.len(),
                mixing_coeffs@.len() == t,
                forall|s: int| 0 <= s < t ==> mixing_coeffs@[s] == expansion@[s],
            decreases n_polys - t,
        {
            mixing_coeffs.push(expansion[t]);
            t = t + 1;
        }
        proof {
            assert(mixing_coeffs@ =~= expansion@.take(n_polys as int));
            assert(nats(mixing_coeffs@) =~= nats(expansion@).take(n_polys as int));
        }
        // Partial evaluation of every polynomial at the high variables.
        let log_n_cols = self.code.dim_bits();
        let mut qh: Vec<u128> = Vec::new();
        let mut t2: usize = log_n_cols;
        while t2 < query.len()
            invariant
                log_n_cols <= t2 <= query@.len(),
                qh@.len() == t2 - log_n_cols,
                forall|s: int| 0 <= s < t2 - log_n_cols ==> qh@[s] == query@[log_n_cols + s],
            decreases query@.len() - t2,
        {
            qh.push(query[t2]);
            t2 = t2 + 1;
        }
        proof {
            assert(nats(qh@) =~= nats(query@).skip(log_n_cols as int));
        }
        let mut t_primes: Vec<MultilinearExtension> = Vec::new();
        let mut p: usize = 0;
        while p < n_polys
            invariant
                p <= n_polys,
                n_polys == polys@.len(),
                self.wf(),
                forall|q: int| 0 <= q < polys@.len() ==> (#[trigger] polys@[q]).wf(),
                qh@.len() == self.log_rows,
                query@.len() == self.log_rows + self.code.log_dim,
                nats(qh@) == nats(query@).skip(self.code.log_dim as int),
                t_primes@.len() == p,
                forall|q: int|
                    0 <= q < p ==> (#[trigger] t_primes@[q]).wf() && t_primes@[q].n_vars
                        == polys@[q].n_vars - qh@.len() && polys@[q].n_vars >= qh@.len() && nats(
                        t_primes@[q].evals@,
                    ) == fold_hi_all(bex(polys@[q].evals@), nats(qh@)),
            decreases n_polys - p,
        {
            let ext = polys[p].to_ext();
            proof {
                assert(nats(ext.evals@) =~= bex(polys@[p as int].evals@));
            }
            let tp = match ext.evaluate_partial_high(&qh) {
                Ok(m) => m,
                Err(e) => {
                    proof {
                        vstd::arithmetic::power2::lemma_pow2_adds(
                            self.log_rows as nat,
                            self.code.log_dim as nat,
                        );
                        assert(polys@[p as int].n_vars != self.log_rows + self.code.log_dim) by {
                            if polys@[p as int].n_vars == self.log_rows + self.code.log_dim {
                                assert(qh@.len() <= ext.n_vars);
                            }
                        }
                        assert(polys@[p as int].n_vars < self.log_rows);
                        assert forall|q: int|
                            0 <= q < p implies polys@[q].n_vars >= self.log_rows by {
                            assert(t_primes@[q].wf());
                        }
                        assert(e == (Error::IncorrectQuerySize {
                            expected: polys@[p as int].n_vars as usize,
                        }));
                    }
                    return Err(e);
                },
            };
            let ghost oldt = t_primes@;
            t_primes.push(tp);
            proof {
                assert(t_primes@[p as int] == tp);
                assert(nats(ext.evals@) =~= bex(polys@[p as int].evals@));
                assert(nats(tp.evals@) == fold_hi_all(nats(ext.evals@), nats(qh@)));
                assert(nats(tp.evals@) == fold_hi_all(bex(polys@[p as int].evals@), nats(qh@)));
                assert(tp.n_vars == polys@[p as int].n_vars - qh@.len());
                assert(polys@[p as int].n_vars >= qh@.len());
                assert(tp.wf());
                assert forall|q: int|
                    0 <= q < p + 1 implies (#[trigger] t_primes@[q]).wf() && t_primes@[q].n_vars
                    == polys@[q].n_vars - qh@.len() && polys@[q].n_vars >= qh@.len() && nats(
                    t_primes@[q].evals@,
                ) == fold_hi_all(bex(polys@[q].evals@), nats(qh@)) by {
                    if q < p {
                        assert(t_primes@[q] == oldt[q]);
                        assert(oldt[q].wf() && oldt[q].n_vars == polys@[q].n_vars - qh@.len()
                            && polys@[q].n_vars >= qh@.len() && nats(oldt[q].evals@)
                            == fold_hi_all(bex(polys@[q].evals@), nats(qh@)));
                    } else {
                        assert(t_primes@[q] == tp);
                    }
                }
            }
            p = p + 1;
        }
        let t_prime = match mix_t_primes(log_n_cols, &t_primes, &mixing_coeffs) {
            Ok(m) => m,
            Err(e) => {
                proof {
                    let bad = choose|q: int|
                        0 <= q < t_primes@.len() && (#[trigger] t_primes@[q]).n_vars
                            != log_n_cols;
                    assert(polys@[bad].n_vars != self.log_rows + self.code.log_dim);
                    assert forall|q: int|
                        0 <= q < polys@.len() implies polys@[q].n_vars >= self.log_rows by {
                        assert(t_primes@[q].wf());
                    }
                    assert(e == (Error::IncorrectPolynomialSize {
                        expected: self.code.log_dim as usize,
                    }));
                }
                return Err(e);
            },
        };
        challenger.observe_scalars(&t_prime.evals);
        let ghost s2 = challenger.st();
        // Open the challenger-sampled columns.
        let code_len_bits = log_n_cols + self.code.log_inv_rate;
        let n_rows: usize = pow2_usize(self.log_rows);
        proof {
            lemma_pcs_sizes(self);
        }
        let mut vcs_proofs: Vec<(Vec<Vec<u8>>, Vec<Vec<u8>>)> = Vec::new();
        let mut k: usize = 0;
        while k < self.n_test_queries
            invariant
                k <= self.n_test_queries,
                self.wf(),
                code_len_bits == self.code.log_dim + self.code.log_inv_rate,
                n_rows as nat == self.spec_n_rows(),
                1 <= n_rows <= 0x100000,
                pow2(code_len_bits as nat) <= 256,
                pow2(code_len_bits as nat) == self.code.spec_len(),
                n_polys == polys@.len(),
                1 <= n_polys <= 0x10000,
                self.committed_matches(committed, polys@),
                self.st_matches(challenger, s2, k as nat),
                vcs_proofs@.len() == k,
                forall|kk: int|
                    0 <= kk < k ==> {
                        let idx = idx_of(s2, kk as nat, code_len_bits as nat);
                        let cols = (#[trigger] vcs_proofs@[kk]).0;
                        let path = vcs_proofs@[kk].1;
                        &&& cols@.len() == polys@.len()
                        &&& digs(path@) == crate::merkle::path_of(
                            lvls(committed.tree.levels@),
                            idx,
                        )
                        &&& path@.len() == committed.tree.depth
                        &&& forall|pp: int|
                            0 <= pp < polys@.len() ==> (#[trigger] cols@[pp])@.len()
                                == self.spec_n_rows() && forall|rr: int|
                                0 <= rr < self.spec_n_rows() ==> cols@[pp]@[rr]
                                    == committed.mats@[pp]@[(idx * self.spec_n_rows()) as int + rr]
                    },
            decreases self.n_test_queries - k,
        {
            let index = challenger.sample_bits(code_len_bits);
            proof {
                lemma_query_st_snoc(s2, k as nat);
                assert(committed.tree.leaves().len() == pow2(code_len_bits as nat));
                assert(index < committed.tree.leaves().len());
            }
            let path = committed.tree.merkle_path(index);
            let mut cols: Vec<Vec<u8>> = Vec::new();
            let mut p3: usize = 0;
            proof {
                assert((index + 1) * n_rows <= pow2(code_len_bits as nat) * n_rows)
                    by (nonlinear_arith)
                    requires
                        index + 1 <= pow2(code_len_bits as nat),
                        n_rows >= 0,
                ;
                assert(index * n_rows + n_rows == (index + 1) * n_rows) by (nonlinear_arith);
                assert(pow2(code_len_bits as nat) * n_rows <= 0x10000000) by (nonlinear_arith)
                    requires
                        pow2(code_len_bits as nat) <= 256,
                        n_rows <= 0x100000,
                ;
                assert(pow2(code_len_bits as nat) <= 256);
            }
            while p3 < n_polys
                invariant
                    p3 <= n_polys,
                    n_polys == polys@.len(),
                    self.wf(),
                    self.committed_matches(committed, polys@),
                    n_rows as nat == self.spec_n_rows(),
                    index * n_rows + n_rows <= pow2(code_len_bits as nat) * n_rows,
                    (index as nat) < pow2(code_len_bits as nat),
                    pow2(code_len_bits as nat) * n_rows <= 0x10000000,
                    pow2(code_len_bits as nat) * n_rows == self.code.spec_len()
                        * self.spec_n_rows(),
                    cols@.len() == p3,
                    forall|pp: int|
                        0 <= pp < p3 ==> (#[trigger] cols@[pp])@.len() == n_rows && forall|rr: int|
                            0 <= rr < n_rows ==> cols@[pp]@[rr] == committed.mats@[pp]@[(index * (
                            n_rows as int)) + rr],
                decreases n_polys - p3,
            {
                let mut col: Vec<u8> = Vec::new();
                let mut rr: usize = 0;
                while rr < n_rows
                    invariant
                        rr <= n_rows,
                        p3 < n_polys,
                        n_polys == polys@.len(),
                        self.wf(),
                        self.committed_matches(committed, polys@),
                        n_rows as nat == self.spec_n_rows(),
                        index * n_rows + n_rows <= pow2(code_len_bits as nat) * n_rows,
                        pow2(code_len_bits as nat) * n_rows <= 0x10000000,
                        pow2(code_len_bits as nat) * n_rows == self.code.spec_len()
                            * self.spec_n_rows(),
                        col@.len() == rr,
                        forall|t3: int|
                            0 <= t3 < rr ==> col@[t3] == committed.mats@[p3 as int]@[(index * (
                            n_rows as int)) + t3],
                    decreases n_rows - rr,
                {
                    col.push(committed.mats[p3][index * n_rows + rr]);
                    rr = rr + 1;
                }
                cols.push(col);
                p3 = p3 + 1;
            }
            vcs_proofs.push((cols, path));
            k = k + 1;
        }
        proof {
            assert forall|kk: int| 0 <= kk < self.n_test_queries implies {
                let idx = idx_of(s2, kk as nat, (self.code.log_dim + self.code.log_inv_rate) as nat);
                let cols = (#[trigger] vcs_proofs@[kk]).0;
                let path = vcs_proofs@[kk].1;
                &&& cols@.len() == polys@.len()
                &&& digs(path@) == crate::merkle::path_of(lvls(committed.tree.levels@), idx)
                &&& path@.len() == committed.tree.depth
                &&& forall|p: int|
                    0 <= p < polys@.len() ==> (#[trigger] cols@[p])@.len() == self.spec_n_rows()
                        && forall|rr: int|
                        0 <= rr < self.spec_n_rows() ==> cols@[p]@[rr] == committed.mats@[p]@[(idx
                            * self.spec_n_rows()) as int + rr]
            } by {
                let bits = (self.code.log_dim + self.code.log_inv_rate) as nat;
                assert(idx_of(s2, kk as nat, bits) == idx_of(
                    s2,
                    kk as nat,
                    code_len_bits as nat,
                ));
            }
            let s0 = old(challenger).st();
            let nc = clog2(polys@.len() as nat);
            let coeffs = tensor_spec(ch_samples_vals(s0, nc)).take(polys@.len() as int);
            let qhn = nats(query@).skip(self.code.log_dim as int);
            assert(nats(mixing_challenges@) == ch_samples_vals(s0, nc));
            assert(nats(mixing_coeffs@) =~= tensor_spec(ch_samples_vals(s0, nc)).take(
                n_polys as int,
            ));
            assert(tables_n(mls(t_primes@)) =~= folded_views(polys@, qhn)) by {
                assert forall|p: int| 0 <= p < t_primes@.len() implies tables_n(mls(t_primes@))[p]
                    == folded_views(polys@, qhn)[p] by {
                    assert(tables_n(mls(t_primes@))[p] == nats(t_primes@[p].evals@));
                    assert(nats(t_primes@[p].evals@) == fold_hi_all(
                        bex(polys@[p].evals@),
                        nats(qh@),
                    ));
                    assert(nats(qh@) == qhn);
                }
            }
            assert(s2 == observe_scalars_st(
                ch_samples_st(s0, nc),
                nats(t_prime.evals@),
            ));
            assert(challenger.st() == query_st(s2, self.n_test_queries as nat));
            assert forall|p4: int|
                0 <= p4 < polys@.len() implies (#[trigger] polys@[p4]).n_vars
                == self.spec_n_vars() by {
                assert(t_primes@[p4].n_vars == log_n_cols);
                assert(t_primes@[p4].n_vars == polys@[p4].n_vars - qh@.len());
                assert(polys@[p4].n_vars >= qh@.len());
            }
            assert forall|i: int|
                0 <= i < t_prime.evals@.len() implies (#[trigger] t_prime.evals@[i]) as nat
                == mix_entry_n(folded_views(polys@, qhn), coeffs, i) by {
                assert(t_prime.evals@[i] as nat == mix_entry_n(
                    tables_n(mls(t_primes@)),
                    nats(mixing_coeffs@),
                    i,
                ));
            }
        }
        Ok(Proof { n_polys, mixed_t_prime: t_prime, vcs_proofs })
    }

    /// The challenger stands `k` index samples past the state `s2`.
    pub open spec fn st_matches(&self, challenger: &HashChallenger, s2: ChState, k: nat) -> bool {
        challenger.st() == query_st(s2, k)
    }

    /// The shape a well-formed proof must have for this scheme and batch
    /// size.
    pub open spec fn shape_ok(&self, proof: &Proof) -> bool {
        &&& proof.vcs_proofs@.len() == self.n_test_queries
        &&& forall|k: int|
            0 <= k < self.n_test_queries ==> ((#[trigger] proof.vcs_proofs@[k]).0@.len()
                == proof.n_polys && forall|p: int|
                0 <= p < proof.n_polys ==> (#[trigger] proof.vcs_proofs@[k].0@[p])@.len()
                    == self.spec_n_rows())
        &&& proof.mixed_t_prime.n_vars == self.code.log_dim
    }

    /// Whether the opened columns of test query `k` have the right count
    /// and sizes.
    pub open spec fn query_shape_ok(&self, proof: &Proof, k: int) -> bool {
        &&& proof.vcs_proofs@[k].0@.len() == proof.n_polys
        &&& forall|p: int|
            0 <= p < proof.n_polys ==> (#[trigger] proof.vcs_proofs@[k].0@[p])@.len()
                == self.spec_n_rows()
    }

    /// The smallest test query index at or past `k` whose opened columns
    /// are malformed; the length when there is none.
    pub open spec fn first_bad_query(&self, proof: &Proof, k: int) -> int
        decreases proof.vcs_proofs@.len() - k,
        when 0 <= k <= proof.vcs_proofs@.len()
    {
        if k >= proof.vcs_proofs@.len() {
            k
        } else if !self.query_shape_ok(proof, k) {
            k
        } else {
            self.first_bad_query(proof, k + 1)
        }
    }

    /// The smallest polynomial index at or past `p` whose opened column at
    /// test query `k` has the wrong size; the batch size when there is
    /// none.
    pub open spec fn first_bad_col(&self, proof: &Proof, k: int, p: int) -> int
        decreases proof.n_polys - p,
        when 0 <= p <= proof.n_polys
    {
        if p >= proof.n_polys {
            p
        } else if proof.vcs_proofs@[k].0@[p]@.len() != self.spec_n_rows() {
            p
        } else {
            self.first_bad_col(proof, k, p + 1)
        }
    }

    /// The error the shape check reports: the first violated check, in
    /// check order.
    pub open spec fn shape_err(&self, proof: &Proof) -> Error {
        if proof.vcs_proofs@.len() != self.n_test_queries {
            Error::Verification(
                VerificationError::NumberOfOpeningProofs { expected: self.n_test_queries },
            )
        } else {
            let k = self.first_bad_query(proof, 0);
            if k < proof.vcs_proofs@.len() {
                if proof.vcs_proofs@[k].0@.len() != proof.n_polys {
                    Error::NumBatchedMismatchError
                } else {
                    let p = self.first_bad_col(proof, k, 0);
                    Error::Verification(
                        VerificationError::OpenedColumnSize {
                            col_index: k as usize,
                            poly_index: p as usize,
                            expected: self.spec_n_rows() as usize,
                            actual: proof.vcs_proofs@[k].0@[p]@.len() as usize,
                        },
                    )
                }
            } else {
                Error::Verification(VerificationError::PartialEvaluationSize)
            }
        }
    }

    /// Check the shape of an evaluation proof.  An ill-shaped proof yields
    /// the error of the first violated check.
    #[verifier::loop_isolation(false)]
    pub fn check_proof_shape(&self, proof: &Proof) -> (r: Result<(), Error>)
        requires
            self.wf(),
        ensures
            match r {
                Ok(()) => self.shape_ok(proof),
                Err(e) => !self.shape_ok(proof) && e == self.shape_err(proof),
            },
    {
        let n_rows: usize = pow2_usize(self.log_rows);
        if proof.vcs_proofs.len() != self.n_test_queries {
            return Err(
                Error::Verification(
                    VerificationError::NumberOfOpeningProofs { expected: self.n_test_queries },
                ),
            );
        }
        let mut k: usize = 0;
        while k < proof.vcs_proofs.len()
            invariant
                k <= proof.vcs_proofs@.len(),
                proof.vcs_proofs@.len() == self.n_test_queries,
                n_rows as nat == self.spec_n_rows(),
                forall|t: int|
                    0 <= t < k ==> ((#[trigger] proof.vcs_proofs@[t]).0@.len() == proof.n_polys
                        && forall|p: int|
                        0 <= p < proof.n_polys ==> (#[trigger] proof.vcs_proofs@[t].0@[p])@.len()
                            == self.spec_n_rows()),
                self.first_bad_query(proof, 0) == self.first_bad_query(proof, k as int),
            decreases proof.vcs_proofs@.len() - k,
        {
            let cols = &proof.vcs_proofs[k].0;
            if cols.len() != proof.n_polys {
                proof {
                    assert(!self.query_shape_ok(proof, k as int));
                    assert(self.first_bad_query(proof, k as int) == k as int);
                }
                return Err(Error::NumBatchedMismatchError);
            }
            let mut p: usize = 0;
            while p < cols.len()
                invariant
                    p <= cols@.len(),
                    cols@ == proof.vcs_proofs@[k as int].0@,
                    k < proof.vcs_proofs@.len(),
                    cols@.len() == proof.n_polys,
                    n_rows as nat == self.spec_n_rows(),
                    forall|q: int|
                        0 <= q < p ==> (#[trigger] cols@[q])@.len() == self.spec_n_rows(),
                    self.first_bad_col(proof, k as int, 0) == self.first_bad_col(
                        proof,
                        k as int,
                        p as int,
                    ),
                decreases cols@.len() - p,
            {
                if cols[p].len() != n_rows {
                    proof {
                        assert(!self.query_shape_ok(proof, k as int));
                        assert(self.first_bad_query(proof, k as int) == k as int);
                        assert(self.first_bad_col(proof, k as int, p as int) == p as int);
                    }
                    return Err(
                        Error::Verification(
                            VerificationError::OpenedColumnSize {
                                col_index: k,
                                poly_index: p,
                                expected: n_rows,
                                actual: cols[p].len(),
                            },
                        ),
                    );
                }
                p = p + 1;
            }
            proof {
                assert(self.query_shape_ok(proof, k as int));
            }
            k = k + 1;
        }
        proof {
            assert(self.first_bad_query(proof, 0) == proof.vcs_proofs@.len());
        }
        if proof.mixed_t_prime.n_vars() != self.code.dim_bits() {
            return Err(Error::Verification(VerificationError::PartialEvaluationSize));
        }
        Ok(())
    }

    /// The opened columns of test query `k` hash and walk back to the
    /// commitment.
    pub open spec fn opening_ok(
        &self,
        commitment: Seq<u8>,
        proof: &Proof,
        s2: ChState,
        k: int,
    ) -> bool {
        walk_spec(
            groestl_of(concat_seq(col_digests(proof.vcs_proofs@[k].0@))),
            digs(proof.vcs_proofs@[k].1@),
            idx_of(s2, k as nat, (self.code.log_dim + self.code.log_inv_rate) as nat),
        ) == commitment
    }

    /// The mixed evaluation of the opened columns of test query `k` matches
    /// the re-encoded mixed partial evaluation at the sampled position.
    pub open spec fn column_consistent(
        &self,
        proof: &Proof,
        s2: ChState,
        qh: Seq<nat>,
        coeffs: Seq<nat>,
        k: int,
    ) -> bool {
        ip7(coeffs, col_evals(proof.vcs_proofs@[k].0@, qh)) == ip7m(
            self.code.gen_mat()[idx_of(
                s2,
                k as nat,
                (self.code.log_dim + self.code.log_inv_rate) as nat,
            ) as int],
            nats(proof.mixed_t_prime.evals@),
        )
    }

    /// Re-encode the mixed partial evaluation over the extension field: the
    /// same code, with extension-field coefficients on the same generator.
    pub fn encode_ext(&self, t_prime: &Vec<u128>) -> (out: Vec<u128>)
        requires
            self.wf(),
            t_prime@.len() == self.code.spec_dim(),
        ensures
            out@.len() == self.code.spec_len(),
            forall|j: int|
                0 <= j < self.code.spec_len() ==> (#[trigger] out@[j]) as nat == ip7m(
                    self.code.gen_mat()[j],
                    nats(t_prime@),
                ),
    {
        let n: usize = self.code.len();
        let dim: usize = self.code.dim();
        proof {
            lemma_pcs_sizes(self);
        }
        let mut out: Vec<u128> = Vec::new();
        let mut j: usize = 0;
        while j < n
            invariant
                j <= n,
                self.wf(),
                n as nat == self.code.spec_len(),
                dim as nat == self.code.spec_dim(),
                t_prime@.len() == dim,
                out@.len() == j,
                forall|t: int|
                    0 <= t < j ==> (#[trigger] out@[t]) as nat == ip7m(
                        self.code.gen_mat()[t],
                        nats(t_prime@),
                    ),
            decreases n - j,
        {
            let mut acc: u128 = 0;
            let mut i: usize = 0;
            proof {
                assert(self.code.gen_mat()[j as int].take(0) =~= Seq::<u8>::empty());
            }
            while i < dim
                invariant
                    i <= dim,
                    j < n,
                    self.wf(),
                    n as nat == self.code.spec_len(),
                    dim as nat == self.code.spec_dim(),
                    t_prime@.len() == dim,
                    acc as nat == ip7m(
                        self.code.gen_mat()[j as int].take(i as int),
                        nats(t_prime@).take(i as int),
                    ),
                decreases dim - i,
            {
                let term = mul_l7(self.code.generator[j][i] as u128, t_prime[i]);
                let ghost preacc = acc;
                acc = acc ^ term;
                proof {
                    lemma_xor_l7(preacc, term);
                    let g = self.code.gen_mat()[j as int];
                    let m = nats(t_prime@);
                    assert(g.take(i as int + 1).drop_last() =~= g.take(i as int));
                    assert(m.take(i as int + 1).drop_last() =~= m.take(i as int));
                    assert(g.take(i as int + 1).last() == g[i as int]);
                    assert(m.take(i as int + 1).last() == m[i as int]);
                }
                i = i + 1;
            }
            proof {
                let g = self.code.gen_mat()[j as int];
                let m = nats(t_prime@);
                assert(g.take(dim as int) =~= g);
                assert(m.take(dim as int) =~= m);
            }
            out.push(acc);
            j = j + 1;
        }
        out
    }

    /// Verify an evaluation proof at a challenge point against the claimed
    /// values of the batch.
    ///
    /// The verifier re-derives the mixing coefficients, checks the mixed
    /// partial evaluation against the mixed claim, re-encodes it, and checks
    /// every opened column against the commitment and against the re-encoded
    /// codeword.
    #[verifier::rlimit(100)]
    pub fn verify_evaluation(
        &self,
        challenger: &mut HashChallenger,
        commitment: &Vec<u8>,
        query: &Vec<u128>,
        proof: &Proof,
        values: &Vec<u128>,
    ) -> (r: Result<(), Error>)
        requires
            self.wf(),
            proof.mixed_t_prime.wf(),
        ensures
            ({
                let s0 = old(challenger).st();
                let nc = clog2(proof.n_polys as nat);
                let coeffs = tensor_spec(ch_samples_vals(s0, nc)).take(proof.n_polys as int);
                let s2 = observe_scalars_st(
                    ch_samples_st(s0, nc),
                    nats(proof.mixed_t_prime.evals@),
                );
                let bits = (self.code.log_dim + self.code.log_inv_rate) as nat;
                let qh = nats(query@).skip(self.code.log_dim as int);
                match r {
                    Ok(()) => {
                        &&& values@.len() == proof.n_polys
                        &&& 1 <= proof.n_polys <= 0x10000
                        &&& query@.len() == self.spec_n_vars()
                        &&& self.shape_ok(proof)
                        &&& eval_ml(
                            nats(proof.mixed_t_prime.evals@),
                            nats(query@).take(self.code.log_dim as int),
                        ) == ip7(coeffs, nats(values@))
                        &&& final(challenger).st() == query_st(s2, self.n_test_queries as nat)
                        &&& forall|k: int|
                            0 <= k < self.n_test_queries ==> {
                                let idx = idx_of(s2, k as nat, bits);
                                let cols = (#[trigger] proof.vcs_proofs@[k]).0;
                                let path = proof.vcs_proofs@[k].1;
                                &&& walk_spec(
                                    groestl_of(concat_seq(col_digests(cols@))),
                                    digs(path@),
                                    idx,
                                ) == commitment@
                                &&& ip7(coeffs, col_evals(cols@, qh)) == ip7m(
                                    self.code.gen_mat()[idx as int],
                                    nats(proof.mixed_t_prime.evals@),
                                )
                            }
                    },
                    Err(e) => {
                        // The checks run in a fixed order; the error names
                        // the first one violated.
                        if values@.len() != proof.n_polys || proof.n_polys == 0 || proof.n_polys
                            > 0x10000 {
                            e == Error::NumBatchedMismatchError
                        } else if query@.len() != self.spec_n_vars() {
                            e == (Error::IncorrectQuerySize {
                                expected: (self.log_rows + self.code.log_dim) as usize,
                            })
                        } else if !self.shape_ok(proof) {
                            e == self.shape_err(proof)
                        } else if eval_ml(
                            nats(proof.mixed_t_prime.evals@),
                            nats(query@).take(self.code.log_dim as int),
                        ) != ip7(coeffs, nats(values@)) {
                            e == Error::Verification(VerificationError::IncorrectEvaluation)
                        } else {
                            exists|k: int|
                                {
                                    &&& 0 <= k < self.n_test_queries
                                    &&& (forall|t: int|
                                        0 <= t < k ==> #[trigger] self.opening_ok(
                                            commitment@,
                                            proof,
                                            s2,
                                            t,
                                        ) && self.column_consistent(proof, s2, qh, coeffs, t))
                                    &&& (#[trigger] self.opening_ok(commitment@, proof, s2, k)
                                        ==> !self.column_consistent(proof, s2, qh, coeffs, k) && e
                                        == Error::Verification(
                                        VerificationError::IncorrectPartialEvaluation,
                                    ))
                                    &&& (!self.opening_ok(commitment@, proof, s2, k) ==> e
                                        == Error::VectorCommit)
                                }
                        }
                    },
                }
            }),
    {
        let n_polys = proof.n_polys;
        if values.len() != n_polys || n_polys == 0 || n_polys > 0x10000 {
            return Err(Error::NumBatchedMismatchError);
        }
        let n_challenges = log2_ceil_usize(n_polys);
        proof {
            lemma_log2_ceil_is_clog2(n_challenges as nat, n_polys as nat);
            vstd::arithmetic::power2::lemma2_to64();
            assert(n_challenges <= 16) by {
                if n_challenges > 16 {
                    assert(pow2((n_challenges - 1) as nat) >= pow2(16)) by {
                        if n_challenges - 1 > 16 {
                            vstd::arithmetic::power2::lemma_pow2_strictly_increases(
                                16,
                                (n_challenges - 1) as nat,
                            );
                        }
                    }
                }
            }
        }
        let mixing_challenges = challenger.sample_vec(n_challenges);
        let mq = match MultilinearQuery::with_full_query(&mixing_challenges) {
            Ok(m) => m,
            Err(_) => {
                proof {
                    assert(false);
                }
                return Err(Error::ParameterError);
            },
        };
        let expansion = mq.into_expansion();
        proof {
            lemma_clog2_bracket(n_polys as nat);
        }
        let mut mixing_coeffs: Vec<u128> = Vec::new();
        let mut t: usize = 0;
        while t < n_polys
            invariant
                t <= n_polys,
                n_polys <= expansion@.len(),
                mixing_coeffs@.len() == t,
                forall|s: int| 0 <= s < t ==> mixing_coeffs@[s] == expansion@[s],
            decreases n_polys - t,
        {
            mixing_coeffs.push(expansion[t]);
            t = t + 1;
        }
        let ghost coeffs_n = nats(mixing_coeffs@);
        proof {
            assert(mixing_coeffs@ =~= expansion@.take(n_polys as int));
            assert(coeffs_n =~= nats(expansion@).take(n_polys as int));
        }
        // The mixed claimed value.
        let mut value: u128 = 0;
        let mut p: usize = 0;
        proof {
            assert(coeffs_n.take(0) =~= Seq::<nat>::empty());
        }
        while p < n_polys
            invariant
                p <= n_polys,
                values@.len() == n_polys,
                mixing_coeffs@.len() == n_polys,
                coeffs_n == nats(mixing_coeffs@),
                value as nat == ip7(coeffs_n.take(p as int), nats(values@).take(p as int)),
            decreases n_polys - p,
        {
            let term = mul_l7(mixing_coeffs[p], values[p]);
            let ghost prev = value;
            value = value ^ term;
            proof {
                lemma_xor_l7(prev, term);
                assert(coeffs_n.take(p as int + 1).drop_last() =~= coeffs_n.take(p as int));
                assert(nats(values@).take(p as int + 1).drop_last() =~= nats(values@).take(
                    p as int,
                ));
                assert(coeffs_n.take(p as int + 1).last() == coeffs_n[p as int]);
                assert(nats(values@).take(p as int + 1).last() == nats(values@)[p as int]);
            }
            p = p + 1;
        }
        proof {
            assert(coeffs_n.take(n_polys as int) =~= coeffs_n);
            assert(nats(values@).take(n_polys as int) =~= nats(values@));
        }
        if query.len() != self.n_vars() {
            return Err(Error::IncorrectQuerySize { expected: self.n_vars() });
        }
        match self.check_proof_shape(proof) {
            Ok(()) => {},
            Err(e) => {
                return Err(e);
            },
        };
        challenger.observe_scalars(&proof.mixed_t_prime.evals);
        let ghost s2 = challenger.st();
        // Check the evaluation of t' against the mixed claim.
        let log_n_cols = self.code.dim_bits();
        let mut q_low: Vec<u128> = Vec::new();
        let mut t2: usize = 0;
        while t2 < log_n_cols
            invariant
                t2 <= log_n_cols,
                log_n_cols <= query@.len(),
                q_low@.len() == t2,
                forall|s: int| 0 <= s < t2 ==> q_low@[s] == query@[s],
            decreases log_n_cols - t2,
        {
            q_low.push(query[t2]);
            t2 = t2 + 1;
        }
        proof {
            assert(nats(q_low@) =~= nats(query@).take(log_n_cols as int));
        }
        let computed_value = match proof.mixed_t_prime.evaluate(&q_low) {
            Ok(v) => v,
            Err(_) => {
                proof {
                    assert(false);
                }
                return Err(Error::ParameterError);
            },
        };
        if computed_value != value {
            return Err(Error::Verification(VerificationError::IncorrectEvaluation));
        }
        // Re-encode t' and check the opened columns.
        let u_prime = self.encode_ext(&proof.mixed_t_prime.evals);
        let mut q_high: Vec<u128> = Vec::new();
        let mut t3: usize = log_n_cols;
        while t3 < query.len()
            invariant
                log_n_cols <= t3 <= query@.len(),
                q_high@.len() == t3 - log_n_cols,
                forall|s: int| 0 <= s < t3 - log_n_cols ==> q_high@[s] == query@[log_n_cols + s],
            decreases query@.len() - t3,
        {
            q_high.push(query[t3]);
            t3 = t3 + 1;
        }
        proof {
            assert(nats(q_high@) =~= nats(query@).skip(log_n_cols as int));
        }
        let code_len_bits = log_n_cols + self.code.log_inv_rate;
        let n_rows: usize = pow2_usize(self.log_rows);
        proof {
            lemma_pcs_sizes(self);
        }
        let mut k: usize = 0;
        while k < self.n_test_queries
            invariant
                k <= self.n_test_queries,
                self.wf(),
                self.shape_ok(proof),
                proof.mixed_t_prime.wf(),
                proof.mixed_t_prime.n_vars == self.code.log_dim,
                code_len_bits == self.code.log_dim + self.code.log_inv_rate,
                n_rows as nat == self.spec_n_rows(),
                1 <= n_rows <= 0x100000,
                q_high@.len() == self.log_rows,
                nats(q_high@) == nats(query@).skip(self.code.log_dim as int),
                values@.len() == proof.n_polys,
                1 <= proof.n_polys <= 0x10000,
                query@.len() == self.spec_n_vars(),
                eval_ml(
                    nats(proof.mixed_t_prime.evals@),
                    nats(query@).take(self.code.log_dim as int),
                ) == ip7(coeffs_n, nats(values@)),
                coeffs_n == nats(mixing_coeffs@),
                coeffs_n == tensor_spec(
                    ch_samples_vals(old(challenger).st(), clog2(proof.n_polys as nat)),
                ).take(proof.n_polys as int),
                s2 == observe_scalars_st(
                    ch_samples_st(old(challenger).st(), clog2(proof.n_polys as nat)),
                    nats(proof.mixed_t_prime.evals@),
                ),
                mixing_coeffs@.len() == proof.n_polys,
                u_prime@.len() == self.code.spec_len(),
                forall|j: int|
                    0 <= j < self.code.spec_len() ==> (#[trigger] u_prime@[j]) as nat == ip7m(
                        self.code.gen_mat()[j],
                        nats(proof.mixed_t_prime.evals@),
                    ),
                self.st_matches(challenger, s2, k as nat),
                forall|kk: int|
                    0 <= kk < k ==> {
                        let idx = idx_of(s2, kk as nat, code_len_bits as nat);
                        &&& walk_spec(
                            groestl_of(
                                concat_seq(col_digests((#[trigger] proof.vcs_proofs@[kk]).0@)),
                            ),
                            digs(proof.vcs_proofs@[kk].1@),
                            idx,
                        ) == commitment@
                        &&& ip7(coeffs_n, col_evals(proof.vcs_proofs@[kk].0@, nats(q_high@)))
                            == ip7m(
                            self.code.gen_mat()[idx as int],
                            nats(proof.mixed_t_prime.evals@),
                        )
                    },
            decreases self.n_test_queries - k,
        {
            let index = challenger.sample_bits(code_len_bits);
            proof {
                lemma_query_st_snoc(s2, k as nat);
            }
            let cols = &proof.vcs_proofs[k].0;
            let path = &proof.vcs_proofs[k].1;
            // Rebuild the per-polynomial digests of the opened columns.
            let mut leaf_digests: Vec<Vec<u8>> = Vec::new();
            let mut p2: usize = 0;
            while p2 < cols.len()
                invariant
                    p2 <= cols@.len(),
                    leaf_digests@.len() == p2,
                    forall|q: int|
                        0 <= q < p2 ==> (#[trigger] leaf_digests@[q])@ == groestl_of(cols@[q]@),
                decreases cols@.len() - p2,
            {
                let d = crate::hashing::groestl256(&cols[p2]);
                leaf_digests.push(d);
                p2 = p2 + 1;
            }
            proof {
                assert(digs(leaf_digests@) =~= col_digests(cols@));
            }
            if !verify_batch_opening(commitment, index, path, &leaf_digests) {
                proof {
                    let bits = (self.code.log_dim + self.code.log_inv_rate) as nat;
                    assert(index as nat == idx_of(s2, k as nat, bits));
                    assert(walk_spec(
                        groestl_of(concat_seq(col_digests(proof.vcs_proofs@[k as int].0@))),
                        digs(proof.vcs_proofs@[k as int].1@),
                        idx_of(s2, k as nat, bits),
                    ) != commitment@);
                    assert(!self.opening_ok(commitment@, proof, s2, k as int));
                    assert forall|t: int| 0 <= t < k implies #[trigger] self.opening_ok(
                        commitment@,
                        proof,
                        s2,
                        t,
                    ) && self.column_consistent(
                        proof,
                        s2,
                        nats(query@).skip(self.code.log_dim as int),
                        coeffs_n,
                        t,
                    ) by {
                        assert(proof.vcs_proofs@[t] == proof.vcs_proofs@[t]);
                    }
                }
                return Err(Error::VectorCommit);
            }
            // Evaluate each opened column and mix.
            let mut mixed_eval: u128 = 0;
            let mut p3: usize = 0;
            proof {
                assert(coeffs_n.take(0) =~= Seq::<nat>::empty());
                assert(col_evals(cols@, nats(q_high@)).take(0) =~= Seq::<nat>::empty());
            }
            while p3 < cols.len()
                invariant
                    p3 <= cols@.len(),
                    cols@.len() == proof.n_polys,
                    cols@ == proof.vcs_proofs@[k as int].0@,
                    k < proof.vcs_proofs@.len(),
                    self.wf(),
                    self.shape_ok(proof),
                    mixing_coeffs@.len() == proof.n_polys,
                    coeffs_n == nats(mixing_coeffs@),
                    q_high@.len() == self.log_rows,
                    n_rows as nat == self.spec_n_rows(),
                    mixed_eval as nat == ip7(
                        coeffs_n.take(p3 as int),
                        col_evals(cols@, nats(q_high@)).take(p3 as int),
                    ),
                decreases cols@.len() - p3,
            {
                let col_ml = byte_col_to_ext(&cols[p3], self.log_rows);
                let ev = match col_ml.evaluate(&q_high) {
                    Ok(v) => v,
                    Err(_) => {
                        proof {
                            assert(false);
                        }
                        return Err(Error::ParameterError);
                    },
                };
                let term = mul_l7(mixing_coeffs[p3], ev);
                let ghost prev = mixed_eval;
                mixed_eval = mixed_eval ^ term;
                proof {
                    lemma_xor_l7(prev, term);
                    let ce = col_evals(cols@, nats(q_high@));
                    assert(coeffs_n.take(p3 as int + 1).drop_last() =~= coeffs_n.take(p3 as int));
                    assert(ce.take(p3 as int + 1).drop_last() =~= ce.take(p3 as int));
                    assert(coeffs_n.take(p3 as int + 1).last() == coeffs_n[p3 as int]);
                    assert(ce.take(p3 as int + 1).last() == ce[p3 as int]);
                    assert(nats(col_ml.evals@) =~= bex(cols@[p3 as int]@));
                    assert(ev as nat == ce[p3 as int]);
                }
                p3 = p3 + 1;
            }
            proof {
                let ce = col_evals(cols@, nats(q_high@));
                assert(coeffs_n.take(proof.n_polys as int) =~= coeffs_n);
                assert(ce.take(proof.n_polys as int) =~= ce);
            }
            if mixed_eval != u_prime[index] {
                proof {
                    let bits = (self.code.log_dim + self.code.log_inv_rate) as nat;
                    assert(index as nat == idx_of(s2, k as nat, bits));
                    assert((index as nat) < pow2(bits));
                    assert(ip7(coeffs_n, col_evals(proof.vcs_proofs@[k as int].0@, nats(q_high@)))
                        != ip7m(
                        self.code.gen_mat()[index as int],
                        nats(proof.mixed_t_prime.evals@),
                    ));
                    assert(self.opening_ok(commitment@, proof, s2, k as int));
                    assert(!self.column_consistent(
                        proof,
                        s2,
                        nats(query@).skip(self.code.log_dim as int),
                        coeffs_n,
                        k as int,
                    ));
                    assert forall|t: int| 0 <= t < k implies #[trigger] self.opening_ok(
                        commitment@,
                        proof,
                        s2,
                        t,
                    ) && self.column_consistent(
                        proof,
                        s2,
                        nats(query@).skip(self.code.log_dim as int),
                        coeffs_n,
                        t,
                    ) by {
                        assert(proof.vcs_proofs@[t] == proof.vcs_proofs@[t]);
                    }
                }
                return Err(Error::Verification(VerificationError::IncorrectPartialEvaluation));
            }
            k = k + 1;
        }
        Ok(())
    }
}

/// The per-polynomial digests of a set of opened columns.
pub open spec fn col_digests(cols: Seq<Vec<u8>>) -> Seq<Seq<u8>> {
    Seq::new(cols.len(), |p: int| groestl_of(cols[p]@))
}

/// The evaluations of the opened columns, each read as a multilinear in the
/// row variables, at the high part of the query.
pub open spec fn col_evals(cols: Seq<Vec<u8>>, qh: Seq<nat>) -> Seq<nat> {
    Seq::new(cols.len(), |p: int| eval_ml(bex(cols[p]@), qh))
}

/// Inner product of a byte generator row with an extension-field message.
pub open spec fn ip7m(row: Seq<u8>, msg: Seq<nat>) -> nat
    decreases row.len(),
{
    if row.len() == 0 {
        0
    } else {
        t_add(7, ip7m(row.drop_last(), msg.drop_last()), t_mul(7, row.last() as nat, msg.last()))
    }
}

/// An opened byte column as a multilinear over the extension field.
pub fn byte_col_to_ext(col: &Vec<u8>, n_vars: usize) -> (r: MultilinearExtension)
    requires
        col@.len() == pow2(n_vars as nat),
    ensures
        r.wf(),
        r.n_vars == n_vars,
        nats(r.evals@) == bex(col@),
{
    let mut out: Vec<u128> = Vec::new();
    let mut i: usize = 0;
    while i < col.len()
        invariant
            i <= col@.len(),
            out@.len() == i,
            forall|j: int| 0 <= j < i ==> out@[j] == col@[j] as u128,
        decreases col@.len() - i,
    {
        out.push(col[i] as u128);
        i = i + 1;
    }
    proof {
        assert(nats(out@) =~= bex(col@));
    }
    MultilinearExtension { n_vars, evals: out }
}

/// Entry `i` of the mixed polynomial over mathematical tables.
pub open spec fn mix_entry_n(ts: Seq<Seq<nat>>, cs: Seq<nat>, i: int) -> nat
    decreases ts.len(),
{
    if ts.len() == 0 {
        0
    } else {
        t_add(7, mix_entry_n(ts.drop_last(), cs.drop_last(), i), t_mul(7, cs.last(), ts.last()[i]))
    }
}

/// The tables of a batch, as mathematical values.
pub open spec fn tables_n(ts: Seq<Seq<u128>>) -> Seq<Seq<nat>> {
    Seq::new(ts.len(), |p: int| nats(ts[p]))
}

/// Machine bounds that the well-formedness of the scheme implies.
pub proof fn lemma_pcs_sizes(pcs: &TensorPCS)
    requires
        pcs.wf(),
    ensures
        pcs.code.spec_dim() <= pcs.code.spec_len(),
        pcs.code.spec_len() <= 256,
        pcs.spec_n_rows() <= 0x100000,
{
    vstd::arithmetic::power2::lemma2_to64();
    if pcs.code.log_dim < pcs.code.log_dim + pcs.code.log_inv_rate {
        vstd::arithmetic::power2::lemma_pow2_strictly_increases(
            pcs.code.log_dim as nat,
            (pcs.code.log_dim + pcs.code.log_inv_rate) as nat,
        );
    }
    assert(pow2((pcs.code.log_dim + pcs.code.log_inv_rate) as nat) <= pow2(8)) by {
        if pcs.code.log_dim + pcs.code.log_inv_rate < 8 {
            vstd::arithmetic::power2::lemma_pow2_strictly_increases(
                (pcs.code.log_dim + pcs.code.log_inv_rate) as nat,
                8,
            );
        }
    }
    assert(pow2(pcs.log_rows as nat) <= pow2(20)) by {
        if pcs.log_rows < 20 {
            vstd::arithmetic::power2::lemma_pow2_strictly_increases(pcs.log_rows as nat, 20);
        }
    }
}

/// The evaluation tables of a batch of polynomials.
pub open spec fn poly_views(polys: Seq<ByteMultilinear>) -> Seq<Seq<u8>> {
    Seq::new(polys.len(), |p: int| polys[p].evals@)
}

/// A byte table read as mathematical field elements of the extension field.
pub open spec fn bex(s: Seq<u8>) -> Seq<nat> {
    Seq::new(s.len(), |i: int| s[i] as nat)
}

/// The views of a vector of extension multilinears.
pub open spec fn mls(s: Seq<MultilinearExtension>) -> Seq<Seq<u128>> {
    Seq::new(s.len(), |p: int| s[p].evals@)
}

/// Inner product over the extension field.
pub open spec fn ip7(a: Seq<nat>, b: Seq<nat>) -> nat
    decreases a.len(),
{
    if a.len() == 0 {
        0
    } else {
        t_add(7, ip7(a.drop_last(), b.drop_last()), t_mul(7, a.last(), b.last()))
    }
}

/// The ceiling of the base-2 logarithm.
pub open spec fn clog2(n: nat) -> nat
    decreases n,
{
    if n <= 1 {
        0
    } else {
        (1 + clog2((n + 1) / 2)) as nat
    }
}

/// clog2 brackets its argument between adjacent powers of two.
pub proof fn lemma_clog2_bracket(n: nat)
    ensures
        n <= pow2(clog2(n)),
        clog2(n) > 0 ==> pow2((clog2(n) - 1) as nat) < n,
    decreases n,
{
    vstd::arithmetic::power2::lemma2_to64();
    if n <= 1 {
    } else {
        let m = (n + 1) / 2;
        lemma_clog2_bracket(m);
        vstd::arithmetic::power2::lemma_pow2_unfold(clog2(n));
        if clog2(m) > 0 {
            vstd::arithmetic::power2::lemma_pow2_unfold(clog2(m));
        }
    }
}

/// The executable ceiling logarithm agrees with the specification one.
pub proof fn lemma_log2_ceil_is_clog2(k: nat, n: nat)
    requires
        n <= pow2(k),
        k > 0 ==> pow2((k - 1) as nat) < n,
    ensures
        k == clog2(n),
{
    lemma_clog2_bracket(n);
    let c = clog2(n);
    if k < c {
        assert(pow2(k) <= pow2((c - 1) as nat)) by {
            if k < c - 1 {
                vstd::arithmetic::power2::lemma_pow2_strictly_increases(k, (c - 1) as nat);
            }
        }
    }
    if c < k {
        assert(pow2(c) <= pow2((k - 1) as nat)) by {
            if c < k - 1 {
                vstd::arithmetic::power2::lemma_pow2_strictly_increases(c, (k - 1) as nat);
            }
        }
    }
}

/// The challenger state after sampling `q` column indexes.
pub open spec fn query_st(s: ChState, q: nat) -> ChState
    decreases q,
{
    if q == 0 {
        s
    } else {
        query_st(ch_bytes_st(s, 4), (q - 1) as nat)
    }
}

/// The `q`-th sampled column index, below 2^bits.
pub open spec fn idx_of(s: ChState, q: nat, bits: nat) -> nat {
    le_val(ch_bytes_val(query_st(s, q), 4)) % pow2(bits)
}

/// Index sampling extends one query at a time.
pub proof fn lemma_query_st_snoc(s: ChState, q: nat)
    ensures
        query_st(s, q + 1) == ch_bytes_st(query_st(s, q), 4),
    decreases q,
{
    if q == 0 {
        assert(query_st(ch_bytes_st(s, 4), 0) == ch_bytes_st(s, 4));
        assert(query_st(s, 0) == s);
    } else {
        lemma_query_st_snoc(ch_bytes_st(s, 4), (q - 1) as nat);
        assert(query_st(s, q + 1) == query_st(ch_bytes_st(s, 4), q));
        assert(query_st(s, q) == query_st(ch_bytes_st(s, 4), (q - 1) as nat));
    }
}

/// Creates a new multilinear from a batch of multilinears and mixing
/// coefficients: entry by entry, the weighted sum of the batch.
pub fn mix_t_primes(
    n_vars: usize,
    t_primes: &Vec<MultilinearExtension>,
    mixing_coeffs: &Vec<u128>,
) -> (r: Result<MultilinearExtension, Error>)
    requires
        t_primes@.len() == mixing_coeffs@.len(),
        n_vars < 31,
        forall|p: int| 0 <= p < t_primes@.len() ==> (#[trigger] t_primes@[p]).wf(),
    ensures
        match r {
            Ok(m) => {
                &&& forall|p: int|
                    0 <= p < t_primes@.len() ==> (#[trigger] t_primes@[p]).n_vars == n_vars
                &&& m.wf()
                &&& m.n_vars == n_vars
                &&& m.evals@.len() == pow2(n_vars as nat)
                &&& forall|i: int|
                    0 <= i < m.evals@.len() ==> (#[trigger] m.evals@[i]) as nat == mix_entry_n(
                        tables_n(mls(t_primes@)),
                        nats(mixing_coeffs@),
                        i,
                    )
            },
            Err(e) => e == (Error::IncorrectPolynomialSize { expected: n_vars as usize }) && (
            exists|p: int|
                0 <= p < t_primes@.len() && (#[trigger] t_primes@[p]).n_vars != n_vars),
        },
{
    let mut p: usize = 0;
    while p < t_primes.len()
        invariant
            p <= t_primes@.len(),
            forall|q: int| 0 <= q < p ==> (#[trigger] t_primes@[q]).n_vars == n_vars,
        decreases t_primes@.len() - p,
    {
        if t_primes[p].n_vars() != n_vars {
            return Err(Error::IncorrectPolynomialSize { expected: n_vars });
        }
        p = p + 1;
    }
    let width: usize = pow2_usize(n_vars);
    let mut out: Vec<u128> = Vec::new();
    let mut i: usize = 0;
    while i < width
        invariant
            i <= width,
            width as nat == pow2(n_vars as nat),
            t_primes@.len() == mixing_coeffs@.len(),
            forall|q: int|
                0 <= q < t_primes@.len() ==> (#[trigger] t_primes@[q]).wf()
                    && t_primes@[q].n_vars == n_vars,
            out@.len() == i,
            forall|t: int|
                0 <= t < i ==> (#[trigger] out@[t]) as nat == mix_entry_n(
                    tables_n(mls(t_primes@)),
                    nats(mixing_coeffs@),
                    t,
                ),
        decreases width - i,
    {
        let mut acc: u128 = 0;
        let mut q: usize = 0;
        proof {
            assert(tables_n(mls(t_primes@)).take(0) =~= Seq::<Seq<nat>>::empty());
        }
        while q < t_primes.len()
            invariant
                q <= t_primes@.len(),
                i < width,
                width as nat == pow2(n_vars as nat),
                t_primes@.len() == mixing_coeffs@.len(),
                forall|s: int|
                    0 <= s < t_primes@.len() ==> (#[trigger] t_primes@[s]).wf()
                        && t_primes@[s].n_vars == n_vars,
                acc as nat == mix_entry_n(
                    tables_n(mls(t_primes@)).take(q as int),
                    nats(mixing_coeffs@).take(q as int),
                    i as int,
                ),
            decreases t_primes@.len() - q,
        {
            let term = mul_l7(mixing_coeffs[q], t_primes[q].evals[i]);
            let ghost preacc = acc;
            acc = acc ^ term;
            proof {
                lemma_xor_l7(preacc, term);
                let ts1 = tables_n(mls(t_primes@)).take(q as int + 1);
                let cs1 = nats(mixing_coeffs@).take(q as int + 1);
                assert(ts1.drop_last() =~= tables_n(mls(t_primes@)).take(q as int));
                assert(cs1.drop_last() =~= nats(mixing_coeffs@).take(q as int));
                assert(ts1.last() == tables_n(mls(t_primes@))[q as int]);
                assert(cs1.last() == nats(mixing_coeffs@)[q as int]);
                assert(tables_n(mls(t_primes@))[q as int] == nats(t_primes@[q as int].evals@));
                assert(nats(t_primes@[q as int].evals@)[i as int] == t_primes@[q as int].evals@[i as int] as nat);
                assert(mls(t_primes@)[q as int] == t_primes@[q as int].evals@);
            }
            q = q + 1;
        }
        proof {
            assert(tables_n(mls(t_primes@)).take(t_primes@.len() as int) =~= tables_n(
                mls(t_primes@),
            ));
            assert(nats(mixing_coeffs@).take(mixing_coeffs@.len() as int) =~= nats(
                mixing_coeffs@,
            ));
        }
        out.push(acc);
        i = i + 1;
    }
    Ok(MultilinearExtension { n_vars, evals: out })
}

} // verus!
