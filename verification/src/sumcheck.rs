//! Verifier of the batched sum-check protocol.
//!
//! Claims are batched by descending number of variables; the verifier
//! samples one mixing coefficient per claim just in time, folds the claimed
//! sums with powers of the coefficient, reads each compressed round
//! polynomial from the transcript, and reduces the sum through the sampled
//! challenge.  After the last round the claimed multilinear evaluations are
//! read and the batched composite evaluation is checked against the folded
//! sum.

use vstd::prelude::*;
use crate::tower::{t_add, t_mul, mul_l7, lemma_xor_l7};
use crate::multilinear::nats;
use crate::multivariate::CompositionPoly;
use crate::challenger::{
    HashChallenger, ChState, ch_bytes_val, ch_bytes_st, ch_observe, le_val, scalar_from_le_bytes,
};

verus! {

/// Errors of the sum-check verifier.
#[derive(Debug, Clone, Copy, PartialEq, Eq, Structural)]
pub enum SumcheckError {
    /// The claims were not sorted in descending number of variables.
    ClaimsOutOfOrder,
    /// The transcript holds fewer bytes than the verifier must read.
    NotEnoughBytes,
    /// The claimed multilinear evaluations do not match the folded sum.
    IncorrectBatchEvaluation,
    /// A composition was applied to the wrong number of values.
    CompositionArity,
}

/// The order in which the sum-check rounds bind the variables.
#[derive(Debug, Clone, Copy, PartialEq, Eq, Structural)]
pub enum EvaluationOrder {
    LowToHigh,
    HighToLow,
}

/// Coefficients of a univariate round polynomial, low degree first.
pub struct RoundCoeffs(pub Vec<u128>);

/// A round polynomial without its highest coefficient, which the verifier
/// recovers from the claimed sum.
pub struct RoundProof(pub RoundCoeffs);

/// Sum of a sequence of field values.
pub open spec fn sum7(s: Seq<nat>) -> nat
    decreases s.len(),
{
    if s.len() == 0 {
        0
    } else {
        t_add(7, sum7(s.drop_last()), s.last())
    }
}

/// The recovered highest coefficient: the claimed sum plus the constant
/// term plus the sum of all transmitted coefficients, so that the round
/// identity P(0) + P(1) = sum holds.
pub open spec fn recover_last(coeffs: Seq<nat>, sum: nat) -> nat {
    let first = if coeffs.len() > 0 {
        coeffs.first()
    } else {
        0
    };
    t_add(7, t_add(7, sum, first), sum7(coeffs))
}

/// Evaluation of a univariate polynomial, coefficients low degree first.
pub open spec fn poly_eval(coeffs: Seq<nat>, x: nat) -> nat
    decreases coeffs.len(),
{
    if coeffs.len() == 0 {
        0
    } else {
        t_add(7, coeffs.first(), t_mul(7, x, poly_eval(coeffs.drop_first(), x)))
    }
}

/// The batch weight of a list of values under one mixing coefficient: the
/// j-th value is weighted by the (j+1)-th power of the coefficient.
pub open spec fn bwv(beta: nat, vals: Seq<nat>) -> nat
    decreases vals.len(),
{
    if vals.len() == 0 {
        0
    } else {
        t_mul(7, beta, t_add(7, vals.first(), bwv(beta, vals.drop_first())))
    }
}

impl RoundProof {
    /// Recover the full coefficient list from the claimed sum.
    pub fn recover(self, sum: u128) -> (r: RoundCoeffs)
        ensures
            r.0@.len() == self.0.0@.len() + 1,
            r.0@.take(self.0.0@.len() as int) == self.0.0@,
            r.0@.last() as nat == recover_last(nats(self.0.0@), sum as nat),
    {
        let RoundProof(RoundCoeffs(coeffs)) = self;
        let ghost orig = coeffs@;
        let first: u128 = if coeffs.len() > 0 {
            coeffs[0]
        } else {
            0
        };
        let mut total: u128 = 0;
        let mut i: usize = 0;
        proof {
            assert(nats(orig).take(0) =~= Seq::<nat>::empty());
        }
        while i < coeffs.len()
            invariant
                i <= coeffs@.len(),
                coeffs@ == orig,
                total as nat == sum7(nats(orig).take(i as int)),
            decreases coeffs@.len() - i,
        {
            let ghost pre = total;
            total = total ^ coeffs[i];
            i = i + 1;
            proof {
                lemma_xor_l7(pre, coeffs@[i - 1]);
                assert(nats(orig).take(i as int).drop_last() =~= nats(orig).take(i as int - 1));
                assert(nats(orig).take(i as int).last() == orig[i as int - 1] as nat);
            }
        }
        proof {
            assert(nats(orig).take(orig.len() as int) =~= nats(orig));
        }
        let last: u128 = (sum ^ first) ^ total;
        proof {
            lemma_xor_l7(sum, first);
            lemma_xor_l7(sum ^ first, total);
            if orig.len() > 0 {
                assert(nats(orig).first() == orig[0] as nat);
            }
        }
        let mut out = coeffs;
        out.push(last);
        proof {
            assert(out@.take(orig.len() as int) =~= orig);
        }
        RoundCoeffs(out)
    }
}

/// Evaluate a univariate polynomial given by its coefficients, low degree
/// first, at a point.
pub fn evaluate_univariate(coeffs: &Vec<u128>, x: u128) -> (r: u128)
    ensures
        r as nat == poly_eval(nats(coeffs@), x as nat),
{
    let mut acc: u128 = 0;
    let mut i: usize = coeffs.len();
    proof {
        assert(nats(coeffs@).skip(coeffs@.len() as int) =~= Seq::<nat>::empty());
    }
    while i > 0
        invariant
            i <= coeffs@.len(),
            acc as nat == poly_eval(nats(coeffs@).skip(i as int), x as nat),
        decreases i,
    {
        i = i - 1;
        let m = mul_l7(x, acc);
        let ghost pre = acc;
        acc = coeffs[i] ^ m;
        proof {
            lemma_xor_l7(coeffs@[i as int], m);
            assert(nats(coeffs@).skip(i as int).first() == coeffs@[i as int] as nat);
            assert(nats(coeffs@).skip(i as int).drop_first() =~= nats(coeffs@).skip(i as int + 1));
        }
    }
    proof {
        assert(nats(coeffs@).skip(0) =~= nats(coeffs@));
    }
    acc
}

/// Interpolate a compressed round proof against the claimed sum and
/// evaluate the recovered polynomial at the challenge.
pub fn interpolate_round_proof(round_proof: RoundProof, sum: u128, challenge: u128) -> (r: u128)
    ensures
        r as nat == poly_eval(
            nats(round_proof.0.0@).push(recover_last(nats(round_proof.0.0@), sum as nat)),
            challenge as nat,
        ),
{
    let ghost orig = nats(round_proof.0.0@);
    let coeffs = round_proof.recover(sum);
    proof {
        assert(nats(coeffs.0@) =~= orig.push(recover_last(orig, sum as nat)));
    }
    evaluate_univariate(&coeffs.0, challenge)
}

/// Weight a list of values by the powers of one mixing coefficient,
/// starting at the first power.
pub fn batch_weighted_value(coeff: u128, vals: &Vec<u128>) -> (r: u128)
    ensures
        r as nat == bwv(coeff as nat, nats(vals@)),
{
    let mut acc: u128 = 0;
    let mut i: usize = vals.len();
    proof {
        assert(nats(vals@).skip(vals@.len() as int) =~= Seq::<nat>::empty());
    }
    while i > 0
        invariant
            i <= vals@.len(),
            acc as nat == bwv(coeff as nat, nats(vals@).skip(i as int)),
        decreases i,
    {
        i = i - 1;
        let t = vals[i] ^ acc;
        proof {
            lemma_xor_l7(vals@[i as int], acc);
            assert(nats(vals@).skip(i as int).first() == vals@[i as int] as nat);
            assert(nats(vals@).skip(i as int).drop_first() =~= nats(vals@).skip(i as int + 1));
        }
        acc = mul_l7(coeff, t);
    }
    proof {
        assert(nats(vals@).skip(0) =~= nats(vals@));
    }
    acc
}

/// One composite claim: a composition of the claim's multilinears together
/// with its claimed sum over the hypercube.
pub struct CompositeSumClaim<C> {
    pub composition: C,
    pub sum: u128,
}

/// A sum-check claim over a group of multilinears.
pub struct SumcheckClaim<C> {
    pub n_vars: usize,
    pub n_multilinears: usize,
    pub composite_sums: Vec<CompositeSumClaim<C>>,
}

impl<C: CompositionPoly + Copy> SumcheckClaim<C> {
    /// Every composition ranges over exactly the claim's multilinears.
    pub open spec fn wf(&self) -> bool {
        forall|t: int|
            0 <= t < self.composite_sums@.len()
                ==> (#[trigger] self.composite_sums@[t]).composition.spec_n_vars()
                == self.n_multilinears
    }

    /// Build a claim, validating the composition arities.
    pub fn new(n_vars: usize, n_multilinears: usize, composite_sums: Vec<CompositeSumClaim<C>>)
        -> (r: Result<SumcheckClaim<C>, SumcheckError>)
        ensures
            match r {
                Ok(c) => c.wf() && c.n_vars == n_vars && c.n_multilinears == n_multilinears
                    && c.composite_sums@ == composite_sums@,
                Err(e) => e == SumcheckError::CompositionArity && (exists|t: int|
                    0 <= t < composite_sums@.len()
                        && (#[trigger] composite_sums@[t]).composition.spec_n_vars()
                        != n_multilinears),
            },
    {
        let mut t: usize = 0;
        while t < composite_sums.len()
            invariant
                t <= composite_sums@.len(),
                forall|s: int|
                    0 <= s < t ==> (#[trigger] composite_sums@[s]).composition.spec_n_vars()
                        == n_multilinears,
            decreases composite_sums@.len() - t,
        {
            if composite_sums[t].composition.n_vars() != n_multilinears {
                return Err(SumcheckError::CompositionArity);
            }
            t = t + 1;
        }
        Ok(SumcheckClaim { n_vars, n_multilinears, composite_sums })
    }

    pub fn n_vars(&self) -> (r: usize)
        ensures
            r == self.n_vars,
    {
        self.n_vars
    }

    pub fn n_multilinears(&self) -> (r: usize)
        ensures
            r == self.n_multilinears,
    {
        self.n_multilinears
    }

    /// The largest individual degree over the claim's compositions.
    pub fn max_individual_degree(&self) -> (r: usize)
        ensures
            r as nat == max_degree_of(self.composite_sums@),
    {
        let mut m: usize = 0;
        let mut t: usize = 0;
        proof {
            assert(self.composite_sums@.take(0) =~= Seq::<CompositeSumClaim<C>>::empty());
        }
        while t < self.composite_sums.len()
            invariant
                t <= self.composite_sums@.len(),
                m as nat == max_degree_of(self.composite_sums@.take(t as int)),
            decreases self.composite_sums@.len() - t,
        {
            let d = self.composite_sums[t].composition.degree();
            proof {
                assert(self.composite_sums@.take(t as int + 1).drop_last()
                    =~= self.composite_sums@.take(t as int));
                assert(self.composite_sums@.take(t as int + 1).last()
                    == self.composite_sums@[t as int]);
            }
            if d > m {
                m = d;
            }
            t = t + 1;
        }
        proof {
            assert(self.composite_sums@.take(self.composite_sums@.len() as int)
                =~= self.composite_sums@);
        }
        m
    }

    /// The claimed sums of the claim's composites.
    pub fn composite_sums(&self) -> (r: &Vec<CompositeSumClaim<C>>)
        ensures
            r@ == self.composite_sums@,
    {
        &self.composite_sums
    }
}

/// The largest individual composition degree of a list of composites.
pub open spec fn max_degree_of<C: CompositionPoly>(s: Seq<CompositeSumClaim<C>>) -> nat
    decreases s.len(),
{
    if s.len() == 0 {
        0
    } else {
        let rest = max_degree_of(s.drop_last());
        if s.last().composition.spec_degree() > rest {
            s.last().composition.spec_degree()
        } else {
            rest
        }
    }
}

/// The claimed sums of a list of composites, as field values.
pub open spec fn sums_of<C>(s: Seq<CompositeSumClaim<C>>) -> Seq<nat> {
    Seq::new(s.len(), |t: int| s[t].sum as nat)
}

/// The composite evaluations of one claim on a tuple of multilinear values.
pub open spec fn composite_evals_of<C: CompositionPoly>(
    s: Seq<CompositeSumClaim<C>>,
    evals: Seq<nat>,
) -> Seq<nat> {
    Seq::new(s.len(), |t: int| s[t].composition.spec_evaluate(evals))
}

/// The expected batched evaluation over all claims: each claim's composite
/// evaluations weighted by the powers of its mixing coefficient, summed.
pub open spec fn expected_total<C: CompositionPoly>(
    claims: Seq<SumcheckClaim<C>>,
    cs: Seq<nat>,
    evals: Seq<Seq<nat>>,
) -> nat
    decreases claims.len(),
{
    if claims.len() == 0 {
        0
    } else {
        t_add(
            7,
            expected_total(claims.drop_last(), cs.drop_last(), evals.drop_last()),
            bwv(cs.last(), composite_evals_of(claims.last().composite_sums@, evals.last())),
        )
    }
}

/// Claims sorted in descending number of variables.
pub open spec fn sorted_desc<C>(claims: Seq<SumcheckClaim<C>>) -> bool {
    forall|i: int, j: int|
        0 <= i < j < claims.len() ==> (#[trigger] claims[i]).n_vars >= (#[trigger] claims[j]).n_vars
}

/// Adjacent descending order gives pairwise descending order.
proof fn lemma_adjacent_sorted<C>(claims: Seq<SumcheckClaim<C>>, i: int, j: int)
    requires
        forall|t: int|
            0 <= t < claims.len() - 1 ==> (#[trigger] claims[t]).n_vars >= claims[t + 1].n_vars,
        0 <= i <= j < claims.len(),
    ensures
        claims[i].n_vars >= claims[j].n_vars,
    decreases j - i,
{
    if i < j {
        lemma_adjacent_sorted(claims, i + 1, j);
        assert(claims[i].n_vars >= claims[i + 1].n_vars);
    }
}

/// The running state of the spec-level mirror of the batched verifier: the
/// challenger state, the read position on the tape, the folded sum, the
/// largest composition degree so far, the number of claims folded in, and
/// the challenges and mixing coefficients sampled so far.
pub struct BvState {
    pub st: ChState,
    pub pos: nat,
    pub sum: nat,
    pub maxd: nat,
    pub active: nat,
    pub chals: Seq<nat>,
    pub coeffs: Seq<nat>,
}

/// The `n` scalars on the tape at `pos`, 16 little-endian bytes each.
pub open spec fn scalars_at(data: Seq<u8>, pos: int, n: nat) -> Seq<nat> {
    Seq::new(n, |i: int| le_val(data.subrange(pos + 16 * i, pos + 16 * i + 16)))
}

/// A sequence reversed.
pub open spec fn rev_seq(s: Seq<nat>) -> Seq<nat> {
    Seq::new(s.len(), |i: int| s[s.len() - 1 - i])
}

/// Fold in every claim at the front of the remainder whose round count is
/// `v`: sample its mixing coefficient, add its weighted claimed sums to the
/// folded sum, and raise the degree bound.
pub open spec fn bv_activate<C: CompositionPoly>(
    claims: Seq<SumcheckClaim<C>>,
    v: nat,
    s: BvState,
) -> BvState
    decreases claims.len() - s.active,
    when s.active <= claims.len()
{
    if s.active < claims.len() && claims[s.active as int].n_vars == v {
        let c = le_val(ch_bytes_val(s.st, 16));
        let claim = claims[s.active as int];
        let d = max_degree_of(claim.composite_sums@);
        bv_activate(
            claims,
            v,
            BvState {
                st: ch_bytes_st(s.st, 16),
                pos: s.pos,
                sum: t_add(7, s.sum, bwv(c, sums_of(claim.composite_sums@))),
                maxd: if d > s.maxd {
                    d
                } else {
                    s.maxd
                },
                active: (s.active + 1) as nat,
                chals: s.chals,
                coeffs: s.coeffs.push(c),
            },
        )
    } else {
        s
    }
}

/// One round of the mirror at `v` variables left: activate the claims of
/// this size, read the compressed round polynomial, sample the challenge,
/// and reduce the folded sum through the recovered polynomial.  `None` when
/// the read runs past the tape.
pub open spec fn bv_round<C: CompositionPoly>(
    claims: Seq<SumcheckClaim<C>>,
    data: Seq<u8>,
    v: nat,
    s0: BvState,
) -> Option<BvState> {
    let s = bv_activate(claims, v, s0);
    if s.pos + 16 * s.maxd > data.len() {
        None
    } else {
        let cs = scalars_at(data, s.pos as int, s.maxd);
        let st1 = ch_observe(s.st, data.subrange(s.pos as int, s.pos + 16 * s.maxd as int));
        let chal = le_val(ch_bytes_val(st1, 16));
        Some(
            BvState {
                st: ch_bytes_st(st1, 16),
                pos: (s.pos + 16 * s.maxd) as nat,
                sum: poly_eval(cs.push(recover_last(cs, s.sum)), chal),
                maxd: s.maxd,
                active: s.active,
                chals: s.chals.push(chal),
                coeffs: s.coeffs,
            },
        )
    }
}

/// The remaining rounds of the mirror, counted down by variables left.
pub open spec fn bv_rounds<C: CompositionPoly>(
    claims: Seq<SumcheckClaim<C>>,
    data: Seq<u8>,
    rounds_left: nat,
    s: BvState,
) -> Option<BvState>
    decreases rounds_left,
{
    if rounds_left == 0 {
        Some(s)
    } else {
        match bv_round(claims, data, rounds_left, s) {
            Some(s1) => bv_rounds(claims, data, (rounds_left - 1) as nat, s1),
            None => None,
        }
    }
}

/// Read each claim's multilinear evaluations from the tape in claim order,
/// absorbing the bytes read.  `None` when a read runs past the tape.
pub open spec fn bv_read_evals<C: CompositionPoly>(
    claims: Seq<SumcheckClaim<C>>,
    data: Seq<u8>,
    i: nat,
    st: ChState,
    pos: int,
    acc: Seq<Seq<nat>>,
) -> Option<Seq<Seq<nat>>>
    decreases claims.len() - i,
    when i <= claims.len()
{
    if i == claims.len() {
        Some(acc)
    } else {
        let n = claims[i as int].n_multilinears as nat;
        if pos + 16 * n > data.len() {
            None
        } else {
            bv_read_evals(
                claims,
                data,
                (i + 1) as nat,
                ch_observe(st, data.subrange(pos, pos + 16 * n)),
                pos + 16 * n,
                acc.push(scalars_at(data, pos, n)),
            )
        }
    }
}

/// What the batched verifier returns on sorted claims, determined by the
/// tape and the starting challenger state alone: the rounds run in
/// lockstep with the mirror, the zero-variable claims are folded in, the
/// claimed evaluations are read, and the batched composite evaluation is
/// checked against the folded sum.  Under `HighToLow` the challenges come
/// out reversed.
pub open spec fn bv_spec<C: CompositionPoly>(
    evaluation_order: EvaluationOrder,
    claims: Seq<SumcheckClaim<C>>,
    data: Seq<u8>,
    pos0: nat,
    st0: ChState,
) -> Result<(Seq<nat>, Seq<Seq<nat>>), SumcheckError> {
    let n_rounds: nat = if claims.len() == 0 {
        0
    } else {
        claims[0].n_vars as nat
    };
    let init = (BvState {
        st: st0,
        pos: pos0,
        sum: 0,
        maxd: 0,
        active: 0,
        chals: Seq::<nat>::empty(),
        coeffs: Seq::<nat>::empty(),
    });
    match bv_rounds(claims, data, n_rounds, init) {
        None => Err(SumcheckError::NotEnoughBytes),
        Some(s1) => {
            let s2 = bv_activate(claims, 0, s1);
            match bv_read_evals(claims, data, 0, s2.st, s2.pos as int, Seq::<Seq<nat>>::empty()) {
                None => Err(SumcheckError::NotEnoughBytes),
                Some(evals) => {
                    if s2.sum == expected_total(claims, s2.coeffs, evals) {
                        Ok(
                            (
                                if evaluation_order == EvaluationOrder::HighToLow {
                                    rev_seq(s2.chals)
                                } else {
                                    s2.chals
                                },
                                evals,
                            ),
                        )
                    } else {
                        Err(SumcheckError::IncorrectBatchEvaluation)
                    }
                },
            }
        },
    }
}

/// The result of the batched verifier agrees with the spec-level mirror:
/// the same error, or the mirror's challenges and evaluations.
pub open spec fn bv_matches<C: CompositionPoly>(
    evaluation_order: EvaluationOrder,
    claims: Seq<SumcheckClaim<C>>,
    data: Seq<u8>,
    pos0: nat,
    st0: ChState,
    r: Result<BatchSumcheckOutput, SumcheckError>,
) -> bool {
    match bv_spec(evaluation_order, claims, data, pos0, st0) {
        Ok(out) => match r {
            Ok(got) => nats(got.challenges@) == out.0 && evals_views(got.multilinear_evals@)
                == out.1,
            Err(_) => false,
        },
        Err(e) => r == Err::<BatchSumcheckOutput, SumcheckError>(e),
    }
}

/// The verifier's output: the sampled challenges and the claimed
/// multilinear evaluations read from the transcript, together with the
/// mixing coefficients and the folded sum as ghost witnesses of the check.
pub struct BatchSumcheckOutput {
    pub challenges: Vec<u128>,
    pub multilinear_evals: Vec<Vec<u128>>,
    pub batch_coeffs: Ghost<Seq<nat>>,
    pub final_sum: Ghost<nat>,
}

/// The verifier's view of the transcript: proof bytes to read, and the
/// challenger that both parties keep in lockstep.
pub struct VerifierTranscript {
    pub challenger: HashChallenger,
    pub data: Vec<u8>,
    pub pos: usize,
}

impl VerifierTranscript {
    pub open spec fn wf(&self) -> bool {
        self.pos <= self.data@.len()
    }

    /// Open a transcript over proof bytes with a fresh challenger.
    pub fn new(data: Vec<u8>) -> (r: VerifierTranscript)
        ensures
            r.wf(),
            r.data@ == data@,
            r.pos == 0,
            r.challenger.st() == (ChState {
                inb: Seq::<u8>::empty(),
                outb: Seq::<u8>::empty(),
            }),
    {
        VerifierTranscript { challenger: HashChallenger::new(), data, pos: 0 }
    }

    /// Sample one field challenge.
    pub fn sample(&mut self) -> (r: u128)
        requires
            old(self).wf(),
        ensures
            final(self).wf(),
            r as nat == le_val(ch_bytes_val(old(self).challenger.st(), 16)),
            final(self).challenger.st() == ch_bytes_st(old(self).challenger.st(), 16),
            final(self).data@ == old(self).data@,
            final(self).pos == old(self).pos,
    {
        self.challenger.sample()
    }

    /// Read `n` scalars from the transcript, absorbing the bytes read.
    pub fn read_scalar_slice(&mut self, n: usize) -> (r: Result<Vec<u128>, SumcheckError>)
        requires
            old(self).wf(),
        ensures
            final(self).wf(),
            match r {
                Ok(vals) => {
                    &&& old(self).pos + 16 * n <= old(self).data@.len()
                    &&& vals@.len() == n
                    &&& forall|i: int|
                        0 <= i < n ==> (#[trigger] vals@[i]) as nat == le_val(
                            old(self).data@.subrange(
                                old(self).pos + 16 * i,
                                old(self).pos + 16 * i + 16,
                            ),
                        )
                    &&& final(self).pos == old(self).pos + 16 * n
                    &&& final(self).data@ == old(self).data@
                    &&& final(self).challenger.st() == crate::challenger::ch_observe(
                        old(self).challenger.st(),
                        old(self).data@.subrange(
                            old(self).pos as int,
                            old(self).pos + 16 * n,
                        ),
                    )
                },
                Err(e) => e == SumcheckError::NotEnoughBytes && old(self).pos + 16 * n > old(
                    self,
                ).data@.len() && *final(self) == *old(self),
            },
    {
        if n > (self.data.len() - self.pos) / 16 {
            return Err(SumcheckError::NotEnoughBytes);
        }
        let start = self.pos;
        let dlen = self.data.len();
        let mut allbytes: Vec<u8> = Vec::new();
        let mut vals: Vec<u128> = Vec::new();
        let mut i: usize = 0;
        while i < n
            invariant
                i <= n,
                start + 16 * n <= self.data@.len(),
                dlen == self.data@.len(),
                self == old(self),
                start == old(self).pos,
                allbytes@.len() == 16 * i,
                allbytes@ == self.data@.subrange(start as int, start + 16 * i),
                vals@.len() == i,
                forall|t: int|
                    0 <= t < i ==> (#[trigger] vals@[t]) as nat == le_val(
                        self.data@.subrange(start + 16 * t, start + 16 * t + 16),
                    ),
            decreases n - i,
        {
            let mut chunk: Vec<u8> = Vec::new();
            let mut b: usize = 0;
            while b < 16
                invariant
                    b <= 16,
                    i < n,
                    start + 16 * n <= self.data@.len(),
                    dlen == self.data@.len(),
                    self == old(self),
                    start == old(self).pos,
                    chunk@.len() == b,
                    chunk@ == self.data@.subrange(start + 16 * i, start + 16 * i + b),
                decreases 16 - b,
            {
                chunk.push(self.data[start + 16 * i + b]);
                proof {
                    assert(chunk@ =~= self.data@.subrange(
                        start + 16 * i,
                        start + 16 * i + b + 1,
                    ));
                }
                b = b + 1;
            }
            let v = scalar_from_le_bytes(&chunk);
            vals.push(v);
            let mut chunk2 = chunk;
            allbytes.append(&mut chunk2);
            proof {
                assert(allbytes@ =~= self.data@.subrange(start as int, start + 16 * (i + 1)));
            }
            i = i + 1;
        }
        self.challenger.observe_bytes(&allbytes);
        self.pos = start + 16 * n;
        Ok(vals)
    }
}

/// The prover's transcript writer: it appends scalars to the proof tape and
/// keeps its challenger in lockstep with the verifier's.
pub struct ProverTranscript {
    pub challenger: HashChallenger,
    pub data: Vec<u8>,
}

impl ProverTranscript {
    /// A fresh prover transcript.
    pub fn new() -> (r: ProverTranscript)
        ensures
            r.data@ == Seq::<u8>::empty(),
            r.challenger.st() == (ChState {
                inb: Seq::<u8>::empty(),
                outb: Seq::<u8>::empty(),
            }),
    {
        let r = ProverTranscript { challenger: HashChallenger::new(), data: Vec::new() };
        proof {
            assert(r.data@ =~= Seq::<u8>::empty());
        }
        r
    }

    /// Sample one field challenge, as the verifier will.
    pub fn sample(&mut self) -> (r: u128)
        ensures
            r as nat == le_val(ch_bytes_val(old(self).challenger.st(), 16)),
            final(self).challenger.st() == ch_bytes_st(old(self).challenger.st(), 16),
            final(self).data@ == old(self).data@,
    {
        self.challenger.sample()
    }

    /// Append scalars to the tape and absorb their bytes.
    pub fn write_scalar_slice(&mut self, vals: &Vec<u128>)
        ensures
            final(self).data@.len() == old(self).data@.len() + 16 * vals@.len(),
            final(self).data@.take(old(self).data@.len() as int) == old(self).data@,
            final(self).challenger.st() == crate::challenger::ch_observe(
                old(self).challenger.st(),
                final(self).data@.skip(old(self).data@.len() as int),
            ),
    {
        let mut written: Vec<u8> = Vec::new();
        let mut i: usize = 0;
        while i < vals.len()
            invariant
                i <= vals@.len(),
                written@.len() == 16 * i,
                self == old(self),
            decreases vals@.len() - i,
        {
            let mut bytes = crate::challenger::scalar_to_le_bytes(vals[i]);
            written.append(&mut bytes);
            i = i + 1;
        }
        self.challenger.observe_bytes(&written);
        let ghost w = written@;
        let mut written2 = written;
        self.data.append(&mut written2);
        proof {
            assert(self.data@.take(old(self).data@.len() as int) =~= old(self).data@);
            assert(self.data@.skip(old(self).data@.len() as int) =~= w);
        }
    }

    /// Hand the finished tape to the verifier.
    pub fn into_data(self) -> (r: Vec<u8>)
        ensures
            r@ == self.data@,
    {
        self.data
    }
}

/// Verify a batched sum-check execution.
///
/// The claims must be sorted in descending number of variables.  The result
/// is exactly what the spec-level mirror determines from the claims, the
/// tape and the starting challenger state: on an honest transcript the
/// verifier returns the mirror's challenges and evaluations, a read past
/// the tape yields `NotEnoughBytes`, and a folded sum that misses the
/// batched composite evaluation yields `IncorrectBatchEvaluation`.
#[verifier::loop_isolation(false)]
#[verifier::rlimit(100)]
pub fn batch_verify<C: CompositionPoly + Copy>(
    evaluation_order: EvaluationOrder,
    claims: &Vec<SumcheckClaim<C>>,
    transcript: &mut VerifierTranscript,
) -> (r: Result<BatchSumcheckOutput, SumcheckError>)
    requires
        old(transcript).wf(),
        forall|i: int| 0 <= i < claims@.len() ==> (#[trigger] claims@[i]).wf(),
    ensures
        self_consistent_output(claims@, r),
        !sorted_desc(claims@) ==> r == Err::<BatchSumcheckOutput, SumcheckError>(
            SumcheckError::ClaimsOutOfOrder,
        ),
        r == Err::<BatchSumcheckOutput, SumcheckError>(SumcheckError::ClaimsOutOfOrder)
            ==> !sorted_desc(claims@),
        sorted_desc(claims@) ==> bv_matches(
            evaluation_order,
            claims@,
            old(transcript).data@,
            old(transcript).pos as nat,
            old(transcript).challenger.st(),
            r,
        ),
{
    // Check descending order of the claims.
    let clen = claims.len();
    let mut t: usize = 0;
    while t + 1 < claims.len()
        invariant
            clen == claims@.len(),
            claims@.len() >= 1 ==> t < claims@.len(),
            claims@.len() == 0 ==> t == 0,
            forall|s: int|
                0 <= s < t ==> (#[trigger] claims@[s]).n_vars >= claims@[s + 1].n_vars,
        decreases claims@.len() - t,
    {
        if claims[t].n_vars() < claims[t + 1].n_vars() {
            return Err(SumcheckError::ClaimsOutOfOrder);
        }
        t = t + 1;
    }
    proof {
        assert forall|i: int, j: int|
            0 <= i < j < claims@.len() implies (#[trigger] claims@[i]).n_vars
            >= (#[trigger] claims@[j]).n_vars by {
            lemma_adjacent_sorted(claims@, i, j);
        }
    }
    let ghost d0 = transcript.data@;
    let ghost st0 = transcript.challenger.st();
    let ghost p0 = transcript.pos as nat;
    let ghost init = (BvState {
        st: st0,
        pos: p0,
        sum: 0,
        maxd: 0,
        active: 0,
        chals: Seq::<nat>::empty(),
        coeffs: Seq::<nat>::empty(),
    });
    let n_rounds: usize = if claims.len() == 0 {
        0
    } else {
        claims[0].n_vars()
    };
    let mut active_index: usize = 0;
    let mut batch_coeffs: Vec<u128> = Vec::new();
    let mut challenges: Vec<u128> = Vec::new();
    let mut sum: u128 = 0;
    let mut max_degree: usize = 0;
    let mut round_no: usize = 0;
    proof {
        assert(nats(challenges@) =~= Seq::<nat>::empty());
        assert(nats(batch_coeffs@) =~= Seq::<nat>::empty());
    }
    while round_no < n_rounds
        invariant
            round_no <= n_rounds,
            transcript.wf(),
            transcript.data@ == d0,
            sorted_desc(claims@),
            forall|i: int| 0 <= i < claims@.len() ==> (#[trigger] claims@[i]).wf(),
            claims@.len() >= 1 ==> n_rounds == claims@[0].n_vars,
            claims@.len() == 0 ==> n_rounds == 0,
            active_index <= claims@.len(),
            batch_coeffs@.len() == active_index,
            challenges@.len() == round_no,
            forall|s: int|
                active_index <= s < claims@.len() ==> (#[trigger] claims@[s]).n_vars <= n_rounds
                    - round_no,
            bv_rounds(claims@, d0, n_rounds as nat, init) == bv_rounds(
                claims@,
                d0,
                (n_rounds - round_no) as nat,
                (BvState {
                    st: transcript.challenger.st(),
                    pos: transcript.pos as nat,
                    sum: sum as nat,
                    maxd: max_degree as nat,
                    active: active_index as nat,
                    chals: nats(challenges@),
                    coeffs: nats(batch_coeffs@),
                }),
            ),
        decreases n_rounds - round_no,
    {
        let ghost s_entry = (BvState {
            st: transcript.challenger.st(),
            pos: transcript.pos as nat,
            sum: sum as nat,
            maxd: max_degree as nat,
            active: active_index as nat,
            chals: nats(challenges@),
            coeffs: nats(batch_coeffs@),
        });
        let n_vars_round = n_rounds - round_no;
        while active_index < claims.len() && claims[active_index].n_vars() == n_vars_round
            invariant
                active_index <= claims@.len(),
                transcript.wf(),
                transcript.data@ == d0,
                sorted_desc(claims@),
                forall|i: int| 0 <= i < claims@.len() ==> (#[trigger] claims@[i]).wf(),
                batch_coeffs@.len() == active_index,
                forall|s: int|
                    active_index <= s < claims@.len() ==> (#[trigger] claims@[s]).n_vars
                        <= n_vars_round,
                bv_activate(claims@, n_vars_round as nat, s_entry) == bv_activate(
                    claims@,
                    n_vars_round as nat,
                    (BvState {
                        st: transcript.challenger.st(),
                        pos: transcript.pos as nat,
                        sum: sum as nat,
                        maxd: max_degree as nat,
                        active: active_index as nat,
                        chals: nats(challenges@),
                        coeffs: nats(batch_coeffs@),
                    }),
                ),
            decreases claims@.len() - active_index,
        {
            let ghost spre = (BvState {
                st: transcript.challenger.st(),
                pos: transcript.pos as nat,
                sum: sum as nat,
                maxd: max_degree as nat,
                active: active_index as nat,
                chals: nats(challenges@),
                coeffs: nats(batch_coeffs@),
            });
            let next_batch_coeff = transcript.sample();
            batch_coeffs.push(next_batch_coeff);
            let claim = &claims[active_index];
            let mut csums: Vec<u128> = Vec::new();
            let mut s2: usize = 0;
            while s2 < claim.composite_sums.len()
                invariant
                    s2 <= claim.composite_sums@.len(),
                    claim == &claims@[active_index as int],
                    active_index < claims@.len(),
                    csums@.len() == s2,
                    forall|q: int|
                        0 <= q < s2 ==> csums@[q] == claim.composite_sums@[q].sum,
                decreases claim.composite_sums@.len() - s2,
            {
                csums.push(claim.composite_sums[s2].sum);
                s2 = s2 + 1;
            }
            let w = batch_weighted_value(next_batch_coeff, &csums);
            let ghost sum_pre = sum;
            sum = sum ^ w;
            let d = claim.max_individual_degree();
            if d > max_degree {
                max_degree = d;
            }
            active_index = active_index + 1;
            proof {
                lemma_xor_l7(sum_pre, w);
                assert(nats(csums@) =~= sums_of(claims@[active_index - 1].composite_sums@));
                assert(nats(batch_coeffs@) =~= spre.coeffs.push(next_batch_coeff as nat));
                assert(bv_activate(claims@, n_vars_round as nat, spre) == bv_activate(
                    claims@,
                    n_vars_round as nat,
                    (BvState {
                        st: transcript.challenger.st(),
                        pos: transcript.pos as nat,
                        sum: sum as nat,
                        maxd: max_degree as nat,
                        active: active_index as nat,
                        chals: nats(challenges@),
                        coeffs: nats(batch_coeffs@),
                    }),
                ));
                assert forall|s: int|
                    active_index <= s < claims@.len() implies (#[trigger] claims@[s]).n_vars
                    <= n_vars_round by {
                    assert(claims@[active_index - 1].n_vars >= claims@[s].n_vars);
                }
            }
        }
        let ghost smid = (BvState {
            st: transcript.challenger.st(),
            pos: transcript.pos as nat,
            sum: sum as nat,
            maxd: max_degree as nat,
            active: active_index as nat,
            chals: nats(challenges@),
            coeffs: nats(batch_coeffs@),
        });
        proof {
            assert(bv_activate(claims@, n_vars_round as nat, s_entry) == smid);
        }
        let coeffs = match transcript.read_scalar_slice(max_degree) {
            Ok(c) => c,
            Err(e) => {
                proof {
                    assert(bv_round(claims@, d0, n_vars_round as nat, s_entry) is None);
                    assert(bv_rounds(claims@, d0, (n_rounds - round_no) as nat, s_entry)
                        is None);
                    assert(bv_rounds(claims@, d0, n_rounds as nat, init) is None);
                    assert(bv_spec(evaluation_order, claims@, d0, p0, st0) == Err::<
                        (Seq<nat>, Seq<Seq<nat>>),
                        SumcheckError,
                    >(SumcheckError::NotEnoughBytes));
                }
                return Err(e);
            },
        };
        let ghost cs_read = scalars_at(d0, smid.pos as int, smid.maxd);
        proof {
            assert(nats(coeffs@) =~= cs_read);
        }
        let challenge = transcript.sample();
        challenges.push(challenge);
        sum = interpolate_round_proof(RoundProof(RoundCoeffs(coeffs)), sum, challenge);
        round_no = round_no + 1;
        proof {
            let st1 = ch_observe(smid.st, d0.subrange(smid.pos as int, smid.pos + 16 * smid.maxd as int));
            assert(nats(challenges@) =~= smid.chals.push(le_val(ch_bytes_val(st1, 16))));
            assert(bv_round(claims@, d0, n_vars_round as nat, s_entry) == Some((BvState {
                st: transcript.challenger.st(),
                pos: transcript.pos as nat,
                sum: sum as nat,
                maxd: max_degree as nat,
                active: active_index as nat,
                chals: nats(challenges@),
                coeffs: nats(batch_coeffs@),
            })));
            assert(bv_rounds(claims@, d0, n_rounds as nat, init) == bv_rounds(
                claims@,
                d0,
                (n_rounds - round_no) as nat,
                (BvState {
                    st: transcript.challenger.st(),
                    pos: transcript.pos as nat,
                    sum: sum as nat,
                    maxd: max_degree as nat,
                    active: active_index as nat,
                    chals: nats(challenges@),
                    coeffs: nats(batch_coeffs@),
                }),
            ));
            assert forall|s: int|
                active_index <= s < claims@.len() implies (#[trigger] claims@[s]).n_vars
                <= n_rounds - round_no by {
                if claims@[s].n_vars == n_rounds - round_no + 1 {
                    assert(false);
                }
            }
        }
    }
    let ghost s_re = (BvState {
        st: transcript.challenger.st(),
        pos: transcript.pos as nat,
        sum: sum as nat,
        maxd: max_degree as nat,
        active: active_index as nat,
        chals: nats(challenges@),
        coeffs: nats(batch_coeffs@),
    });
    proof {
        assert(bv_rounds(claims@, d0, n_rounds as nat, init) == Some(s_re));
    }
    // Claims over no variables are folded in after the rounds.
    while active_index < claims.len()
        invariant
            active_index <= claims@.len(),
            transcript.wf(),
            transcript.data@ == d0,
            sorted_desc(claims@),
            forall|i: int| 0 <= i < claims@.len() ==> (#[trigger] claims@[i]).wf(),
            batch_coeffs@.len() == active_index,
            forall|s: int|
                active_index <= s < claims@.len() ==> (#[trigger] claims@[s]).n_vars == 0,
            bv_activate(claims@, 0, s_re) == bv_activate(
                claims@,
                0,
                (BvState {
                    st: transcript.challenger.st(),
                    pos: transcript.pos as nat,
                    sum: sum as nat,
                    maxd: max_degree as nat,
                    active: active_index as nat,
                    chals: nats(challenges@),
                    coeffs: nats(batch_coeffs@),
                }),
            ),
        decreases claims@.len() - active_index,
    {
        let ghost spre = (BvState {
            st: transcript.challenger.st(),
            pos: transcript.pos as nat,
            sum: sum as nat,
            maxd: max_degree as nat,
            active: active_index as nat,
            chals: nats(challenges@),
            coeffs: nats(batch_coeffs@),
        });
        let next_batch_coeff = transcript.sample();
        batch_coeffs.push(next_batch_coeff);
        let claim = &claims[active_index];
        let mut csums: Vec<u128> = Vec::new();
        let mut s2: usize = 0;
        while s2 < claim.composite_sums.len()
            invariant
                s2 <= claim.composite_sums@.len(),
                claim == &claims@[active_index as int],
                active_index < claims@.len(),
                csums@.len() == s2,
                forall|q: int| 0 <= q < s2 ==> csums@[q] == claim.composite_sums@[q].sum,
            decreases claim.composite_sums@.len() - s2,
        {
            csums.push(claim.composite_sums[s2].sum);
            s2 = s2 + 1;
        }
        let w = batch_weighted_value(next_batch_coeff, &csums);
        let ghost sum_pre = sum;
        sum = sum ^ w;
        let d = claim.max_individual_degree();
        if d > max_degree {
            max_degree = d;
        }
        active_index = active_index + 1;
        proof {
            lemma_xor_l7(sum_pre, w);
            assert(nats(csums@) =~= sums_of(claims@[active_index - 1].composite_sums@));
            assert(nats(batch_coeffs@) =~= spre.coeffs.push(next_batch_coeff as nat));
            assert(bv_activate(claims@, 0, spre) == bv_activate(
                claims@,
                0,
                (BvState {
                    st: transcript.challenger.st(),
                    pos: transcript.pos as nat,
                    sum: sum as nat,
                    maxd: max_degree as nat,
                    active: active_index as nat,
                    chals: nats(challenges@),
                    coeffs: nats(batch_coeffs@),
                }),
            ));
        }
    }
    let ghost s2g = (BvState {
        st: transcript.challenger.st(),
        pos: transcript.pos as nat,
        sum: sum as nat,
        maxd: max_degree as nat,
        active: active_index as nat,
        chals: nats(challenges@),
        coeffs: nats(batch_coeffs@),
    });
    proof {
        assert(bv_activate(claims@, 0, s_re) == s2g);
    }
    // Read the claimed multilinear evaluations of every claim.
    let mut multilinear_evals: Vec<Vec<u128>> = Vec::new();
    let mut ci: usize = 0;
    proof {
        assert(evals_views(multilinear_evals@) =~= Seq::<Seq<nat>>::empty());
    }
    while ci < claims.len()
        invariant
            ci <= claims@.len(),
            transcript.wf(),
            transcript.data@ == d0,
            sorted_desc(claims@),
            forall|i: int| 0 <= i < claims@.len() ==> (#[trigger] claims@[i]).wf(),
            multilinear_evals@.len() == ci,
            forall|q: int|
                0 <= q < ci ==> (#[trigger] multilinear_evals@[q])@.len()
                    == claims@[q].n_multilinears,
            bv_read_evals(claims@, d0, 0, s2g.st, s2g.pos as int, Seq::<Seq<nat>>::empty())
                == bv_read_evals(
                claims@,
                d0,
                ci as nat,
                transcript.challenger.st(),
                transcript.pos as int,
                evals_views(multilinear_evals@),
            ),
        decreases claims@.len() - ci,
    {
        let ghost stpre = transcript.challenger.st();
        let ghost pospre = transcript.pos as int;
        let ghost accpre = evals_views(multilinear_evals@);
        let evals = match transcript.read_scalar_slice(claims[ci].n_multilinears()) {
            Ok(e) => e,
            Err(e) => {
                proof {
                    assert(bv_read_evals(claims@, d0, ci as nat, stpre, pospre, accpre)
                        is None);
                    assert(bv_spec(evaluation_order, claims@, d0, p0, st0) == Err::<
                        (Seq<nat>, Seq<Seq<nat>>),
                        SumcheckError,
                    >(SumcheckError::NotEnoughBytes));
                }
                return Err(e);
            },
        };
        multilinear_evals.push(evals);
        ci = ci + 1;
        proof {
            assert(nats(multilinear_evals@[ci - 1]@) =~= scalars_at(
                d0,
                pospre,
                claims@[ci - 1].n_multilinears as nat,
            ));
            assert(evals_views(multilinear_evals@) =~= accpre.push(
                nats(multilinear_evals@[ci - 1]@),
            ));
            assert(bv_read_evals(claims@, d0, (ci - 1) as nat, stpre, pospre, accpre)
                == bv_read_evals(
                claims@,
                d0,
                ci as nat,
                transcript.challenger.st(),
                transcript.pos as int,
                evals_views(multilinear_evals@),
            ));
        }
    }
    let ghost evs = evals_views(multilinear_evals@);
    proof {
        assert(bv_read_evals(claims@, d0, 0, s2g.st, s2g.pos as int, Seq::<Seq<nat>>::empty())
            == Some(evs));
    }
    // The batched composite evaluation must match the folded sum.
    let expected = match compute_expected_batch_composite_evaluation_multi_claim(
        &batch_coeffs,
        claims,
        &multilinear_evals,
    ) {
        Ok(v) => v,
        Err(e) => {
            proof {
                assert(false);
            }
            return Err(e);
        },
    };
    if sum != expected {
        proof {
            assert(bv_spec(evaluation_order, claims@, d0, p0, st0) == Err::<
                (Seq<nat>, Seq<Seq<nat>>),
                SumcheckError,
            >(SumcheckError::IncorrectBatchEvaluation));
        }
        return Err(SumcheckError::IncorrectBatchEvaluation);
    }
    proof {
        assert(bv_spec(evaluation_order, claims@, d0, p0, st0) == Ok::<
            (Seq<nat>, Seq<Seq<nat>>),
            SumcheckError,
        >((
            if evaluation_order == EvaluationOrder::HighToLow {
                rev_seq(s2g.chals)
            } else {
                s2g.chals
            },
            evs,
        )));
    }
    let ghost chseq = nats(challenges@);
    let mut out_challenges = challenges;
    if evaluation_order == EvaluationOrder::HighToLow {
        let mut rev: Vec<u128> = Vec::new();
        let mut t4: usize = out_challenges.len();
        while t4 > 0
            invariant
                t4 <= out_challenges@.len(),
                rev@.len() == out_challenges@.len() - t4,
                forall|j: int|
                    0 <= j < rev@.len() ==> rev@[j] == out_challenges@[out_challenges@.len() - 1
                        - j],
            decreases t4,
        {
            t4 = t4 - 1;
            rev.push(out_challenges[t4]);
        }
        proof {
            assert(nats(rev@) =~= rev_seq(chseq));
        }
        out_challenges = rev;
    }
    Ok(
        BatchSumcheckOutput {
            challenges: out_challenges,
            multilinear_evals,
            batch_coeffs: Ghost(nats(batch_coeffs@)),
            final_sum: Ghost(sum as nat),
        },
    )
}

/// What a successful batch verification promises of its output.
pub open spec fn self_consistent_output<C: CompositionPoly>(
    claims: Seq<SumcheckClaim<C>>,
    r: Result<BatchSumcheckOutput, SumcheckError>,
) -> bool {
    match r {
        Ok(out) => {
            &&& sorted_desc(claims)
            &&& out.challenges@.len() == (if claims.len() == 0 {
                0
            } else {
                claims[0].n_vars as nat
            })
            &&& out.multilinear_evals@.len() == claims.len()
            &&& forall|q: int|
                0 <= q < claims.len() ==> (#[trigger] out.multilinear_evals@[q])@.len()
                    == claims[q].n_multilinears
            &&& out.batch_coeffs@.len() == claims.len()
            &&& out.final_sum@ == expected_total(
                claims,
                out.batch_coeffs@,
                evals_views(out.multilinear_evals@),
            )
        },
        Err(_) => true,
    }
}

/// The views of the evaluation lists.
pub open spec fn evals_views(s: Seq<Vec<u128>>) -> Seq<Seq<nat>> {
    Seq::new(s.len(), |q: int| nats(s[q]@))
}

/// The expected batched evaluation of a single claim: its composite
/// evaluations at the claimed multilinear values, weighted by the powers of
/// its mixing coefficient.
pub fn compute_expected_batch_composite_evaluation_single_claim<C: CompositionPoly + Copy>(
    batch_coeff: u128,
    claim: &SumcheckClaim<C>,
    multilinear_evals: &Vec<u128>,
) -> (r: Result<u128, SumcheckError>)
    requires
        claim.wf(),
    ensures
        match r {
            Ok(v) => multilinear_evals@.len() == claim.n_multilinears && v as nat == bwv(
                batch_coeff as nat,
                composite_evals_of(claim.composite_sums@, nats(multilinear_evals@)),
            ),
            Err(e) => e == SumcheckError::CompositionArity && multilinear_evals@.len()
                != claim.n_multilinears,
        },
{
    if multilinear_evals.len() != claim.n_multilinears {
        return Err(SumcheckError::CompositionArity);
    }
    let mut evs: Vec<u128> = Vec::new();
    let mut t: usize = 0;
    while t < claim.composite_sums.len()
        invariant
            t <= claim.composite_sums@.len(),
            claim.wf(),
            multilinear_evals@.len() == claim.n_multilinears,
            evs@.len() == t,
            forall|q: int|
                0 <= q < t ==> (#[trigger] evs@[q]) as nat
                    == claim.composite_sums@[q].composition.spec_evaluate(
                    nats(multilinear_evals@),
                ),
        decreases claim.composite_sums@.len() - t,
    {
        let v = match claim.composite_sums[t].composition.evaluate(multilinear_evals) {
            Ok(v) => v,
            Err(_) => {
                proof {
                    assert(false);
                }
                return Err(SumcheckError::CompositionArity);
            },
        };
        evs.push(v);
        t = t + 1;
    }
    proof {
        assert(nats(evs@) =~= composite_evals_of(claim.composite_sums@, nats(multilinear_evals@)));
    }
    Ok(batch_weighted_value(batch_coeff, &evs))
}

/// The expected batched evaluation over all claims.
fn compute_expected_batch_composite_evaluation_multi_claim<C: CompositionPoly + Copy>(
    batch_coeffs: &Vec<u128>,
    claims: &Vec<SumcheckClaim<C>>,
    multilinear_evals: &Vec<Vec<u128>>,
) -> (r: Result<u128, SumcheckError>)
    requires
        batch_coeffs@.len() == claims@.len(),
        multilinear_evals@.len() == claims@.len(),
        forall|i: int| 0 <= i < claims@.len() ==> (#[trigger] claims@[i]).wf(),
    ensures
        match r {
            Ok(v) => {
                &&& forall|q: int|
                    0 <= q < claims@.len() ==> (#[trigger] multilinear_evals@[q])@.len()
                        == claims@[q].n_multilinears
                &&& v as nat == expected_total(
                    claims@,
                    nats(batch_coeffs@),
                    evals_views(multilinear_evals@),
                )
            },
            Err(e) => e == SumcheckError::CompositionArity && (exists|q: int|
                0 <= q < claims@.len() && (#[trigger] multilinear_evals@[q])@.len()
                    != claims@[q].n_multilinears),
        },
{
    let mut total: u128 = 0;
    let mut t: usize = 0;
    proof {
        assert(claims@.take(0) =~= Seq::<SumcheckClaim<C>>::empty());
    }
    while t < claims.len()
        invariant
            t <= claims@.len(),
            batch_coeffs@.len() == claims@.len(),
            multilinear_evals@.len() == claims@.len(),
            forall|i: int| 0 <= i < claims@.len() ==> (#[trigger] claims@[i]).wf(),
            forall|q: int|
                0 <= q < t ==> (#[trigger] multilinear_evals@[q])@.len()
                    == claims@[q].n_multilinears,
            total as nat == expected_total(
                claims@.take(t as int),
                nats(batch_coeffs@).take(t as int),
                evals_views(multilinear_evals@).take(t as int),
            ),
        decreases claims@.len() - t,
    {
        let v = match compute_expected_batch_composite_evaluation_single_claim(
            batch_coeffs[t],
            &claims[t],
            &multilinear_evals[t],
        ) {
            Ok(v) => v,
            Err(e) => {
                return Err(e);
            },
        };
        let ghost pre = total;
        total = total ^ v;
        t = t + 1;
        proof {
            lemma_xor_l7(pre, v);
            assert(claims@.take(t as int).drop_last() =~= claims@.take(t as int - 1));
            assert(nats(batch_coeffs@).take(t as int).drop_last() =~= nats(batch_coeffs@).take(
                t as int - 1,
            ));
            assert(evals_views(multilinear_evals@).take(t as int).drop_last() =~= evals_views(
                multilinear_evals@,
            ).take(t as int - 1));
            assert(claims@.take(t as int).last() == claims@[t - 1]);
            assert(nats(batch_coeffs@).take(t as int).last() == batch_coeffs@[t - 1] as nat);
            assert(evals_views(multilinear_evals@).take(t as int).last() == nats(
                multilinear_evals@[t - 1]@,
            ));
        }
    }
    proof {
        assert(claims@.take(claims@.len() as int) =~= claims@);
        assert(nats(batch_coeffs@).take(claims@.len() as int) =~= nats(batch_coeffs@));
        assert(evals_views(multilinear_evals@).take(claims@.len() as int) =~= evals_views(
            multilinear_evals@,
        ));
    }
    Ok(total)
}

} // verus!
