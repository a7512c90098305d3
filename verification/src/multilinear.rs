//! Multilinear extensions over the 128-bit tower field, with evaluation by
//! variable folding, and the tensor query expansion.
//!
//! A multilinear in mu variables is stored as its evaluation vector over the
//! boolean hypercube, in lexicographic order with variable 0 least
//! significant.  Evaluation at a point folds one variable at a time:
//! fixing the highest variable to r turns the table e into the table
//! (1+r) * e[i] + r * e[i + half].

use vstd::prelude::*;
use vstd::arithmetic::power2::pow2;
use crate::tower::{t_add, t_mul, mul_l7, lemma_xor_l7};
use crate::error::Error;
use crate::util::log2_strict_usize;

verus! {

/// The evaluation vector read as mathematical field elements.
pub open spec fn nats(s: Seq<u128>) -> Seq<nat> {
    Seq::new(s.len(), |i: int| s[i] as nat)
}

/// One folding step on the highest variable.
pub open spec fn fold_hi(e: Seq<nat>, r: nat) -> Seq<nat> {
    Seq::new(
        e.len() / 2,
        |i: int| t_add(7, t_mul(7, t_add(7, 1, r), e[i]), t_mul(7, r, e[i + e.len() / 2])),
    )
}

/// Folding out all variables of `q`, highest first: the partial evaluation
/// of the table `e` at the point `q` on its high variables.
pub open spec fn fold_hi_all(e: Seq<nat>, q: Seq<nat>) -> Seq<nat>
    decreases q.len(),
{
    if q.len() == 0 {
        e
    } else {
        fold_hi_all(fold_hi(e, q.last()), q.drop_last())
    }
}

/// One folding step on the lowest variable.
pub open spec fn fold_lo(e: Seq<nat>, r: nat) -> Seq<nat> {
    Seq::new(
        e.len() / 2,
        |i: int| t_add(7, t_mul(7, t_add(7, 1, r), e[2 * i]), t_mul(7, r, e[2 * i + 1])),
    )
}

/// Folding out the variables of `q` on the low side, first variable first.
pub open spec fn fold_lo_all(e: Seq<nat>, q: Seq<nat>) -> Seq<nat>
    decreases q.len(),
{
    if q.len() == 0 {
        e
    } else {
        fold_lo_all(fold_lo(e, q.first()), q.drop_first())
    }
}

/// Full multilinear evaluation: fold out every variable, highest first.
pub open spec fn eval_ml(e: Seq<nat>, q: Seq<nat>) -> nat {
    let f = fold_hi_all(e, q);
    if f.len() >= 1 {
        f[0]
    } else {
        0
    }
}

/// The tensor expansion of a query point: entry v is the product over all
/// variables i of (1 + q[i]) if bit i of v is clear, or q[i] if it is set.
/// This is the evaluation vector of the Lagrange basis at the point.
pub open spec fn tensor_spec(q: Seq<nat>) -> Seq<nat>
    decreases q.len(),
{
    if q.len() == 0 {
        seq![1nat]
    } else {
        let prev = tensor_spec(q.drop_last());
        let r = q.last();
        prev.map(|i: int, v: nat| t_mul(7, t_add(7, 1, r), v)) + prev.map(
            |i: int, v: nat| t_mul(7, r, v),
        )
    }
}

/// A precomputed tensor expansion of a query point.
pub struct MultilinearQuery {
    pub n_vars: usize,
    pub expansion: Vec<u128>,
}

impl MultilinearQuery {
    /// The expansion is the tensor expansion of some query of n_vars entries.
    pub open spec fn wf(&self) -> bool {
        self.expansion@.len() == pow2(self.n_vars as nat)
    }

    /// Expand a full query point into its 2^n tensor of Lagrange coefficients.
    pub fn with_full_query(query: &Vec<u128>) -> (r: Result<MultilinearQuery, Error>)
        requires
            query@.len() < 31,
        ensures
            match r {
                Ok(m) => m.n_vars == query@.len() && m.wf() && nats(m.expansion@) == tensor_spec(
                    nats(query@),
                ),
                Err(_) => false,
            },
    {
        let mut cur: Vec<u128> = Vec::new();
        cur.push(1u128);
        proof {
            assert(nats(cur@) =~= tensor_spec(nats(query@).take(0)));
            vstd::arithmetic::power2::lemma2_to64();
        }
        let mut j: usize = 0;
        while j < query.len()
            invariant
                j <= query@.len() < 31,
                cur@.len() == pow2(j as nat),
                nats(cur@) == tensor_spec(nats(query@).take(j as int)),
            decreases query@.len() - j,
        {
            let r: u128 = query[j];
            let one_r: u128 = 1u128 ^ r;
            proof {
                lemma_xor_l7(1u128, r);
                assert(pow2(j as nat) < pow2(31)) by {
                    vstd::arithmetic::power2::lemma_pow2_strictly_increases(j as nat, 31);
                }
                vstd::arithmetic::power2::lemma2_to64();
            }
            let mut next: Vec<u128> = Vec::new();
            let mut i: usize = 0;
            while i < cur.len()
                invariant
                    i <= cur@.len(),
                    next@.len() == i,
                    one_r as nat == t_add(7, 1, r as nat),
                    forall|t: int|
                        0 <= t < i ==> next@[t] as nat == t_mul(
                            7,
                            t_add(7, 1, r as nat),
                            cur@[t] as nat,
                        ),
                decreases cur@.len() - i,
            {
                next.push(mul_l7(one_r, cur[i]));
                i = i + 1;
            }
            let mut i2: usize = 0;
            while i2 < cur.len()
                invariant
                    i2 <= cur@.len(),
                    next@.len() == cur@.len() + i2,
                    one_r as nat == t_add(7, 1, r as nat),
                    forall|t: int|
                        0 <= t < cur@.len() ==> next@[t] as nat == t_mul(
                            7,
                            t_add(7, 1, r as nat),
                            cur@[t] as nat,
                        ),
                    forall|t: int|
                        0 <= t < i2 ==> next@[cur@.len() + t] as nat == t_mul(
                            7,
                            r as nat,
                            cur@[t] as nat,
                        ),
                decreases cur@.len() - i2,
            {
                next.push(mul_l7(r, cur[i2]));
                i2 = i2 + 1;
            }
            proof {
                let qj = nats(query@).take(j as int + 1);
                assert(qj.last() == query@[j as int] as nat);
                assert(qj.drop_last() =~= nats(query@).take(j as int));
                assert(nats(next@) =~= tensor_spec(qj));
                vstd::arithmetic::power2::lemma_pow2_unfold((j + 1) as nat);
            }
            cur = next;
            j = j + 1;
        }
        proof {
            assert(nats(query@).take(query@.len() as int) =~= nats(query@));
        }
        Ok(MultilinearQuery { n_vars: query.len(), expansion: cur })
    }

    /// Number of variables of the expanded query.
    pub fn n_vars(&self) -> (r: usize)
        ensures
            r == self.n_vars,
    {
        self.n_vars
    }

    /// Hand out the expansion itself.
    pub fn into_expansion(self) -> (r: Vec<u128>)
        ensures
            r@ == self.expansion@,
    {
        self.expansion
    }

    /// The expansion, borrowed.
    pub fn expansion(&self) -> (r: &Vec<u128>)
        ensures
            r@ == self.expansion@,
    {
        &self.expansion
    }
}

/// A multilinear extension over the 128-bit tower field.
pub struct MultilinearExtension {
    pub n_vars: usize,
    pub evals: Vec<u128>,
}

/// One folding step of the highest variable, as executable code.
fn fold_high_step(e: &Vec<u128>, r: u128) -> (out: Vec<u128>)
    requires
        e@.len() % 2 == 0,
    ensures
        nats(out@) == fold_hi(nats(e@), r as nat),
        out@.len() == e@.len() / 2,
{
    let half: usize = e.len() / 2;
    let one_r: u128 = 1u128 ^ r;
    proof {
        lemma_xor_l7(1u128, r);
    }
    let mut out: Vec<u128> = Vec::new();
    let mut i: usize = 0;
    while i < half
        invariant
            half == e@.len() / 2,
            e@.len() % 2 == 0,
            e@.len() <= usize::MAX,
            i <= half,
            out@.len() == i,
            one_r as nat == t_add(7, 1, r as nat),
            forall|j: int|
                0 <= j < i ==> out@[j] as nat == t_add(
                    7,
                    t_mul(7, t_add(7, 1, r as nat), e@[j] as nat),
                    t_mul(7, r as nat, e@[j + e@.len() / 2] as nat),
                ),
        decreases half - i,
    {
        let lo_part: u128 = mul_l7(one_r, e[i]);
        let hi_part: u128 = mul_l7(r, e[i + half]);
        let v: u128 = lo_part ^ hi_part;
        proof {
            lemma_xor_l7(lo_part, hi_part);
        }
        out.push(v);
        i = i + 1;
    }
    proof {
        assert(nats(out@) =~= fold_hi(nats(e@), r as nat));
    }
    out
}

/// One folding step of the lowest variable, as executable code.
fn fold_low_step(e: &Vec<u128>, r: u128) -> (out: Vec<u128>)
    requires
        e@.len() % 2 == 0,
    ensures
        nats(out@) == fold_lo(nats(e@), r as nat),
        out@.len() == e@.len() / 2,
{
    let half: usize = e.len() / 2;
    let one_r: u128 = 1u128 ^ r;
    proof {
        lemma_xor_l7(1u128, r);
    }
    let mut out: Vec<u128> = Vec::new();
    let mut i: usize = 0;
    while i < half
        invariant
            half == e@.len() / 2,
            e@.len() % 2 == 0,
            e@.len() <= usize::MAX,
            i <= half,
            out@.len() == i,
            one_r as nat == t_add(7, 1, r as nat),
            forall|j: int|
                0 <= j < i ==> out@[j] as nat == t_add(
                    7,
                    t_mul(7, t_add(7, 1, r as nat), e@[2 * j] as nat),
                    t_mul(7, r as nat, e@[2 * j + 1] as nat),
                ),
        decreases half - i,
    {
        let lo_part: u128 = mul_l7(one_r, e[2 * i]);
        let hi_part: u128 = mul_l7(r, e[2 * i + 1]);
        let v: u128 = lo_part ^ hi_part;
        proof {
            lemma_xor_l7(lo_part, hi_part);
        }
        out.push(v);
        i = i + 1;
    }
    proof {
        assert(nats(out@) =~= fold_lo(nats(e@), r as nat));
    }
    out
}

impl MultilinearExtension {
    /// The evaluation table has exactly 2^n_vars entries.
    pub open spec fn wf(&self) -> bool {
        self.evals@.len() == pow2(self.n_vars as nat)
    }

    /// Wrap an evaluation vector; its length must be a power of two.
    pub fn from_values(values: Vec<u128>) -> (r: Result<MultilinearExtension, Error>)
        ensures
            match r {
                Ok(m) => m.wf() && m.evals@ == values@,
                Err(e) => e == Error::PowerOfTwoLengthRequired && (forall|j: nat|
                    values@.len() != pow2(j)),
            },
    {
        match log2_strict_usize(values.len()) {
            Some(k) => Ok(MultilinearExtension { n_vars: k, evals: values }),
            None => Err(Error::PowerOfTwoLengthRequired),
        }
    }

    /// Number of variables.
    pub fn n_vars(&self) -> (r: usize)
        ensures
            r == self.n_vars,
    {
        self.n_vars
    }

    /// The evaluation table.
    pub fn evals(&self) -> (r: &Vec<u128>)
        ensures
            r@ == self.evals@,
    {
        &self.evals
    }

    /// Fix the last `partial.len()` variables to `partial`, leaving a
    /// multilinear in the remaining low variables.
    pub fn evaluate_partial_high(&self, partial: &Vec<u128>) -> (r: Result<
        MultilinearExtension,
        Error,
    >)
        requires
            self.wf(),
        ensures
            match r {
                Ok(m) => partial@.len() <= self.n_vars && m.wf() && m.n_vars == self.n_vars
                    - partial@.len() && nats(m.evals@) == fold_hi_all(
                    nats(self.evals@),
                    nats(partial@),
                ),
                Err(e) => e == (Error::IncorrectQuerySize { expected: self.n_vars as usize })
                    && partial@.len() > self.n_vars,
            },
    {
        if partial.len() > self.n_vars {
            return Err(Error::IncorrectQuerySize { expected: self.n_vars });
        }
        let mut cur: Vec<u128> = self.evals.clone();
        let mut j: usize = partial.len();
        proof {
            assert(nats(partial@).take(j as int) =~= nats(partial@));
        }
        while j > 0
            invariant
                j <= partial@.len() <= self.n_vars,
                self.wf(),
                cur@.len() == pow2((self.n_vars - (partial@.len() - j)) as nat),
                fold_hi_all(nats(cur@), nats(partial@).take(j as int)) == fold_hi_all(
                    nats(self.evals@),
                    nats(partial@),
                ),
            decreases j,
        {
            let ghost qpre = nats(partial@).take(j as int);
            proof {
                let m = (self.n_vars - (partial@.len() - j)) as nat;
                assert(m >= 1);
                vstd::arithmetic::power2::lemma_pow2_unfold(m);
                assert(cur@.len() % 2 == 0);
            }
            j = j - 1;
            let stepped: Vec<u128> = fold_high_step(&cur, partial[j]);
            proof {
                assert(qpre.last() == partial@[j as int] as nat);
                assert(qpre.drop_last() =~= nats(partial@).take(j as int));
                assert(fold_hi_all(nats(cur@), qpre) == fold_hi_all(
                    fold_hi(nats(cur@), qpre.last()),
                    qpre.drop_last(),
                ));
                vstd::arithmetic::power2::lemma_pow2_unfold(
                    (self.n_vars - (partial@.len() - j - 1)) as nat,
                );
            }
            cur = stepped;
        }
        proof {
            assert(nats(partial@).take(0) =~= Seq::<nat>::empty());
            assert(fold_hi_all(nats(cur@), Seq::<nat>::empty()) == nats(cur@));
        }
        Ok(
            MultilinearExtension {
                n_vars: self.n_vars - partial.len(),
                evals: cur,
            },
        )
    }

    /// Fix the first `partial.len()` variables to `partial`, leaving a
    /// multilinear in the remaining high variables.
    pub fn evaluate_partial_low(&self, partial: &Vec<u128>) -> (r: Result<
        MultilinearExtension,
        Error,
    >)
        requires
            self.wf(),
        ensures
            match r {
                Ok(m) => partial@.len() <= self.n_vars && m.wf() && m.n_vars == self.n_vars
                    - partial@.len() && nats(m.evals@) == fold_lo_all(
                    nats(self.evals@),
                    nats(partial@),
                ),
                Err(e) => e == (Error::IncorrectQuerySize { expected: self.n_vars as usize })
                    && partial@.len() > self.n_vars,
            },
    {
        if partial.len() > self.n_vars {
            return Err(Error::IncorrectQuerySize { expected: self.n_vars });
        }
        let mut cur: Vec<u128> = self.evals.clone();
        let mut j: usize = 0;
        proof {
            assert(nats(partial@).skip(0) =~= nats(partial@));
        }
        while j < partial.len()
            invariant
                j <= partial@.len() <= self.n_vars,
                self.wf(),
                cur@.len() == pow2((self.n_vars - j) as nat),
                fold_lo_all(nats(cur@), nats(partial@).skip(j as int)) == fold_lo_all(
                    nats(self.evals@),
                    nats(partial@),
                ),
            decreases partial@.len() - j,
        {
            let ghost qrest = nats(partial@).skip(j as int);
            proof {
                let m = (self.n_vars - j) as nat;
                assert(m >= 1);
                vstd::arithmetic::power2::lemma_pow2_unfold(m);
                assert(cur@.len() % 2 == 0);
            }
            let stepped: Vec<u128> = fold_low_step(&cur, partial[j]);
            proof {
                assert(qrest.first() == partial@[j as int] as nat);
                assert(qrest.drop_first() =~= nats(partial@).skip(j as int + 1));
                assert(fold_lo_all(nats(cur@), qrest) == fold_lo_all(
                    fold_lo(nats(cur@), qrest.first()),
                    qrest.drop_first(),
                ));
                vstd::arithmetic::power2::lemma_pow2_unfold((self.n_vars - j) as nat);
            }
            cur = stepped;
            j = j + 1;
        }
        proof {
            assert(nats(partial@).skip(partial@.len() as int) =~= Seq::<nat>::empty());
            assert(fold_lo_all(nats(cur@), Seq::<nat>::empty()) == nats(cur@));
        }
        Ok(
            MultilinearExtension {
                n_vars: self.n_vars - partial.len(),
                evals: cur,
            },
        )
    }

    /// Evaluate the multilinear at a full query point.
    pub fn evaluate(&self, query: &Vec<u128>) -> (r: Result<u128, Error>)
        requires
            self.wf(),
        ensures
            match r {
                Ok(v) => query@.len() == self.n_vars && v as nat == eval_ml(
                    nats(self.evals@),
                    nats(query@),
                ),
                Err(e) => e == (Error::IncorrectQuerySize { expected: self.n_vars as usize })
                    && query@.len() != self.n_vars,
            },
    {
        if query.len() != self.n_vars {
            return Err(Error::IncorrectQuerySize { expected: self.n_vars });
        }
        let folded = match self.evaluate_partial_high(query) {
            Ok(m) => m,
            Err(e) => {
                return Err(e);
            },
        };
        proof {
            vstd::arithmetic::power2::lemma2_to64();
            assert(folded.evals@.len() == 1);
            assert(nats(folded.evals@)[0] == folded.evals@[0] as nat);
        }
        Ok(folded.evals[0])
    }
}

} // verus!
