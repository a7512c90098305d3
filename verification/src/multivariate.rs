//! Multivariate polynomial interfaces and composites of multilinears.

use vstd::prelude::*;
use crate::error::Error;
use crate::multilinear::{MultilinearExtension, nats, fold_lo_all, eval_ml};

verus! {

/// A multivariate polynomial over the 128-bit tower field, evaluated at
/// points of the extension field.
pub trait MultivariatePoly: Sized {
    /// The values this polynomial may be evaluated on.
    spec fn valid(&self) -> bool;

    /// Number of variables, as a specification value.
    spec fn spec_n_vars(&self) -> nat;

    /// Total degree, as a specification value.
    spec fn spec_degree(&self) -> nat;

    /// The evaluation map itself.
    spec fn spec_evaluate(&self, query: Seq<nat>) -> nat;

    /// The number of variables.
    fn n_vars(&self) -> (r: usize)
        requires
            self.valid(),
        ensures
            r as nat == self.spec_n_vars(),
    ;

    /// Total degree of the polynomial.
    fn degree(&self) -> (r: usize)
        requires
            self.valid(),
        ensures
            r as nat == self.spec_degree(),
    ;

    /// Evaluate the polynomial at a point of the extension field.
    fn evaluate(&self, query: &Vec<u128>) -> (r: Result<u128, Error>)
        requires
            self.valid(),
        ensures
            match r {
                Ok(v) => query@.len() == self.spec_n_vars() && v as nat == self.spec_evaluate(
                    nats(query@),
                ),
                Err(_) => query@.len() != self.spec_n_vars(),
            },
    ;
}

/// A composition polynomial: the outer multivariate polynomial applied to
/// the values of a tuple of multilinears.
pub trait CompositionPoly: Sized {
    /// Number of inner polynomials this composition combines.
    spec fn spec_n_vars(&self) -> nat;

    /// Total degree in the inner values.
    spec fn spec_degree(&self) -> nat;

    /// The evaluation map itself.
    spec fn spec_evaluate(&self, query: Seq<nat>) -> nat;

    /// The number of inner polynomials.
    fn n_vars(&self) -> (r: usize)
        ensures
            r as nat == self.spec_n_vars(),
    ;

    /// Total degree in the inner values.
    fn degree(&self) -> (r: usize)
        ensures
            r as nat == self.spec_degree(),
    ;

    /// Evaluate the composition on packed evaluation points.
    fn evaluate(&self, query: &Vec<u128>) -> (r: Result<u128, Error>)
        ensures
            match r {
                Ok(v) => query@.len() == self.spec_n_vars() && v as nat == self.spec_evaluate(
                    nats(query@),
                ),
                Err(_) => query@.len() != self.spec_n_vars(),
            },
    ;
}

/// The identity composition of a single multilinear.
#[derive(Debug, Clone, Copy)]
pub struct IdentityCompositionPoly;

impl CompositionPoly for IdentityCompositionPoly {
    open spec fn spec_n_vars(&self) -> nat {
        1
    }

    open spec fn spec_degree(&self) -> nat {
        1
    }

    open spec fn spec_evaluate(&self, query: Seq<nat>) -> nat {
        if query.len() >= 1 {
            query[0]
        } else {
            0
        }
    }

    fn n_vars(&self) -> (r: usize) {
        1
    }

    fn degree(&self) -> (r: usize) {
        1
    }

    fn evaluate(&self, query: &Vec<u128>) -> (r: Result<u128, Error>) {
        if query.len() != 1 {
            return Err(Error::IncorrectQuerySize { expected: 1 });
        }
        proof {
            assert(nats(query@)[0] == query@[0] as nat);
        }
        Ok(query[0])
    }
}

/// A polynomial defined as a composition applied to several multilinears,
/// all in the same number of variables.
pub struct MultilinearComposite<C> {
    pub composition: C,
    pub n_vars: usize,
    pub multilinears: Vec<MultilinearExtension>,
}

impl<C: CompositionPoly + Copy> MultilinearComposite<C> {
    /// The composite is well formed: the composition arity matches the
    /// number of multilinears, and all multilinears share `n_vars`.
    pub open spec fn wf(&self) -> bool {
        &&& self.composition.spec_n_vars() == self.multilinears@.len()
        &&& forall|i: int|
            0 <= i < self.multilinears@.len() ==> (#[trigger] self.multilinears@[i]).wf()
                && self.multilinears@[i].n_vars == self.n_vars
    }

    /// Combine multilinears under a composition, validating the arities.
    pub fn new(n_vars: usize, composition: C, multilinears: Vec<MultilinearExtension>) -> (r:
        Result<MultilinearComposite<C>, Error>)
        requires
            forall|i: int|
                0 <= i < multilinears@.len() ==> (#[trigger] multilinears@[i]).wf(),
        ensures
            match r {
                Ok(c) => c.wf() && c.n_vars == n_vars && c.multilinears@ == multilinears@
                    && c.composition == composition,
                Err(e) => e == Error::MultilinearCompositeValidation && (
                composition.spec_n_vars() != multilinears@.len() || exists|i: int|
                    0 <= i < multilinears@.len() && (#[trigger] multilinears@[i]).n_vars
                        != n_vars),
            },
    {
        if composition.n_vars() != multilinears.len() {
            return Err(Error::MultilinearCompositeValidation);
        }
        let mut i: usize = 0;
        while i < multilinears.len()
            invariant
                i <= multilinears@.len(),
                forall|j: int|
                    0 <= j < i ==> (#[trigger] multilinears@[j]).n_vars == n_vars,
            decreases multilinears@.len() - i,
        {
            if multilinears[i].n_vars() != n_vars {
                return Err(Error::MultilinearCompositeValidation);
            }
            i = i + 1;
        }
        Ok(MultilinearComposite { composition, n_vars, multilinears })
    }

    /// The inner multilinear polynomials.
    pub fn iter_multilinear_polys(&self) -> (r: &Vec<MultilinearExtension>)
        ensures
            r@ == self.multilinears@,
    {
        &self.multilinears
    }

    /// Fix the first `query.len()` variables of every inner multilinear.
    pub fn evaluate_partial_low(&self, query: &Vec<u128>) -> (r: Result<
        MultilinearComposite<C>,
        Error,
    >)
        requires
            self.wf(),
        ensures
            match r {
                Ok(c) => {
                    &&& query@.len() <= self.n_vars
                    &&& c.wf()
                    &&& c.n_vars == self.n_vars - query@.len()
                    &&& c.composition == self.composition
                    &&& c.multilinears@.len() == self.multilinears@.len()
                    &&& forall|i: int|
                        0 <= i < self.multilinears@.len() ==> nats(
                            (#[trigger] c.multilinears@[i]).evals@,
                        ) == fold_lo_all(nats(self.multilinears@[i].evals@), nats(query@))
                },
                Err(e) => e == (Error::IncorrectQuerySize { expected: self.n_vars as usize })
                    && query@.len() > self.n_vars,
            },
    {
        if query.len() > self.n_vars {
            return Err(Error::IncorrectQuerySize { expected: self.n_vars });
        }
        let mut folded: Vec<MultilinearExtension> = Vec::new();
        let mut i: usize = 0;
        while i < self.multilinears.len()
            invariant
                self.wf(),
                query@.len() <= self.n_vars,
                i <= self.multilinears@.len(),
                folded@.len() == i,
                forall|j: int|
                    0 <= j < i ==> (#[trigger] folded@[j]).wf() && folded@[j].n_vars == self.n_vars
                        - query@.len() && nats(folded@[j].evals@) == fold_lo_all(
                        nats(self.multilinears@[j].evals@),
                        nats(query@),
                    ),
            decreases self.multilinears@.len() - i,
        {
            let m = match self.multilinears[i].evaluate_partial_low(query) {
                Ok(m) => m,
                Err(e) => {
                    proof {
                        assert(false);
                    }
                    return Err(e);
                },
            };
            folded.push(m);
            i = i + 1;
        }
        Ok(
            MultilinearComposite {
                composition: self.composition,
                n_vars: self.n_vars - query.len(),
                multilinears: folded,
            },
        )
    }

    /// Total degree, that of the composition.
    pub fn degree(&self) -> (r: usize)
        ensures
            r as nat == self.composition.spec_degree(),
    {
        self.composition.degree()
    }

    /// Number of variables of the composite polynomial.
    pub fn n_vars(&self) -> (r: usize)
        ensures
            r == self.n_vars,
    {
        self.n_vars
    }

    /// Number of inner multilinears.
    pub fn n_multilinears(&self) -> (r: usize)
        requires
            self.wf(),
        ensures
            r == self.multilinears@.len(),
    {
        self.multilinears.len()
    }
}

impl MultilinearComposite<IdentityCompositionPoly> {
    /// Wrap a single multilinear as the identity composite.
    pub fn from_multilinear(poly: MultilinearExtension) -> (r: MultilinearComposite<
        IdentityCompositionPoly,
    >)
        requires
            poly.wf(),
        ensures
            r.wf(),
            r.n_vars == poly.n_vars,
            r.multilinears@.len() == 1,
            r.multilinears@[0] == poly,
    {
        let n_vars: usize = poly.n_vars();
        MultilinearComposite {
            composition: IdentityCompositionPoly,
            n_vars,
            multilinears: vec![poly],
        }
    }
}

impl MultivariatePoly for MultilinearExtension {
    /// Multilinears are evaluated through their well-formed tables.
    open spec fn valid(&self) -> bool {
        self.wf()
    }

    open spec fn spec_n_vars(&self) -> nat {
        self.n_vars as nat
    }

    /// A multilinear has total degree at most its number of variables.
    open spec fn spec_degree(&self) -> nat {
        self.n_vars as nat
    }

    open spec fn spec_evaluate(&self, query: Seq<nat>) -> nat {
        eval_ml(nats(self.evals@), query)
    }

    fn n_vars(&self) -> (r: usize) {
        self.n_vars
    }

    fn degree(&self) -> (r: usize) {
        self.n_vars
    }

    fn evaluate(&self, query: &Vec<u128>) -> (r: Result<u128, Error>) {
        MultilinearExtension::evaluate(self, query)
    }
}

} // verus!
