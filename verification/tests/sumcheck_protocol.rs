use rand::{Rng, SeedableRng, rngs::StdRng};
use tower_pcs::multilinear::MultilinearExtension;
use tower_pcs::multivariate::IdentityCompositionPoly;
use tower_pcs::sumcheck::{
    batch_verify, CompositeSumClaim, EvaluationOrder, ProverTranscript, RoundCoeffs, RoundProof,
    SumcheckClaim, SumcheckError, VerifierTranscript, interpolate_round_proof,
};
use tower_pcs::tower::mul_l7;

fn random_ml(rng: &mut StdRng, n_vars: usize) -> MultilinearExtension {
    let evals: Vec<u128> = (0..1usize << n_vars).map(|_| rng.gen::<u128>()).collect();
    MultilinearExtension::from_values(evals).unwrap()
}

fn xor_all(v: &[u128]) -> u128 {
    v.iter().fold(0, |a, b| a ^ b)
}

fn identity_claim(n_vars: usize, sum: u128) -> SumcheckClaim<IdentityCompositionPoly> {
    SumcheckClaim::new(
        n_vars,
        1,
        vec![CompositeSumClaim { composition: IdentityCompositionPoly, sum }],
    )
    .unwrap()
}

/// An honest prover for identity-composition claims, low-to-high order.
fn honest_transcript(mls: &[MultilinearExtension]) -> Vec<u8> {
    let n_rounds = mls.iter().map(|m| m.n_vars()).max().unwrap_or(0);
    let mut transcript = ProverTranscript::new();
    let mut active: usize = 0;
    let mut folded: Vec<MultilinearExtension> = Vec::new();
    let mut betas: Vec<u128> = Vec::new();
    let mut sum: u128 = 0;
    for round in 0..n_rounds {
        let width = n_rounds - round;
        while active < mls.len() && mls[active].n_vars() == width {
            let beta = transcript.sample();
            sum ^= mul_l7(beta, xor_all(mls[active].evals()));
            betas.push(beta);
            folded.push(MultilinearExtension::from_values(mls[active].evals().clone()).unwrap());
            active += 1;
        }
        // The round polynomial is linear; its constant term is the batch of
        // the even-index sums of the active multilinears.
        let mut c0: u128 = 0;
        for (i, f) in folded.iter().enumerate() {
            let evens: Vec<u128> = f.evals().iter().copied().step_by(2).collect();
            c0 ^= mul_l7(betas[i], xor_all(&evens));
        }
        transcript.write_scalar_slice(&vec![c0]);
        let challenge = transcript.sample();
        for f in folded.iter_mut() {
            *f = f.evaluate_partial_low(&vec![challenge]).unwrap();
        }
        sum = interpolate_round_proof(RoundProof(RoundCoeffs(vec![c0])), sum, challenge);
    }
    while active < mls.len() {
        let beta = transcript.sample();
        sum ^= mul_l7(beta, xor_all(mls[active].evals()));
        betas.push(beta);
        folded.push(MultilinearExtension::from_values(mls[active].evals().clone()).unwrap());
        active += 1;
    }
    for f in folded.iter() {
        assert_eq!(f.n_vars(), 0);
        transcript.write_scalar_slice(&vec![f.evals()[0]]);
    }
    transcript.into_data()
}

#[test]
fn test_sumcheck_out_of_order_rejected() {
    // Two claims with 4 variables followed by 8 must be rejected.
    let claims = vec![identity_claim(4, 0), identity_claim(8, 0)];
    let mut transcript = VerifierTranscript::new(Vec::new());
    let r = batch_verify(EvaluationOrder::LowToHigh, &claims, &mut transcript);
    assert!(matches!(r, Err(SumcheckError::ClaimsOutOfOrder)));
}

#[test]
fn test_sumcheck_round_trip() {
    let mut rng = StdRng::seed_from_u64(42);
    let mls = vec![
        random_ml(&mut rng, 8),
        random_ml(&mut rng, 8),
        random_ml(&mut rng, 4),
        random_ml(&mut rng, 0),
    ];
    let claims: Vec<SumcheckClaim<IdentityCompositionPoly>> =
        mls.iter().map(|m| identity_claim(m.n_vars(), xor_all(m.evals()))).collect();

    let data = honest_transcript(&mls);
    let mut transcript = VerifierTranscript::new(data.clone());
    let out = batch_verify(EvaluationOrder::LowToHigh, &claims, &mut transcript).unwrap();

    assert_eq!(out.challenges.len(), 8);
    assert_eq!(out.multilinear_evals.len(), 4);
    for evs in &out.multilinear_evals {
        assert_eq!(evs.len(), 1);
    }
    // The returned evaluations agree with evaluating each multilinear at
    // the challenges of the rounds it was active in.
    let e0 = mls[0].evaluate(&out.challenges.clone()).unwrap();
    assert_eq!(out.multilinear_evals[0][0], e0);
    let e2 = mls[2].evaluate(&out.challenges[4..8].to_vec()).unwrap();
    assert_eq!(out.multilinear_evals[2][0], e2);
    assert_eq!(out.multilinear_evals[3][0], mls[3].evals()[0]);

    // Swapping two round coefficients breaks the batched evaluation.
    let mut tampered = data;
    for b in 0..16 {
        tampered.swap(b, 16 + b);
    }
    let mut transcript = VerifierTranscript::new(tampered);
    let r = batch_verify(EvaluationOrder::LowToHigh, &claims, &mut transcript);
    assert!(matches!(r, Err(SumcheckError::IncorrectBatchEvaluation)));
}

#[test]
fn test_sumcheck_high_to_low_reverses_challenges() {
    let mut rng = StdRng::seed_from_u64(5);
    let mls = vec![random_ml(&mut rng, 3)];
    let claims: Vec<SumcheckClaim<IdentityCompositionPoly>> =
        mls.iter().map(|m| identity_claim(m.n_vars(), xor_all(m.evals()))).collect();
    let data = honest_transcript(&mls);

    let mut t1 = VerifierTranscript::new(data.clone());
    let low = batch_verify(EvaluationOrder::LowToHigh, &claims, &mut t1).unwrap();
    let mut t2 = VerifierTranscript::new(data);
    let high = batch_verify(EvaluationOrder::HighToLow, &claims, &mut t2).unwrap();
    let mut rev = low.challenges.clone();
    rev.reverse();
    assert_eq!(high.challenges, rev);
    assert_eq!(high.multilinear_evals, low.multilinear_evals);
}

#[test]
fn test_sumcheck_truncated_transcript_rejected() {
    let mut rng = StdRng::seed_from_u64(9);
    let mls = vec![random_ml(&mut rng, 4)];
    let claims: Vec<SumcheckClaim<IdentityCompositionPoly>> =
        mls.iter().map(|m| identity_claim(m.n_vars(), xor_all(m.evals()))).collect();
    let mut data = honest_transcript(&mls);
    data.truncate(data.len() - 1);
    let mut transcript = VerifierTranscript::new(data);
    let r = batch_verify(EvaluationOrder::LowToHigh, &claims, &mut transcript);
    assert!(matches!(r, Err(SumcheckError::NotEnoughBytes)));
}
