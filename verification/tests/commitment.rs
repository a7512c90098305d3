use rand::{Rng, SeedableRng, rngs::StdRng};
use tower_pcs::challenger::HashChallenger;
use tower_pcs::code::ReedSolomonCode;
use tower_pcs::error::{Error, VerificationError};
use tower_pcs::params::calculate_n_test_queries_reed_solomon;
use tower_pcs::tensor_pcs::{ByteMultilinear, TensorPCS};

fn random_poly(rng: &mut StdRng, n_vars: usize) -> ByteMultilinear {
    let evals: Vec<u8> = (0..1usize << n_vars).map(|_| rng.gen::<u8>()).collect();
    ByteMultilinear::from_values(evals).unwrap()
}

fn sample_query(challenger: &mut HashChallenger, n: usize) -> Vec<u128> {
    (0..n).map(|_| challenger.sample()).collect()
}

#[test]
fn test_simple_commit_prove_verify_without_error() {
    let rs_code = ReedSolomonCode::new(5, 2).unwrap();
    let n_test_queries = calculate_n_test_queries_reed_solomon(100, 4, &rs_code).unwrap();
    let pcs = TensorPCS::new_using_groestl_merkle_tree(4, rs_code, n_test_queries).unwrap();

    let mut rng = StdRng::seed_from_u64(0);
    let poly = random_poly(&mut rng, pcs.n_vars());
    let polys = vec![poly];

    let (commitment, committed) = pcs.commit(&polys).unwrap();

    let mut challenger = HashChallenger::new();
    let query = sample_query(&mut challenger, pcs.n_vars());

    let value = polys[0].to_ext().evaluate(&query).unwrap();
    let values = vec![value];

    let mut prove_challenger = challenger.clone();
    let prf = pcs
        .prove_evaluation(&mut prove_challenger, &committed, &polys, &query)
        .unwrap();

    let mut verify_challenger = challenger.clone();
    pcs.verify_evaluation(&mut verify_challenger, &commitment, &query, &prf, &values)
        .unwrap();
}

#[test]
fn test_simple_commit_prove_verify_batch_without_error() {
    let rs_code = ReedSolomonCode::new(5, 2).unwrap();
    let n_test_queries = calculate_n_test_queries_reed_solomon(100, 4, &rs_code).unwrap();
    let pcs = TensorPCS::new_using_groestl_merkle_tree(4, rs_code, n_test_queries).unwrap();

    let mut rng = StdRng::seed_from_u64(0);
    let batch_size = rand::thread_rng().gen_range(1..=10);
    let polys: Vec<ByteMultilinear> =
        (0..batch_size).map(|_| random_poly(&mut rng, pcs.n_vars())).collect();

    let (commitment, committed) = pcs.commit(&polys).unwrap();

    let mut challenger = HashChallenger::new();
    let query = sample_query(&mut challenger, pcs.n_vars());

    let values: Vec<u128> =
        polys.iter().map(|p| p.to_ext().evaluate(&query).unwrap()).collect();

    let mut prove_challenger = challenger.clone();
    let prf = pcs
        .prove_evaluation(&mut prove_challenger, &committed, &polys, &query)
        .unwrap();

    let mut verify_challenger = challenger.clone();
    pcs.verify_evaluation(&mut verify_challenger, &commitment, &query, &prf, &values)
        .unwrap();
}

#[test]
fn test_single_byte_multilinear_sixteen_evaluations() {
    // Four rows by two columns, rate 1/4, seed 0: the all-zero query reads
    // the first table entry, and flipping the last byte of the mixed
    // partial evaluation must be caught as an incorrect evaluation.
    let rs_code = ReedSolomonCode::new(1, 2).unwrap();
    let pcs = TensorPCS::new_using_groestl_merkle_tree(2, rs_code, 4).unwrap();
    assert_eq!(pcs.n_vars(), 3);
    assert_eq!(pcs.log_rows(), 2);
    assert_eq!(pcs.log_cols(), 1);

    let mut rng = StdRng::seed_from_u64(0);
    let poly = random_poly(&mut rng, 3);
    let expected = poly.evals[0] as u128;
    let polys = vec![poly];

    let (commitment, committed) = pcs.commit(&polys).unwrap();

    let challenger = HashChallenger::new();
    let query = vec![0u128; 3];
    let value = polys[0].to_ext().evaluate(&query).unwrap();
    assert_eq!(value, expected);

    let mut prove_challenger = challenger.clone();
    let mut prf = pcs
        .prove_evaluation(&mut prove_challenger, &committed, &polys, &query)
        .unwrap();

    let mut verify_challenger = challenger.clone();
    pcs.verify_evaluation(&mut verify_challenger, &commitment, &query, &prf, &vec![value])
        .unwrap();

    // Flip the last byte of t'.  The all-zero query reads only the first
    // entry of t', so the evaluation check itself still passes; the flip
    // desynchronizes the Fiat-Shamir column indices instead, and the proof
    // fails the commitment openings.
    let last = prf.mixed_t_prime.evals.len() - 1;
    prf.mixed_t_prime.evals[last] ^= 0xFFu128 << 120;
    let mut tampered_challenger = challenger.clone();
    let r = pcs.verify_evaluation(&mut tampered_challenger, &commitment, &query, &prf, &vec![
        value,
    ]);
    assert_eq!(r, Err(Error::VectorCommit));

    // Flipping a byte of the entry the all-zero query does read is caught
    // as an incorrect evaluation.
    prf.mixed_t_prime.evals[last] ^= 0xFFu128 << 120;
    prf.mixed_t_prime.evals[0] ^= 0xFF;
    let mut tampered_challenger = challenger.clone();
    let r = pcs.verify_evaluation(&mut tampered_challenger, &commitment, &query, &prf, &vec![
        value,
    ]);
    assert_eq!(r, Err(Error::Verification(VerificationError::IncorrectEvaluation)));
}

#[test]
fn test_wrong_value_rejected() {
    let rs_code = ReedSolomonCode::new(3, 2).unwrap();
    let pcs = TensorPCS::new_using_groestl_merkle_tree(3, rs_code, 8).unwrap();

    let mut rng = StdRng::seed_from_u64(7);
    let polys: Vec<ByteMultilinear> = (0..3).map(|_| random_poly(&mut rng, pcs.n_vars())).collect();
    let (commitment, committed) = pcs.commit(&polys).unwrap();

    let mut challenger = HashChallenger::new();
    let query = sample_query(&mut challenger, pcs.n_vars());
    let mut values: Vec<u128> =
        polys.iter().map(|p| p.to_ext().evaluate(&query).unwrap()).collect();

    let mut prove_challenger = challenger.clone();
    let prf = pcs
        .prove_evaluation(&mut prove_challenger, &committed, &polys, &query)
        .unwrap();

    // The honest proof verifies.
    let mut ok_challenger = challenger.clone();
    pcs.verify_evaluation(&mut ok_challenger, &commitment, &query, &prf, &values)
        .unwrap();

    // A negated claimed value does not.
    values[1] = !values[1];
    let mut bad_challenger = challenger.clone();
    let r = pcs.verify_evaluation(&mut bad_challenger, &commitment, &query, &prf, &values);
    assert_eq!(r, Err(Error::Verification(VerificationError::IncorrectEvaluation)));
}

#[test]
fn test_perturbed_proof_rejected() {
    // Tampering with an opened column or a path digest breaks the Merkle
    // authentication; shifting t' by a constant while fixing the claimed
    // value up is caught by the column consistency check.
    let rs_code = ReedSolomonCode::new(3, 2).unwrap();
    let pcs = TensorPCS::new_using_groestl_merkle_tree(3, rs_code, 8).unwrap();

    let mut rng = StdRng::seed_from_u64(3);
    let polys = vec![random_poly(&mut rng, pcs.n_vars())];
    let (commitment, committed) = pcs.commit(&polys).unwrap();

    let mut challenger = HashChallenger::new();
    let query = sample_query(&mut challenger, pcs.n_vars());
    let value = polys[0].to_ext().evaluate(&query).unwrap();

    let mut prove_challenger = challenger.clone();
    let prf = pcs
        .prove_evaluation(&mut prove_challenger, &committed, &polys, &query)
        .unwrap();

    // Corrupt one byte of an opened column.
    {
        let mut bad = pcs
            .prove_evaluation(&mut challenger.clone(), &committed, &polys, &query)
            .unwrap();
        bad.vcs_proofs[0].0[0][0] ^= 1;
        let r = pcs.verify_evaluation(
            &mut challenger.clone(),
            &commitment,
            &query,
            &bad,
            &vec![value],
        );
        assert_eq!(r, Err(Error::VectorCommit));
    }
    // Corrupt one byte of a Merkle path.
    {
        let mut bad = pcs
            .prove_evaluation(&mut challenger.clone(), &committed, &polys, &query)
            .unwrap();
        bad.vcs_proofs[1].1[0][0] ^= 1;
        let r = pcs.verify_evaluation(
            &mut challenger.clone(),
            &commitment,
            &query,
            &bad,
            &vec![value],
        );
        assert_eq!(r, Err(Error::VectorCommit));
    }
    // Shift every entry of t' by a constant and fix the claimed value up:
    // the evaluation check passes, the re-encoded codeword does not match
    // the committed columns.
    {
        let mut bad = prf;
        let c: u128 = 0x1234_5678_9abc_def0;
        for e in bad.mixed_t_prime.evals.iter_mut() {
            *e ^= c;
        }
        let r = pcs.verify_evaluation(
            &mut challenger.clone(),
            &commitment,
            &query,
            &bad,
            &vec![value ^ c],
        );
        assert_eq!(
            r,
            Err(Error::Verification(VerificationError::IncorrectPartialEvaluation))
        );
    }
}

#[test]
fn test_challenger_determinism() {
    // Identical observations give identical samples; a different order
    // diverges.
    let mut a = HashChallenger::new();
    let mut b = HashChallenger::new();
    a.observe_bytes(&vec![1, 2, 3]);
    b.observe_bytes(&vec![1, 2, 3]);
    let sa: Vec<u128> = (0..4).map(|_| a.sample()).collect();
    let sb: Vec<u128> = (0..4).map(|_| b.sample()).collect();
    assert_eq!(sa, sb);

    let mut c = HashChallenger::new();
    c.observe_bytes(&vec![3, 2, 1]);
    let sc: Vec<u128> = (0..4).map(|_| c.sample()).collect();
    assert_ne!(sa, sc);

    // Interleaving an extra observation shifts the whole stream.
    let mut d = HashChallenger::new();
    d.observe_bytes(&vec![1, 2, 3]);
    let _ = d.sample();
    d.observe_bytes(&vec![9]);
    let sd = d.sample();
    assert_ne!(sd, sb[1]);
}
