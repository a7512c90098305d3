use tower_pcs::code::ReedSolomonCode;
use tower_pcs::params::{
    calculate_n_test_queries, calculate_n_test_queries_reed_solomon, find_proof_size_optimal_pcs,
    PcsFieldConfig, PcsParams,
};

#[test]
fn test_proof_size() {
    let rs_code = ReedSolomonCode::new(5, 2).unwrap();
    let n_test_queries = calculate_n_test_queries_reed_solomon(100, 8, &rs_code).unwrap();
    // The 32-bit-scalar instantiation of the scheme at log_rows = 8.
    let pcs = PcsParams {
        log_rows: 8,
        log_dim: 5,
        log_inv_rate: 2,
        n_test_queries,
        cfg: PcsFieldConfig { log_degree: 0, pi_scalar_bytes: 4, fa_bits: 30 },
    };

    assert_eq!(pcs.proof_size(1), 182720);
    assert_eq!(pcs.proof_size(2), 332224);
}

#[test]
fn test_proof_size_optimal_block_pcs() {
    // 1-bit witnesses packed into 16-bit intermediate scalars over a 16-bit
    // alphabet.
    let cfg = PcsFieldConfig { log_degree: 4, pi_scalar_bytes: 2, fa_bits: 16 };
    let pcs = find_proof_size_optimal_pcs(100, 28, 1, 2, false, cfg).unwrap();
    assert_eq!(pcs.n_vars(), 28);
    assert_eq!(pcs.log_rows(), 12);
    assert_eq!(pcs.log_cols(), 16);

    // Matrix should be wider with more polynomials per batch.
    let cfg = PcsFieldConfig { log_degree: 4, pi_scalar_bytes: 2, fa_bits: 16 };
    let pcs = find_proof_size_optimal_pcs(100, 28, 8, 2, false, cfg).unwrap();
    assert_eq!(pcs.n_vars(), 28);
    assert_eq!(pcs.log_rows(), 10);
    assert_eq!(pcs.log_cols(), 18);
}

#[test]
fn test_proof_size_optimal_basic_pcs() {
    // 32-bit witnesses with the alphabet equal to the witness field.
    let cfg = PcsFieldConfig { log_degree: 0, pi_scalar_bytes: 4, fa_bits: 30 };
    let pcs = find_proof_size_optimal_pcs(100, 28, 1, 2, false, cfg).unwrap();
    assert_eq!(pcs.n_vars(), 28);
    assert_eq!(pcs.log_rows(), 11);
    assert_eq!(pcs.log_cols(), 17);

    // Matrix should be wider with more polynomials per batch.
    let cfg = PcsFieldConfig { log_degree: 0, pi_scalar_bytes: 4, fa_bits: 30 };
    let pcs = find_proof_size_optimal_pcs(100, 28, 8, 2, false, cfg).unwrap();
    assert_eq!(pcs.n_vars(), 28);
    assert_eq!(pcs.log_rows(), 10);
    assert_eq!(pcs.log_cols(), 18);
}

#[test]
fn test_general_bound_needs_more_queries() {
    // The general linear-code bound is weaker than the Reed-Solomon one, so
    // it needs at least as many queries.
    let rs_code = ReedSolomonCode::new(5, 2).unwrap();
    let q_rs = calculate_n_test_queries_reed_solomon(100, 8, &rs_code).unwrap();
    let q_gen = calculate_n_test_queries(100, 8, &rs_code).unwrap();
    assert!(q_gen >= q_rs);
    assert_eq!(q_rs, 146);
}

#[test]
fn test_code_rejects_large_field() {
    assert!(ReedSolomonCode::new(7, 2).is_err());
    assert!(ReedSolomonCode::new(5, 2).is_ok());
}

#[test]
fn test_encode_systematic() {
    // The first `dim` positions of each message survive encoding.
    let code = ReedSolomonCode::new(2, 1).unwrap();
    let mut buf: Vec<u8> = vec![0; 8 * 2];
    // Two interleaved messages of four symbols.
    for i in 0..4 {
        buf[2 * i] = (i as u8) + 1;
        buf[2 * i + 1] = 0x10 + (i as u8);
    }
    let msgs = buf.clone();
    code.encode_batch_inplace(&mut buf, 1).unwrap();
    for i in 0..4 {
        assert_eq!(buf[2 * i], msgs[2 * i]);
        assert_eq!(buf[2 * i + 1], msgs[2 * i + 1]);
    }
    // A codeword of the repeated-message form: encoding is linear, so the
    // all-zero message encodes to the all-zero codeword.
    let mut zero: Vec<u8> = vec![0; 8 * 2];
    code.encode_batch_inplace(&mut zero, 1).unwrap();
    assert!(zero.iter().all(|&b| b == 0));
}
