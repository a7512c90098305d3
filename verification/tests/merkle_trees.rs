use rand::{Rng, SeedableRng, rngs::StdRng};
use tower_pcs::merkle::MerkleTree;

#[test]
fn test_merkle_tree() {
    let leaves: Vec<Vec<u8>> = (0..8u8).map(|i| vec![i; 32]).collect();
    let tree = MerkleTree::new(&leaves).unwrap();
    let path = tree.merkle_path(0);
    let root = tree.root_digest();
    let leaf = leaves[0].clone();
    assert!(MerkleTree::verify_path(&path, &root, &leaf, 0));

    assert_eq!(tree.depth, 3);
}

#[test]
fn test_high_level_model_inclusion() {
    let mut rng = StdRng::from_seed([0; 32]);
    let path_index: usize = rng.gen_range(0..1 << 10);
    let leaves: Vec<Vec<u8>> = (0..1 << 10)
        .map(|_| rng.gen::<[u8; 32]>().to_vec())
        .collect();

    let tree = MerkleTree::new(&leaves).unwrap();
    let root = tree.root_digest();
    let path = tree.merkle_path(path_index);
    assert!(MerkleTree::verify_path(&path, &root, &leaves[path_index], path_index));
}

#[test]
fn test_high_level_model_inclusion_multiple_paths() {
    let mut rng = StdRng::from_seed([0; 32]);

    let leaves: Vec<Vec<u8>> = (0..1 << 10)
        .map(|_| rng.gen::<[u8; 32]>().to_vec())
        .collect();

    let tree = MerkleTree::new(&leaves).unwrap();
    let root = tree.root_digest();
    for _ in 0..5 {
        let path_index: usize = rng.gen_range(0..1 << 10);
        let path = tree.merkle_path(path_index);
        assert!(MerkleTree::verify_path(&path, &root, &leaves[path_index], path_index));
    }
}

#[test]
fn test_high_level_model_inclusion_multiple_roots() {
    let mut rng = StdRng::from_seed([0; 32]);
    let path_index: usize = rng.gen_range(0..1 << 10);
    let all_leaves: Vec<Vec<Vec<u8>>> = (0..3)
        .map(|_| (0..1 << 10).map(|_| rng.gen::<[u8; 32]>().to_vec()).collect())
        .collect();

    let trees: Vec<MerkleTree> = all_leaves.iter().map(|l| MerkleTree::new(l).unwrap()).collect();
    for (i, tree) in trees.iter().enumerate() {
        let root = tree.root_digest();
        let path = tree.merkle_path(path_index);
        assert!(MerkleTree::verify_path(&path, &root, &all_leaves[i][path_index], path_index));
    }
}

#[test]
fn test_merkle_rejects_wrong_leaf() {
    let leaves: Vec<Vec<u8>> = (0..8u8).map(|i| vec![i; 32]).collect();
    let tree = MerkleTree::new(&leaves).unwrap();
    let path = tree.merkle_path(3);
    let root = tree.root_digest();
    assert!(MerkleTree::verify_path(&path, &root, &leaves[3], 3));
    assert!(!MerkleTree::verify_path(&path, &root, &leaves[4], 3));
    let mut bad_root = root.clone();
    bad_root[0] ^= 1;
    assert!(!MerkleTree::verify_path(&path, &bad_root, &leaves[3], 3));
}
