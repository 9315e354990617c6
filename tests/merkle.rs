use hashchain::merkle::{digest_leaf, verify_merkle_proof, MerkleTree};
use hashchain::state::State;

fn compress(a: State, b: State) -> State {
    let mut out = [0u64; 4];
    for i in 0..4 {
        let x = a.limbs[i].wrapping_mul(0x9E37_79B9_7F4A_7C15) ^ b.limbs[(i + 1) % 4].rotate_left(17);
        out[i] = x.wrapping_add(b.limbs[i]).wrapping_mul(0xC2B2_AE3D_27D4_EB4F) % 0xFFFF_FFFF_0000_0001;
    }
    State { limbs: out }
}

fn small_leaves() -> Vec<u64> {
    vec![2890852870, 156728478, 2876514289, 984286162]
}

fn big_leaves() -> Vec<u64> {
    vec![
        14786323743454721611,
        976503040092093812,
        4644130751253292674,
        6522877527545910706,
        11021172818651636092,
        12048403458499719587,
        11457874926809001558,
        14982007443548219923,
        4546369223935415035,
        7205140577604465038,
        4644130751253292674,
        4208177174652750506,
        16147116534354400672,
        18147003476480002882,
        14133393155459789216,
        9890944065319669426,
    ]
}

#[test]
fn merkle_tree_test_build_merkle_tree_4_leaves() {
    let tree = MerkleTree::build(small_leaves(), &compress);
    assert_eq!(tree.count_levels, 2);
    assert_eq!(tree.tree.len(), 2);
    assert_eq!(tree.tree[0].len(), 4);
    assert_eq!(tree.tree[1].len(), 2);
    assert_eq!(tree.root, compress(tree.tree[1][0], tree.tree[1][1]));
}

#[test]
fn merkle_tree_test_build_merkle_tree_16_leaves() {
    let tree = MerkleTree::build(big_leaves(), &compress);
    assert_eq!(tree.count_levels, 4);
    assert_eq!(tree.tree[3].len(), 2);
    assert_eq!(tree.tree[1][0], compress(tree.tree[0][0], tree.tree[0][1]));
}

#[test]
fn merkle_tree_test_verify_small_merkle_proof() {
    let leaves = small_leaves();
    let tree = MerkleTree::build(leaves.clone(), &compress);
    let res_leaf_0 = tree.clone().get_merkle_proof(0);
    let res_leaf_3 = tree.clone().get_merkle_proof(3);
    assert!(verify_merkle_proof(leaves[0], 0, tree.root, res_leaf_0, &compress));
    assert!(verify_merkle_proof(leaves[3], 3, tree.root, res_leaf_3, &compress));
}

#[test]
fn merkle_tree_test_verify_merkle_proof_16() {
    let leaves = big_leaves();
    let tree = MerkleTree::build(leaves.clone(), &compress);
    for i in 0..16 {
        let proof = tree.clone().get_merkle_proof(i);
        assert!(verify_merkle_proof(leaves[i], i, tree.root, proof, &compress));
    }
    let res_leaf_0 = tree.clone().get_merkle_proof(0);
    let res_leaf_1 = tree.clone().get_merkle_proof(1);
    assert!(!verify_merkle_proof(leaves[1], 0, tree.root, res_leaf_0.clone(), &compress));
    assert!(!verify_merkle_proof(leaves[0], 1, tree.root, res_leaf_0.clone(), &compress));
    assert!(!verify_merkle_proof(leaves[0], 0, tree.root, res_leaf_1.clone(), &compress));
    assert!(!verify_merkle_proof(leaves[0], 0, tree.tree[0][0], res_leaf_0.clone(), &compress));
}

#[test]
fn merkle_proof_first_sibling_is_neighbour_leaf() {
    let tree = MerkleTree::build(small_leaves(), &compress);
    let proof = tree.clone().get_merkle_proof(0);
    assert_eq!(proof.len(), 2);
    assert_eq!(proof[0], State { limbs: [156728478, 0, 0, 0] });
    assert_eq!(proof[1], tree.tree[1][1]);
}

#[test]
fn merkle_in_between_hashes_end_at_root() {
    let tree = MerkleTree::build(big_leaves(), &compress);
    let path = tree.clone().get_in_between_hashes(5);
    assert_eq!(path.len(), 4);
    assert_eq!(path[0], tree.tree[1][2]);
    assert_eq!(path[1], tree.tree[2][1]);
    assert_eq!(path[2], tree.tree[3][0]);
    assert_eq!(path[3], tree.root);
}

#[test]
fn leaf_digest_reduces_into_the_field() {
    assert_eq!(digest_leaf(7), State { limbs: [7, 0, 0, 0] });
    assert_eq!(digest_leaf(0xFFFF_FFFF_0000_0003), State { limbs: [2, 0, 0, 0] });
}
