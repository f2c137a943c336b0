use append_merkle::digest::Digest;
use append_merkle::error::MerkleError;
use append_merkle::merkle_tree::{Algorithm, HashElement, MerkleTreeRead, MerkleTreeWrite};
use append_merkle::optional_hash::OptionalHash;
use append_merkle::sha3::{zero_hash, Sha3Algorithm};
use append_merkle::vec_tree::VecTree;

fn leaf(i: u8) -> Digest {
    Sha3Algorithm::leaf_raw(&[i])
}

fn some_leaf(i: u8) -> OptionalHash {
    OptionalHash::some(leaf(i))
}

fn parent(a: &OptionalHash, b: &OptionalHash) -> OptionalHash {
    OptionalHash::some(Sha3Algorithm::parent_raw(&a.unwrap(), &b.unwrap()))
}

/// A fully populated 4-leaf tree over optional hashes.
fn four_leaf_tree() -> VecTree<OptionalHash> {
    let l: Vec<OptionalHash> = (0..4).map(|i| some_leaf(i as u8)).collect();
    let p01 = parent(&l[0], &l[1]);
    let p23 = parent(&l[2], &l[3]);
    let root = parent(&p01, &p23);
    VecTree { layers: vec![l, vec![p01, p23], vec![root]] }
}

/// A fully populated 3-leaf tree: the unpaired last leaf is padded.
fn three_leaf_tree() -> VecTree<OptionalHash> {
    let l: Vec<OptionalHash> = (0..3).map(|i| some_leaf(i as u8)).collect();
    let p01 = parent(&l[0], &l[1]);
    let p2 = parent(&l[2], &OptionalHash::some(zero_hash(0)));
    let root = parent(&p01, &p2);
    VecTree { layers: vec![l, vec![p01, p2], vec![root]] }
}

#[test]
fn four_leaf_proof_example() {
    let tree = four_leaf_tree();
    let l1 = some_leaf(1);
    let l0 = some_leaf(0);
    let p23 = parent(&some_leaf(2), &some_leaf(3));
    let root = tree.root();
    let proof = tree.gen_proof(1).expect("proof for leaf 1");
    assert_eq!(proof.lemma(), &vec![l1, l0, p23, root]);
    assert_eq!(proof.path(), &vec![false, true]);
}

#[test]
fn proof_round_trip_fully_populated() {
    let tree = four_leaf_tree();
    let root = tree.root();
    for i in 0..tree.leaves() {
        let proof = tree.gen_proof(i).expect("fully populated tree proves every leaf");
        let lemma = proof.lemma();
        assert_eq!(lemma[0], tree.node(0, i));
        assert_eq!(*lemma.last().unwrap(), root);
        assert_eq!(lemma.len(), proof.path().len() + 2);
    }
}

#[test]
fn single_layer_self_proof() {
    let l0 = some_leaf(0);
    let tree = VecTree { layers: vec![vec![l0]] };
    let proof = tree.gen_proof(0).expect("single-leaf tree proves its root");
    assert_eq!(proof.lemma(), &vec![l0, l0]);
    assert!(proof.path().is_empty());
}

#[test]
fn boundary_proof_uses_padding() {
    let tree = three_leaf_tree();
    let proof = tree.gen_proof(2).expect("last leaf of an odd layer");
    let pad = OptionalHash::some(zero_hash(0));
    assert_eq!(proof.lemma()[1], pad);
    assert_eq!(proof.path(), &vec![true, false]);
}

#[test]
fn out_of_bounds_leaf_is_rejected() {
    let tree = four_leaf_tree();
    assert_eq!(tree.gen_proof(4).err(), Some(MerkleError::IndexOutOfBounds));
    assert_eq!(tree.gen_proof(100).err(), Some(MerkleError::IndexOutOfBounds));
}

#[test]
fn null_leaf_is_not_ready() {
    let mut tree = four_leaf_tree();
    tree.update_node(0, 1, OptionalHash::none());
    assert_eq!(tree.gen_proof(1).err(), Some(MerkleError::NotReady));
    // The other leaves are still known themselves.
    assert!(tree.gen_proof(3).is_ok());
}

#[test]
fn null_sibling_is_incomplete_data() {
    let mut tree = four_leaf_tree();
    // Leaf 0 is known, but the interior sibling above it is not.
    tree.update_node(1, 1, OptionalHash::none());
    assert_eq!(tree.gen_proof(0).err(), Some(MerkleError::IncompleteData));
}

#[test]
fn null_ancestor_is_incomplete_data() {
    let mut tree = four_leaf_tree();
    tree.update_node(2, 0, OptionalHash::none());
    assert_eq!(tree.gen_proof(0).err(), Some(MerkleError::IncompleteData));
}

#[test]
fn empty_range_is_invalid() {
    let tree = four_leaf_tree();
    assert_eq!(tree.gen_range_proof(1, 1).err(), Some(MerkleError::InvalidRange));
    assert_eq!(tree.gen_range_proof(2, 1).err(), Some(MerkleError::InvalidRange));
}

#[test]
fn range_proof_brackets_the_range() {
    let tree = four_leaf_tree();
    let rp = tree.gen_range_proof(0, 3).expect("range over known leaves");
    let left = tree.gen_proof(0).unwrap();
    let right = tree.gen_proof(2).unwrap();
    assert_eq!(rp.left_proof.lemma(), left.lemma());
    assert_eq!(rp.left_proof.path(), left.path());
    assert_eq!(rp.right_proof.lemma(), right.lemma());
    assert_eq!(rp.right_proof.path(), right.path());
}

#[test]
fn range_proof_propagates_single_proof_failures() {
    let mut tree = four_leaf_tree();
    tree.update_node(0, 2, OptionalHash::none());
    assert_eq!(tree.gen_range_proof(2, 4).err(), Some(MerkleError::NotReady));
    assert_eq!(tree.gen_range_proof(0, 3).err(), Some(MerkleError::NotReady));
    assert_eq!(tree.gen_range_proof(4, 5).err(), Some(MerkleError::IndexOutOfBounds));
}

#[test]
fn determinism_same_leaves_same_root() {
    // Build the same final node assignment through different write paths.
    let direct = four_leaf_tree();
    let mut grown: VecTree<OptionalHash> = VecTree::with_height(3);
    grown.append_nodes(0, &[some_leaf(0), some_leaf(1)]);
    grown.push_node(0, some_leaf(2));
    grown.push_node(0, some_leaf(3));
    grown.push_node(1, OptionalHash::none());
    grown.push_node(1, parent(&some_leaf(2), &some_leaf(3)));
    grown.update_node(1, 0, parent(&some_leaf(0), &some_leaf(1)));
    grown.push_node(2, direct.root());
    assert_eq!(grown.root(), direct.root());
    assert_eq!(
        grown.gen_proof(1).unwrap().lemma(),
        direct.gen_proof(1).unwrap().lemma()
    );
    assert_eq!(
        grown.gen_proof(1).unwrap().path(),
        direct.gen_proof(1).unwrap().path()
    );
}

#[test]
fn write_contract_mutates_layers() {
    let mut tree: VecTree<OptionalHash> = VecTree::with_height(2);
    tree.push_node(0, some_leaf(7));
    tree.append_nodes(0, &[some_leaf(8), some_leaf(9)]);
    assert_eq!(tree.layer_len(0), 3);
    assert_eq!(tree.node(0, 0), some_leaf(7));
    assert_eq!(tree.node(0, 1), some_leaf(8));
    assert_eq!(tree.node(0, 2), some_leaf(9));
    tree.update_node(0, 1, some_leaf(42));
    assert_eq!(tree.node(0, 1), some_leaf(42));
    assert_eq!(tree.layer_len(1), 0);
    assert_eq!(tree.height(), 2);
}

#[test]
fn shape_accessors() {
    let tree = four_leaf_tree();
    assert_eq!(tree.height(), 3);
    assert_eq!(tree.leaves(), 4);
    assert_eq!(tree.layer_len(0), 4);
    assert_eq!(tree.layer_len(1), 2);
    assert_eq!(tree.layer_len(2), 1);
    assert_eq!(tree.root(), tree.node(2, 0));
    assert_eq!(tree.padding_node(5), OptionalHash::some(zero_hash(5)));
}

#[test]
fn parent_single_pads_with_end_pad() {
    let x = leaf(11);
    for h in 0..8usize {
        let padded = <Sha3Algorithm as Algorithm<Digest>>::parent_single(&x, h);
        let expected = Sha3Algorithm::parent_raw(&x, &Digest::end_pad(h));
        assert_eq!(padded, expected);
    }
}

#[test]
fn plain_digest_tree() {
    let l0 = leaf(0);
    let l1 = leaf(1);
    let p = Sha3Algorithm::parent_raw(&l0, &l1);
    let tree = VecTree { layers: vec![vec![l0, l1], vec![p]] };
    let proof = tree.gen_proof(0).expect("two known digest leaves");
    assert_eq!(proof.lemma(), &vec![l0, l1, p]);
    assert_eq!(proof.path(), &vec![true]);
    // A zero digest doubles as "unknown" for the plain element type.
    let mut sparse = tree;
    sparse.update_node(0, 0, Digest::null());
    assert_eq!(sparse.gen_proof(0).err(), Some(MerkleError::NotReady));
}

#[test]
fn null_element_properties() {
    let n = OptionalHash::null();
    assert!(n.is_null());
    assert!(n.is_none());
    assert!(!OptionalHash::some(leaf(1)).is_null());
    let z = Digest::null();
    assert!(z.is_null());
    assert_eq!(z, Digest::zero());
    assert!(!leaf(1).is_null());
}
