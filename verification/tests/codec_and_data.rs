use append_merkle::digest::Digest;
use append_merkle::error::MerkleError;
use append_merkle::initial_data::MerkleTreeInitialData;
use append_merkle::merkle_tree::HashElement;
use append_merkle::optional_hash::OptionalHash;
use append_merkle::proofs::Proof;
use append_merkle::sha3::{zero_hash, zero_hashes, Sha3Algorithm};

fn digest(b: u8) -> Digest {
    let mut bytes = [0u8; 32];
    bytes[0] = b;
    bytes[31] = b.wrapping_mul(3);
    Digest(bytes)
}

#[test]
fn keccak_of_empty_input_matches_known_vector() {
    let expected: [u8; 32] = [
        0xc5, 0xd2, 0x46, 0x01, 0x86, 0xf7, 0x23, 0x3c, 0x92, 0x7e, 0x7d, 0xb2, 0xdc, 0xc7, 0x03,
        0xc0, 0xe5, 0x00, 0xb6, 0x53, 0xca, 0x82, 0x27, 0x3b, 0x7b, 0xfa, 0xd8, 0x04, 0x5d, 0x85,
        0xa4, 0x70,
    ];
    assert_eq!(Sha3Algorithm::leaf_raw(&[]).0, expected);
}

#[test]
fn zero_hash_table_is_the_padding_chain() {
    let table = zero_hashes();
    assert_eq!(table.len(), 64);
    assert_eq!(table[0], Sha3Algorithm::leaf_raw(&[0u8; 256]));
    for i in 1..8 {
        assert_eq!(table[i], Sha3Algorithm::parent_raw(&table[i - 1], &table[i - 1]));
    }
    assert_eq!(zero_hash(7), table[7]);
    assert_eq!(Digest::end_pad(7), table[7]);
    assert_eq!(OptionalHash::end_pad(7), OptionalHash::some(table[7]));
}

#[test]
fn encode_present_value() {
    let d = digest(5);
    let oh = OptionalHash::some(d);
    let mut buf: Vec<u8> = Vec::new();
    oh.ssz_append(&mut buf);
    assert_eq!(buf.len(), 33);
    assert_eq!(buf[0], 1);
    assert_eq!(&buf[1..], &d.0[..]);
}

#[test]
fn encode_absent_value_is_zero_discriminant_and_zero_bytes() {
    let mut buf: Vec<u8> = Vec::new();
    OptionalHash::none().ssz_append(&mut buf);
    assert_eq!(buf, vec![0u8; 33]);
}

#[test]
fn decode_then_encode_reproduces_valid_inputs() {
    let mut present = vec![1u8];
    present.extend_from_slice(&digest(9).0);
    let decoded = OptionalHash::from_ssz_bytes(&present).expect("valid present encoding");
    let mut re = Vec::new();
    decoded.ssz_append(&mut re);
    assert_eq!(re, present);

    let absent = vec![0u8; 33];
    let decoded = OptionalHash::from_ssz_bytes(&absent).expect("valid absent encoding");
    assert!(decoded.is_none());
    let mut re = Vec::new();
    decoded.ssz_append(&mut re);
    assert_eq!(re, absent);
}

#[test]
fn decode_rejects_wrong_length() {
    assert_eq!(
        OptionalHash::from_ssz_bytes(&[1u8; 32]),
        Err(MerkleError::InvalidByteLength)
    );
    assert_eq!(
        OptionalHash::from_ssz_bytes(&[1u8; 34]),
        Err(MerkleError::InvalidByteLength)
    );
    assert_eq!(OptionalHash::from_ssz_bytes(&[]), Err(MerkleError::InvalidByteLength));
}

#[test]
fn decode_rejects_unknown_discriminant() {
    let mut bytes = vec![2u8];
    bytes.extend_from_slice(&[0u8; 32]);
    assert_eq!(
        OptionalHash::from_ssz_bytes(&bytes),
        Err(MerkleError::InvalidDiscriminant)
    );
}

#[test]
fn encoding_widths() {
    assert!(OptionalHash::is_ssz_fixed_len());
    assert_eq!(OptionalHash::ssz_fixed_len(), 33);
    assert_eq!(OptionalHash::none().ssz_bytes_len(), 33);
    assert_eq!(OptionalHash::some(digest(1)).ssz_bytes_len(), 33);
}

#[test]
fn optional_hash_accessors() {
    let d = digest(4);
    let oh = OptionalHash::some(d);
    assert!(oh.is_some());
    assert!(!oh.is_none());
    assert_eq!(oh.unwrap(), d);
    assert_eq!(oh.unwrap_or(digest(9)), d);
    assert_eq!(oh.as_ref(), Some(&d));
    assert_eq!(oh.to_h256_or_zero(), d);

    let none = OptionalHash::none();
    assert!(none.is_none());
    assert_eq!(none.unwrap_or(digest(9)), digest(9));
    assert_eq!(none.as_ref(), None);
    assert_eq!(none.to_h256_or_zero(), Digest::zero());

    assert_eq!(OptionalHash::from(d), oh);
    assert_eq!(OptionalHash::from(Some(d)), oh);
    assert_eq!(OptionalHash::from(None), none);
    assert_eq!(Option::<Digest>::from(oh), Some(d));
}

#[test]
fn proof_conversions_round_trip() {
    let lemma = vec![digest(1), digest(2), digest(3), digest(4)];
    let path = vec![true, false];
    let plain = Proof::new(lemma.clone(), path.clone());
    let optional = OptionalHash::convert_proof_from_h256(plain).expect("wrapping succeeds");
    assert_eq!(optional.path(), &path);
    for (got, want) in optional.lemma().iter().zip(lemma.iter()) {
        assert_eq!(got, &OptionalHash::some(*want));
    }
    let back = OptionalHash::convert_proof_to_h256(optional).expect("unwrapping succeeds");
    assert_eq!(back.lemma(), &lemma);
    assert_eq!(back.path(), &path);
}

#[test]
fn proof_conversion_zeroes_absent_entries() {
    let lemma = vec![
        OptionalHash::some(digest(1)),
        OptionalHash::none(),
        OptionalHash::some(digest(3)),
    ];
    let pr = Proof::new(lemma, vec![true]);
    let plain = OptionalHash::convert_proof_to_h256(pr).expect("conversion succeeds");
    assert_eq!(plain.lemma(), &vec![digest(1), Digest::zero(), digest(3)]);
}

#[test]
fn range_proof_conversion_wraps_both_sides() {
    let left = Proof::new(vec![digest(1), digest(2), digest(3)], vec![true]);
    let right = Proof::new(vec![digest(4), digest(5), digest(6)], vec![false]);
    let rp = append_merkle::proofs::RangeProof { left_proof: left, right_proof: right };
    let wrapped = OptionalHash::convert_range_proof_from_h256(rp).expect("wrapping succeeds");
    assert_eq!(wrapped.left_proof.lemma()[0], OptionalHash::some(digest(1)));
    assert_eq!(wrapped.right_proof.lemma()[2], OptionalHash::some(digest(6)));
    assert_eq!(wrapped.left_proof.path(), &vec![true]);
    assert_eq!(wrapped.right_proof.path(), &vec![false]);
}

#[test]
fn reconstruction_leaf_count_is_sum_of_subtree_sizes() {
    let data = MerkleTreeInitialData {
        subtree_list: vec![(3usize, digest(1)), (2, digest(2)), (1, digest(3))],
        known_leaves: vec![(0usize, digest(7))],
        extra_mpt_nodes: vec![(1usize, 0usize, digest(8))],
    };
    // 2^2 + 2^1 + 2^0 leaves.
    assert_eq!(data.leaves(), 7);
    assert_eq!(data.check_tiling(), Ok(()));
}

#[test]
fn single_subtree_counts() {
    let data: MerkleTreeInitialData<Digest> = MerkleTreeInitialData {
        subtree_list: vec![(1usize, digest(1))],
        known_leaves: vec![],
        extra_mpt_nodes: vec![],
    };
    assert_eq!(data.leaves(), 1);
    assert_eq!(data.check_tiling(), Ok(()));
}

#[test]
fn misaligned_subtree_is_a_tiling_violation() {
    // A depth-3 subtree (4 leaves) cannot start at leaf index 2.
    let data: MerkleTreeInitialData<Digest> = MerkleTreeInitialData {
        subtree_list: vec![(2usize, digest(1)), (3, digest(2))],
        known_leaves: vec![],
        extra_mpt_nodes: vec![],
    };
    assert_eq!(data.check_tiling(), Err(MerkleError::TilingViolation));
}

#[test]
fn zero_depth_is_a_tiling_violation() {
    let data: MerkleTreeInitialData<Digest> = MerkleTreeInitialData {
        subtree_list: vec![(0usize, digest(1))],
        known_leaves: vec![],
        extra_mpt_nodes: vec![],
    };
    assert_eq!(data.check_tiling(), Err(MerkleError::TilingViolation));
}
