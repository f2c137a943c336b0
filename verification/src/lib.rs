//! Core of an append-only binary Merkle tree: hash elements with a
//! first-class "unknown" state, deterministic zero-hash padding, abstract
//! read/write contracts over layered node storage, single-leaf and range
//! proof generation, and the compact data model used to rebuild a tree
//! from subtree roots, known leaves and proof-recovered nodes.

pub mod digest;
pub mod error;
pub mod initial_data;
pub mod merkle_tree;
pub mod optional_hash;
pub mod proofs;
pub mod sha3;
pub mod vec_tree;
