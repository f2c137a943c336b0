//! The concrete Keccak-256 hashing used for leaves, parents and the
//! zero-hash padding table.

use vstd::prelude::*;
use crate::digest::Digest;
use crate::merkle_tree::Algorithm;

verus! {

/// The Keccak-256 digest of a byte sequence. The digest is a pure function
/// of the absorbed bytes, so it can be given a name without stating its
/// pages-long definition.
pub uninterp spec fn keccak_of(data: Seq<u8>) -> [u8; 32];

/// Relies on tiny_keccak's Keccak-256 (`Keccak::v256`, `update`,
/// `finalize`): the 32-byte digest depends on the absorbed bytes alone.
#[verifier::external_body]
fn keccak256(data: &[u8]) -> (r: [u8; 32])
    ensures
        r == keccak_of(data@),
{
    let mut hasher = tiny_keccak::Keccak::v256();
    tiny_keccak::Hasher::update(&mut hasher, data);
    let mut output = [0u8; 32];
    tiny_keccak::Hasher::finalize(hasher, &mut output);
    output
}

/// The digest of a raw leaf payload.
pub open spec fn leaf_hash(data: Seq<u8>) -> Digest {
    Digest(keccak_of(data))
}

/// The digest of a parent node: the hash of the two children's bytes,
/// left first.
pub open spec fn parent_hash(left: Digest, right: Digest) -> Digest {
    Digest(keccak_of(left.0@ + right.0@))
}

/// The Keccak-based hash strategy for plain digests.
pub struct Sha3Algorithm;

impl Sha3Algorithm {
    /// Hashes a raw leaf payload into a digest.
    pub fn leaf_raw(data: &[u8]) -> (r: Digest)
        ensures
            r == leaf_hash(data@),
    {
        Digest(keccak256(data))
    }

    /// Combines two child digests into their parent digest.
    pub fn parent_raw(left: &Digest, right: &Digest) -> (r: Digest)
        ensures
            r == parent_hash(*left, *right),
    {
        let mut buf: Vec<u8> = Vec::new();
        let mut i: usize = 0;
        while i < 32
            invariant
                i <= 32,
                buf@ =~= left.0@.subrange(0, i as int),
            decreases 32 - i,
        {
            buf.push(left.0[i]);
            i = i + 1;
        }
        let mut j: usize = 0;
        while j < 32
            invariant
                j <= 32,
                buf@ =~= left.0@ + right.0@.subrange(0, j as int),
            decreases 32 - j,
        {
            buf.push(right.0[j]);
            j = j + 1;
        }
        assert(buf@ =~= left.0@ + right.0@);
        Digest(keccak256(buf.as_slice()))
    }
}

impl Algorithm<Digest> for Sha3Algorithm {
    open spec fn leaf_spec(data: Seq<u8>) -> Digest {
        leaf_hash(data)
    }

    open spec fn parent_spec(left: Digest, right: Digest) -> Digest {
        parent_hash(left, right)
    }

    fn leaf(data: &[u8]) -> (r: Digest) {
        Self::leaf_raw(data)
    }

    fn parent(left: &Digest, right: &Digest) -> (r: Digest) {
        Self::parent_raw(left, right)
    }
}

/// The number of entries in the zero-hash padding table: one padding
/// digest for each possible subtree height.
pub const ZERO_HASH_COUNT: usize = 64;

/// The all-zero 256-byte block whose leaf hash starts the zero-hash chain.
pub open spec fn zero_block() -> Seq<u8> {
    Seq::new(256, |i: int| 0u8)
}

/// The deterministic padding digest for an incomplete subtree of the given
/// height: at height 0 the hash of an all-zero leaf block, above that the
/// parent hash of two copies of the previous entry.
pub open spec fn zero_hash_spec(height: nat) -> Digest
    decreases height,
{
    if height == 0 {
        leaf_hash(zero_block())
    } else {
        parent_hash(zero_hash_spec((height - 1) as nat), zero_hash_spec((height - 1) as nat))
    }
}

/// Computes the zero-hash chain entry for one height.
pub fn zero_hash(height: usize) -> (r: Digest)
    requires
        height < ZERO_HASH_COUNT,
    ensures
        r == zero_hash_spec(height as nat),
{
    let block = [0u8; 256];
    assert(block@ =~= zero_block());
    let mut h = Sha3Algorithm::leaf_raw(block.as_slice());
    let mut i: usize = 0;
    while i < height
        invariant
            i <= height,
            h == zero_hash_spec(i as nat),
        decreases height - i,
    {
        h = Sha3Algorithm::parent_raw(&h, &h);
        i = i + 1;
    }
    h
}

/// Computes the whole zero-hash table, index 0 first. A process that wants
/// the table computed only once can hold this result behind a one-time
/// initialization guard.
pub fn zero_hashes() -> (r: Vec<Digest>)
    ensures
        r@.len() == ZERO_HASH_COUNT,
        forall|h: int| 0 <= h < ZERO_HASH_COUNT ==> r@[h] == zero_hash_spec(h as nat),
{
    let block = [0u8; 256];
    assert(block@ =~= zero_block());
    let mut h = Sha3Algorithm::leaf_raw(block.as_slice());
    let mut table: Vec<Digest> = Vec::new();
    table.push(h);
    let mut i: usize = 1;
    while i < ZERO_HASH_COUNT
        invariant
            1 <= i <= ZERO_HASH_COUNT,
            table@.len() == i,
            h == zero_hash_spec((i - 1) as nat),
            forall|k: int| 0 <= k < i ==> table@[k] == zero_hash_spec(k as nat),
        decreases ZERO_HASH_COUNT - i,
    {
        h = Sha3Algorithm::parent_raw(&h, &h);
        table.push(h);
        i = i + 1;
    }
    table
}

} // verus!
