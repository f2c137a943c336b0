//! The canonical hash element: a digest that is either present or absent.
//! Absence is a first-class state, never an all-zero digest, so a tree can
//! tell "genuinely zero hash" apart from "not yet known".

use vstd::prelude::*;
use crate::digest::Digest;
use crate::error::MerkleError;
use crate::merkle_tree::HashElement;
use crate::proofs::{Proof, RangeProof};
use crate::sha3::{zero_hash, zero_hash_spec};

verus! {

/// The number of bytes of an encoded hash element: one discriminant byte
/// and 32 digest bytes.
pub const ENCODED_LEN: usize = 33;

/// A wrapper around an optional digest that properly handles unknown
/// hashes.
#[derive(Clone, Copy, Debug, PartialEq, Eq, Hash)]
pub struct OptionalHash(pub Option<Digest>);

impl OptionalHash {
    /// The fixed 33-byte encoding: a discriminant byte (1 for a present
    /// digest, 0 for an absent one) followed by the digest bytes, all zero
    /// when absent.
    pub open spec fn encoding_spec(&self) -> Seq<u8> {
        match self.0 {
            Some(d) => seq![1u8] + d.0@,
            None => seq![0u8] + Seq::new(32, |i: int| 0u8),
        }
    }

    /// The byte sequences that are the encoding of some value: 33 bytes,
    /// either discriminant 1 with any digest, or discriminant 0 with all
    /// zeroes after it.
    pub open spec fn is_valid_encoding(bytes: Seq<u8>) -> bool {
        &&& bytes.len() == ENCODED_LEN
        &&& (bytes[0] == 1 || (bytes[0] == 0 && forall|i: int| 1 <= i < 33 ==> bytes[i] == 0))
    }

    /// Wraps a present digest.
    pub fn some(hash: Digest) -> (r: Self)
        ensures
            r.0 == Some(hash),
    {
        OptionalHash(Some(hash))
    }

    /// The absent value.
    pub fn none() -> (r: Self)
        ensures
            r.0 is None,
    {
        OptionalHash(None)
    }

    /// Whether a digest is present.
    pub fn is_some(&self) -> (r: bool)
        ensures
            r == (self.0 is Some),
    {
        self.0.is_some()
    }

    /// Whether the digest is absent.
    pub fn is_none(&self) -> (r: bool)
        ensures
            r == (self.0 is None),
    {
        self.0.is_none()
    }

    /// The wrapped digest, on values known to hold one.
    pub fn unwrap(&self) -> (r: Digest)
        requires
            self.0 is Some,
        ensures
            self.0 == Some(r),
    {
        self.0.unwrap()
    }

    /// The wrapped digest, or the given default where absent.
    pub fn unwrap_or(&self, default: Digest) -> (r: Digest)
        ensures
            r == self.0.unwrap_or(default),
    {
        self.0.unwrap_or(default)
    }

    /// A borrow of the wrapped digest, where present.
    pub fn as_ref(&self) -> (r: Option<&Digest>)
        ensures
            r is Some <==> self.0 is Some,
            r is Some ==> self.0 == Some(*r.unwrap()),
    {
        self.0.as_ref()
    }

    /// The wrapped digest, or the all-zero digest where absent: the byte
    /// view that generic byte-level code sees. Equality logic must never
    /// use this fallback to detect absence.
    pub fn to_h256_or_zero(&self) -> (r: Digest)
        ensures
            self.0 is Some ==> self.0 == Some(r),
            self.0 is None ==> r.is_zero_spec(),
    {
        match &self.0 {
            Some(d) => *d,
            None => Digest::zero(),
        }
    }

    /// The encoding is fixed-width.
    pub fn is_ssz_fixed_len() -> (r: bool)
        ensures
            r,
    {
        true
    }

    /// The width of every encoded value.
    pub fn ssz_fixed_len() -> (r: usize)
        ensures
            r == ENCODED_LEN,
    {
        ENCODED_LEN
    }

    /// The width of this value's encoding.
    pub fn ssz_bytes_len(&self) -> (r: usize)
        ensures
            r == self.encoding_spec().len(),
    {
        ENCODED_LEN
    }

    /// Appends the 33-byte encoding of this value to a buffer.
    pub fn ssz_append(&self, buf: &mut Vec<u8>)
        ensures
            final(buf)@ == old(buf)@ + self.encoding_spec(),
    {
        match &self.0 {
            Some(d) => {
                let dcopy = *d;
                buf.push(1);
                proof {
                    assert(buf@ =~= old(buf)@ + seq![1u8] + dcopy.0@.subrange(0, 0));
                }
                let mut i: usize = 0;
                while i < 32
                    invariant
                        i <= 32,
                        buf@ == old(buf)@ + seq![1u8] + dcopy.0@.subrange(0, i as int),
                    decreases 32 - i,
                {
                    buf.push(dcopy.0[i]);
                    i = i + 1;
                    proof {
                        assert(buf@ =~= old(buf)@ + seq![1u8] + dcopy.0@.subrange(0, i as int));
                    }
                }
                proof {
                    assert(dcopy.0@.subrange(0, 32) =~= dcopy.0@);
                    assert(buf@ =~= old(buf)@ + self.encoding_spec());
                }
            },
            None => {
                buf.push(0);
                proof {
                    assert(buf@ =~= old(buf)@ + seq![0u8] + Seq::new(0, |j: int| 0u8));
                }
                let mut i: usize = 0;
                while i < 32
                    invariant
                        i <= 32,
                        buf@ == old(buf)@ + seq![0u8] + Seq::new(i as nat, |j: int| 0u8),
                    decreases 32 - i,
                {
                    buf.push(0);
                    i = i + 1;
                    proof {
                        assert(buf@ =~= old(buf)@ + seq![0u8] + Seq::new(i as nat, |j: int| 0u8));
                    }
                }
                proof {
                    assert(buf@ =~= old(buf)@ + self.encoding_spec());
                }
            },
        }
    }

    /// Decodes a 33-byte encoding. Exactly the inputs of a wrong length or
    /// with a discriminant outside 0 and 1 are rejected; a present digest
    /// is read back byte for byte.
    pub fn from_ssz_bytes(bytes: &[u8]) -> (r: Result<OptionalHash, MerkleError>)
        ensures
            match r {
                Ok(oh) => {
                    &&& bytes@.len() == ENCODED_LEN
                    &&& (bytes@[0] == 0 || bytes@[0] == 1)
                    &&& (bytes@[0] == 0 ==> oh.0 is None)
                    &&& (bytes@[0] == 1 ==> oh.0 is Some && oh.encoding_spec() == bytes@)
                },
                Err(e) => {
                    if bytes@.len() != ENCODED_LEN {
                        e == MerkleError::InvalidByteLength
                    } else {
                        &&& bytes@[0] != 0
                        &&& bytes@[0] != 1
                        &&& e == MerkleError::InvalidDiscriminant
                    }
                },
            },
    {
        if bytes.len() != ENCODED_LEN {
            return Err(MerkleError::InvalidByteLength);
        }
        if bytes[0] == 0 {
            return Ok(OptionalHash::none());
        }
        if bytes[0] != 1 {
            return Err(MerkleError::InvalidDiscriminant);
        }
        let mut digest = [0u8; 32];
        let mut i: usize = 0;
        while i < 32
            invariant
                i <= 32,
                bytes@.len() == 33,
                forall|j: int| 0 <= j < i ==> digest[j] == bytes@[j + 1],
            decreases 32 - i,
        {
            digest[i] = bytes[i + 1];
            i = i + 1;
        }
        let oh = OptionalHash::some(Digest(digest));
        proof {
            assert(oh.encoding_spec() =~= bytes@);
        }
        Ok(oh)
    }

    /// Converts a proof over optional hashes into one over plain digests,
    /// an absent entry becoming the all-zero digest.
    pub fn convert_proof_to_h256(pr: Proof<OptionalHash>) -> (r: Result<Proof<Digest>, MerkleError>)
        requires
            pr.wf(),
        ensures
            match r {
                Ok(q) => {
                    &&& q.wf()
                    &&& q.path_spec() == pr.path_spec()
                    &&& q.lemma_spec().len() == pr.lemma_spec().len()
                    &&& forall|k: int|
                        0 <= k < q.lemma_spec().len() && pr.lemma_spec()[k].0 is Some
                            ==> pr.lemma_spec()[k].0 == Some(#[trigger] q.lemma_spec()[k])
                    &&& forall|k: int|
                        0 <= k < q.lemma_spec().len() && pr.lemma_spec()[k].0 is None ==> (
                        #[trigger] q.lemma_spec()[k]).is_zero_spec()
                },
                Err(_) => false,
            },
    {
        let old_lemma = pr.lemma();
        let mut lemma: Vec<Digest> = Vec::new();
        let mut i: usize = 0;
        let n = old_lemma.len();
        while i < n
            invariant
                i <= n,
                n == pr.lemma_spec().len(),
                old_lemma@ == pr.lemma_spec(),
                lemma@.len() == i,
                forall|k: int|
                    0 <= k < i && pr.lemma_spec()[k].0 is Some ==> pr.lemma_spec()[k].0 == Some(
                        #[trigger] lemma@[k],
                    ),
                forall|k: int|
                    0 <= k < i && pr.lemma_spec()[k].0 is None ==> (
                    #[trigger] lemma@[k]).is_zero_spec(),
            decreases n - i,
        {
            lemma.push(old_lemma[i].to_h256_or_zero());
            i = i + 1;
        }
        let mut path: Vec<bool> = Vec::new();
        let old_path = pr.path();
        let mut j: usize = 0;
        let m = old_path.len();
        while j < m
            invariant
                j <= m,
                m == pr.path_spec().len(),
                old_path@ == pr.path_spec(),
                path@ =~= pr.path_spec().subrange(0, j as int),
            decreases m - j,
        {
            path.push(old_path[j]);
            j = j + 1;
        }
        assert(path@ =~= pr.path_spec());
        Ok(Proof::new(lemma, path))
    }

    /// Converts a proof over plain digests into one over optional hashes,
    /// every entry present.
    pub fn convert_proof_from_h256(pr: Proof<Digest>) -> (r: Result<
        Proof<OptionalHash>,
        MerkleError,
    >)
        requires
            pr.wf(),
        ensures
            match r {
                Ok(q) => {
                    &&& q.wf()
                    &&& q.path_spec() == pr.path_spec()
                    &&& q.lemma_spec().len() == pr.lemma_spec().len()
                    &&& forall|k: int|
                        0 <= k < q.lemma_spec().len() ==> #[trigger] q.lemma_spec()[k].0 == Some(
                            pr.lemma_spec()[k],
                        )
                },
                Err(_) => false,
            },
    {
        let old_lemma = pr.lemma();
        let mut lemma: Vec<OptionalHash> = Vec::new();
        let mut i: usize = 0;
        let n = old_lemma.len();
        while i < n
            invariant
                i <= n,
                n == pr.lemma_spec().len(),
                old_lemma@ == pr.lemma_spec(),
                lemma@.len() == i,
                forall|k: int|
                    0 <= k < i ==> #[trigger] lemma@[k].0 == Some(pr.lemma_spec()[k]),
            decreases n - i,
        {
            lemma.push(OptionalHash::some(old_lemma[i]));
            i = i + 1;
        }
        let mut path: Vec<bool> = Vec::new();
        let old_path = pr.path();
        let mut j: usize = 0;
        let m = old_path.len();
        while j < m
            invariant
                j <= m,
                m == pr.path_spec().len(),
                old_path@ == pr.path_spec(),
                path@ =~= pr.path_spec().subrange(0, j as int),
            decreases m - j,
        {
            path.push(old_path[j]);
            j = j + 1;
        }
        assert(path@ =~= pr.path_spec());
        Ok(Proof::new(lemma, path))
    }

    /// Converts a range proof over plain digests into one over optional
    /// hashes, every entry present.
    pub fn convert_range_proof_from_h256(range_proof: RangeProof<Digest>) -> (r: Result<
        RangeProof<OptionalHash>,
        MerkleError,
    >)
        requires
            range_proof.left_proof.wf(),
            range_proof.right_proof.wf(),
        ensures
            match r {
                Ok(rp) => {
                    &&& rp.left_proof.path_spec() == range_proof.left_proof.path_spec()
                    &&& rp.left_proof.lemma_spec().len()
                        == range_proof.left_proof.lemma_spec().len()
                    &&& forall|k: int|
                        0 <= k < rp.left_proof.lemma_spec().len()
                            ==> #[trigger] rp.left_proof.lemma_spec()[k].0 == Some(
                            range_proof.left_proof.lemma_spec()[k],
                        )
                    &&& rp.right_proof.path_spec() == range_proof.right_proof.path_spec()
                    &&& rp.right_proof.lemma_spec().len()
                        == range_proof.right_proof.lemma_spec().len()
                    &&& forall|k: int|
                        0 <= k < rp.right_proof.lemma_spec().len()
                            ==> #[trigger] rp.right_proof.lemma_spec()[k].0 == Some(
                            range_proof.right_proof.lemma_spec()[k],
                        )
                },
                Err(_) => false,
            },
    {
        let left_proof = match Self::convert_proof_from_h256(range_proof.left_proof) {
            Ok(p) => p,
            Err(e) => {
                return Err(e);
            },
        };
        let right_proof = match Self::convert_proof_from_h256(range_proof.right_proof) {
            Ok(p) => p,
            Err(e) => {
                return Err(e);
            },
        };
        Ok(RangeProof { left_proof, right_proof })
    }
}

/// Decoding then encoding reproduces every valid 33-byte input exactly:
/// what decoding promises of its result pins the result's own encoding
/// back to the input bytes.
pub proof fn lemma_decode_encode_round_trip(oh: OptionalHash, bytes: Seq<u8>)
    requires
        OptionalHash::is_valid_encoding(bytes),
        bytes[0] == 0 ==> oh.0 is None,
        bytes[0] == 1 ==> oh.encoding_spec() == bytes,
    ensures
        oh.encoding_spec() == bytes,
{
    if bytes[0] == 0 {
        assert(oh.encoding_spec() =~= bytes);
    }
}

impl From<Digest> for OptionalHash {
    /// Wraps a plain digest as a present value.
    fn from(hash: Digest) -> (r: Self) {
        OptionalHash::some(hash)
    }
}

impl vstd::std_specs::convert::FromSpecImpl<Digest> for OptionalHash {
    open spec fn obeys_from_spec() -> bool {
        true
    }

    open spec fn from_spec(hash: Digest) -> Self {
        OptionalHash(Some(hash))
    }
}

impl From<Option<Digest>> for OptionalHash {
    /// Wraps an optional digest as it stands.
    fn from(opt: Option<Digest>) -> (r: Self) {
        OptionalHash(opt)
    }
}

impl vstd::std_specs::convert::FromSpecImpl<Option<Digest>> for OptionalHash {
    open spec fn obeys_from_spec() -> bool {
        true
    }

    open spec fn from_spec(opt: Option<Digest>) -> Self {
        OptionalHash(opt)
    }
}

impl From<OptionalHash> for Option<Digest> {
    /// Unwraps back to the plain optional digest.
    fn from(opt_hash: OptionalHash) -> (r: Self) {
        opt_hash.0
    }
}

impl vstd::std_specs::convert::FromSpecImpl<OptionalHash> for Option<Digest> {
    open spec fn obeys_from_spec() -> bool {
        true
    }

    open spec fn from_spec(opt_hash: OptionalHash) -> Self {
        opt_hash.0
    }
}

impl HashElement for OptionalHash {
    open spec fn is_null_spec(&self) -> bool {
        self.0 is None
    }

    open spec fn end_pad_spec(height: nat) -> Self {
        OptionalHash(Some(zero_hash_spec(height)))
    }

    fn end_pad(height: usize) -> (r: Self) {
        OptionalHash::some(zero_hash(height))
    }

    fn null() -> (r: Self) {
        OptionalHash::none()
    }

    fn is_null(&self) -> (r: bool) {
        self.is_none()
    }
}

} // verus!
