//! Inclusion proof value types: the lemma/path pair for one leaf, and the
//! left/right pair bracketing a contiguous leaf range.

use vstd::prelude::*;
use crate::merkle_tree::HashElement;

verus! {

/// A single-leaf inclusion proof: the `lemma` walks from the leaf up to the
/// root (leaf first, then one sibling per layer below the root, then the
/// root), while `path` records at each of those layers whether the current
/// node is the left child (`true`) or the right child (`false`).
pub struct Proof<E: HashElement> {
    lemma: Vec<E>,
    path: Vec<bool>,
}

impl<E: HashElement> Proof<E> {
    /// The ordered hash sequence of this proof, leaf first, root last.
    pub closed spec fn lemma_spec(&self) -> Seq<E> {
        self.lemma@
    }

    /// The ordered left/right bits of this proof, one per non-root layer.
    pub closed spec fn path_spec(&self) -> Seq<bool> {
        self.path@
    }

    /// Shape invariant: a leaf, one sibling per layer below the root, and
    /// the root itself. A single-layer tree's self-proof, two copies of the
    /// root with an empty path, satisfies it as well.
    pub open spec fn wf(&self) -> bool {
        self.lemma_spec().len() == self.path_spec().len() + 2
    }

    /// Packs a lemma and a path into a proof.
    pub fn new(lemma: Vec<E>, path: Vec<bool>) -> (r: Self)
        requires
            lemma@.len() == path@.len() + 2,
        ensures
            r.lemma_spec() == lemma@,
            r.path_spec() == path@,
            r.wf(),
    {
        Proof { lemma, path }
    }

    /// The hash sequence, leaf first, root last.
    pub fn lemma(&self) -> (r: &Vec<E>)
        ensures
            r@ == self.lemma_spec(),
    {
        &self.lemma
    }

    /// The left/right bits, lowest layer first.
    pub fn path(&self) -> (r: &Vec<bool>)
        ensures
            r@ == self.path_spec(),
    {
        &self.path
    }
}

/// A pair of single-leaf proofs bracketing a contiguous leaf index range:
/// one for the first leaf of the range, one for the last.
pub struct RangeProof<E: HashElement> {
    pub left_proof: Proof<E>,
    pub right_proof: Proof<E>,
}

} // verus!
