//! The abstract contracts of the tree core: hash elements, the hash
//! algorithm strategy, and the read/write capabilities over layered node
//! storage, together with proof generation over any read capability.

use vstd::prelude::*;
use crate::digest::Digest;
use crate::error::MerkleError;
use crate::proofs::{Proof, RangeProof};
use crate::sha3::{zero_hash, zero_hash_spec, ZERO_HASH_COUNT};

verus! {

/// A tree node's hash value, which can additionally represent "not yet
/// known". All node-level operations are generic over this capability set.
pub trait HashElement: Copy {
    /// Whether this value is the distinguished "unknown" value.
    spec fn is_null_spec(&self) -> bool;

    /// The padding value for an incomplete subtree of the given height.
    spec fn end_pad_spec(height: nat) -> Self;

    /// The padding value to use when completing a subtree of the given
    /// height whose right sibling does not exist.
    fn end_pad(height: usize) -> (r: Self)
        requires
            height < ZERO_HASH_COUNT,
        ensures
            r == Self::end_pad_spec(height as nat),
    ;

    /// The distinguished "unknown" value.
    fn null() -> (r: Self)
        ensures
            r.is_null_spec(),
    ;

    /// Whether this value is the "unknown" value.
    fn is_null(&self) -> (r: bool)
        ensures
            r == self.is_null_spec(),
    ;
}

impl HashElement for Digest {
    /// A plain digest marks "unknown" by the all-zero value; a genuinely
    /// zero digest cannot be told apart from it, which is why
    /// `OptionalHash` is the canonical element type.
    open spec fn is_null_spec(&self) -> bool {
        self.is_zero_spec()
    }

    open spec fn end_pad_spec(height: nat) -> Self {
        zero_hash_spec(height)
    }

    fn end_pad(height: usize) -> (r: Self) {
        zero_hash(height)
    }

    fn null() -> (r: Self) {
        Digest::zero()
    }

    fn is_null(&self) -> (r: bool) {
        self.is_zero()
    }
}

/// A pluggable strategy computing a leaf hash from raw bytes and a parent
/// hash from two child hashes. A correct algorithm never produces the
/// element type's "unknown" value.
pub trait Algorithm<E: HashElement> {
    /// What the algorithm returns for a leaf payload.
    spec fn leaf_spec(data: Seq<u8>) -> E;

    /// What the algorithm returns for a pair of children.
    spec fn parent_spec(left: E, right: E) -> E;

    /// Hashes a raw leaf payload.
    fn leaf(data: &[u8]) -> (r: E)
        ensures
            r == Self::leaf_spec(data@),
    ;

    /// Combines two child hashes into a parent hash.
    fn parent(left: &E, right: &E) -> (r: E)
        ensures
            r == Self::parent_spec(*left, *right),
    ;

    /// Combines a node that has no real right sibling with the designed
    /// padding value for its height: the result always equals
    /// `parent(node, end_pad(height))`.
    fn parent_single(node: &E, height: usize) -> (r: E)
        requires
            height < ZERO_HASH_COUNT,
        ensures
            r == Self::parent_spec(*node, E::end_pad_spec(height as nat)),
    {
        let right = E::end_pad(height);
        Self::parent(node, &right)
    }
}

/// The layer-by-layer index of the node on the path from a leaf to the
/// root: at layer 0 the leaf index itself, one layer up its half, and so
/// on.
pub open spec fn index_at(leaf_index: nat, layer: nat) -> nat
    decreases layer,
{
    if layer == 0 {
        leaf_index
    } else {
        index_at(leaf_index, (layer - 1) as nat) / 2
    }
}

/// The well-formed tree shapes: at least one layer, few enough layers for
/// the padding table, a single root on top, and each layer above the
/// leaves exactly as long as it takes to pair up the layer below (the last
/// node left unpaired where that layer is odd).
pub open spec fn tree_wf<E>(layers: Seq<Seq<E>>) -> bool {
    &&& 1 <= layers.len()
    &&& layers.len() <= ZERO_HASH_COUNT
    &&& layers[layers.len() - 1].len() == 1
    &&& forall|h: int|
        0 <= h && h + 1 < layers.len() ==> layers[h + 1].len() == (#[trigger] layers[h].len()
            + 1) / 2
}

/// The number of leaves a layered tree currently holds.
pub open spec fn leaves_spec<E>(layers: Seq<Seq<E>>) -> nat {
    layers[0].len()
}

/// The root hash of a layered tree: the single node of its top layer.
pub open spec fn root_spec<E>(layers: Seq<Seq<E>>) -> E {
    layers[layers.len() - 1][0]
}

/// The sibling hash that a proof for `leaf_index` carries at one layer: the
/// right neighbour when the path node is a left child (or the padding value
/// when that neighbour does not exist), the left neighbour otherwise.
pub open spec fn sibling_at<E>(
    layers: Seq<Seq<E>>,
    padding: Seq<E>,
    leaf_index: nat,
    layer: nat,
) -> E {
    let idx = index_at(leaf_index, layer);
    if idx % 2 == 0 {
        if idx + 1 == layers[layer as int].len() {
            padding[layer as int]
        } else {
            layers[layer as int][idx as int + 1]
        }
    } else {
        layers[layer as int][idx as int - 1]
    }
}

/// The hash sequence of a proof for one leaf: the leaf itself, one sibling
/// per layer below the root, and the root.
pub open spec fn proof_lemma_spec<E>(
    layers: Seq<Seq<E>>,
    padding: Seq<E>,
    leaf_index: nat,
) -> Seq<E> {
    seq![layers[0][leaf_index as int]] + Seq::new(
        (layers.len() - 1) as nat,
        |h: int| sibling_at(layers, padding, leaf_index, h as nat),
    ) + seq![root_spec(layers)]
}

/// The left/right bits of a proof for one leaf: `true` at each layer where
/// the path node is a left child.
pub open spec fn proof_path_spec<E>(layers: Seq<Seq<E>>, leaf_index: nat) -> Seq<bool> {
    Seq::new((layers.len() - 1) as nat, |h: int| index_at(leaf_index, h as nat) % 2 == 0)
}

/// The condition under which proof generation succeeds: the leaf index is
/// in bounds, the leaf itself is known, and every hash the proof carries is
/// known.
pub open spec fn gen_proof_ok<E: HashElement>(
    layers: Seq<Seq<E>>,
    padding: Seq<E>,
    leaf_index: nat,
) -> bool {
    &&& leaf_index < leaves_spec(layers)
    &&& !layers[0][leaf_index as int].is_null_spec()
    &&& forall|k: int|
        0 <= k < proof_lemma_spec(layers, padding, leaf_index).len() ==> !(
        #[trigger] proof_lemma_spec(layers, padding, leaf_index)[k]).is_null_spec()
}

/// Which failure proof generation reports: an out-of-bounds index first, a
/// still-unknown leaf second, and otherwise a missing sibling or ancestor.
pub open spec fn gen_proof_err<E: HashElement>(layers: Seq<Seq<E>>, leaf_index: nat) -> MerkleError {
    if leaf_index >= leaves_spec(layers) {
        MerkleError::IndexOutOfBounds
    } else if layers[0][leaf_index as int].is_null_spec() {
        MerkleError::NotReady
    } else {
        MerkleError::IncompleteData
    }
}

/// Halving a position stays inside the halved-up layer length.
proof fn lemma_halve_bound(idx: nat, len: nat)
    requires
        idx < len,
    ensures
        idx / 2 < (len + 1) / 2,
{
}

/// A freshly constructed sequence grows by one element at its length.
proof fn lemma_seq_new_extend<A>(n: nat, f: spec_fn(int) -> A)
    ensures
        Seq::new(n + 1, f) == Seq::new(n, f).push(f(n as int)),
{
    assert(Seq::new(n + 1, f) =~= Seq::new(n, f).push(f(n as int)));
}

/// The read capability over any concrete tree: node lookup by layer and
/// index, tree shape accessors, padding lookup, and the derived operations
/// (leaf count, root, single-leaf proof, range proof). Layer 0 holds the
/// leaves.
pub trait MerkleTreeRead {
    type E: HashElement;

    /// The complete mathematical state of the tree: one hash sequence per
    /// layer, the leaf layer first.
    spec fn layers_spec(&self) -> Seq<Seq<Self::E>>;

    /// The padding values this tree substitutes for missing right
    /// subtrees, one per height.
    spec fn padding_spec(&self) -> Seq<Self::E>;

    /// The hash at one position; the "unknown" value where it has not been
    /// computed or received yet.
    fn node(&self, layer: usize, index: usize) -> (r: Self::E)
        requires
            layer < self.layers_spec().len(),
            index < self.layers_spec()[layer as int].len(),
        ensures
            r == self.layers_spec()[layer as int][index as int],
    ;

    /// The number of layers, leaves included.
    fn height(&self) -> (r: usize)
        ensures
            r == self.layers_spec().len(),
    ;

    /// The number of nodes currently stored at one layer.
    fn layer_len(&self, layer_height: usize) -> (r: usize)
        requires
            layer_height < self.layers_spec().len(),
        ensures
            r == self.layers_spec()[layer_height as int].len(),
    ;

    /// The padding value for an incomplete subtree at one height.
    fn padding_node(&self, height: usize) -> (r: Self::E)
        requires
            height < ZERO_HASH_COUNT,
        ensures
            r == self.padding_spec()[height as int],
    ;

    /// The current number of leaves: the length of layer 0.
    fn leaves(&self) -> (r: usize)
        requires
            1 <= self.layers_spec().len(),
        ensures
            r == leaves_spec(self.layers_spec()),
    {
        self.layer_len(0)
    }

    /// The root hash: the single node of the top layer.
    fn root(&self) -> (r: Self::E)
        requires
            1 <= self.layers_spec().len(),
            1 <= self.layers_spec()[self.layers_spec().len() - 1].len(),
        ensures
            r == root_spec(self.layers_spec()),
    {
        self.node(self.height() - 1, 0)
    }

    /// Builds the inclusion proof for one leaf, or reports exactly why it
    /// cannot be built: the index is out of bounds, the leaf itself is
    /// still unknown, or a sibling or ancestor the proof needs is still
    /// unknown. The rightmost node of an odd layer has no stored sibling;
    /// the designed padding value stands in for it rather than failing.
    #[verifier::rlimit(60)]
    fn gen_proof(&self, leaf_index: usize) -> (r: Result<Proof<Self::E>, MerkleError>)
        requires
            tree_wf(self.layers_spec()),
        ensures
            match r {
                Ok(p) => {
                    &&& gen_proof_ok(self.layers_spec(), self.padding_spec(), leaf_index as nat)
                    &&& p.lemma_spec() == proof_lemma_spec(
                        self.layers_spec(),
                        self.padding_spec(),
                        leaf_index as nat,
                    )
                    &&& p.path_spec() == proof_path_spec(self.layers_spec(), leaf_index as nat)
                },
                Err(e) => {
                    &&& !gen_proof_ok(self.layers_spec(), self.padding_spec(), leaf_index as nat)
                    &&& e == gen_proof_err(self.layers_spec(), leaf_index as nat)
                },
            },
    {
        let ghost layers = self.layers_spec();
        let ghost padding = self.padding_spec();
        if leaf_index >= self.leaves() {
            return Err(MerkleError::IndexOutOfBounds);
        }
        let leaf = self.node(0, leaf_index);
        if leaf.is_null() {
            proof {
                assert(proof_lemma_spec(layers, padding, leaf_index as nat)[0] == layers[0][leaf_index as int]);
            }
            return Err(MerkleError::NotReady);
        }
        let height = self.height();
        if height == 1 {
            let root = self.root();
            let lemma_vec = vec![root, root];
            let path_vec: Vec<bool> = Vec::new();
            proof {
                assert(leaf_index == 0);
                assert(lemma_vec@ =~= proof_lemma_spec(layers, padding, leaf_index as nat));
                assert(path_vec@ =~= proof_path_spec(layers, leaf_index as nat));
                assert forall|k: int|
                    0 <= k < proof_lemma_spec(layers, padding, leaf_index as nat).len() implies !(
                proof_lemma_spec(layers, padding, leaf_index as nat)[k]).is_null_spec() by {
                    assert(proof_lemma_spec(layers, padding, leaf_index as nat)[k] == layers[0][0]);
                }
            }
            return Ok(Proof::new(lemma_vec, path_vec));
        }
        let mut lemma: Vec<Self::E> = Vec::new();
        let mut path: Vec<bool> = Vec::new();
        let mut index_in_layer = leaf_index;
        lemma.push(leaf);
        let ghost sib_fn = |j: int| sibling_at(layers, padding, leaf_index as nat, j as nat);
        let ghost bit_fn = |j: int| index_at(leaf_index as nat, j as nat) % 2 == 0;
        let mut h: usize = 0;
        while h < height - 1
            invariant
                tree_wf(layers),
                layers == self.layers_spec(),
                padding == self.padding_spec(),
                height == layers.len(),
                2 <= height,
                h < height,
                leaf_index < layers[0].len(),
                index_in_layer == index_at(leaf_index as nat, h as nat),
                index_in_layer < layers[h as int].len(),
                sib_fn == (|j: int| sibling_at(layers, padding, leaf_index as nat, j as nat)),
                bit_fn == (|j: int| index_at(leaf_index as nat, j as nat) % 2 == 0),
                lemma@ == seq![layers[0][leaf_index as int]] + Seq::new(h as nat, sib_fn),
                path@ == Seq::new(h as nat, bit_fn),
            decreases height - 1 - h,
        {
            let sib: Self::E;
            if index_in_layer % 2 == 0 {
                path.push(true);
                if index_in_layer + 1 == self.layer_len(h) {
                    sib = self.padding_node(h);
                } else {
                    sib = self.node(h, index_in_layer + 1);
                }
            } else {
                path.push(false);
                sib = self.node(h, index_in_layer - 1);
            }
            lemma.push(sib);
            proof {
                lemma_halve_bound(index_in_layer as nat, layers[h as int].len());
                assert(layers[h + 1].len() == (layers[h as int].len() + 1) / 2);
                assert(index_at(leaf_index as nat, (h + 1) as nat) == index_at(
                    leaf_index as nat,
                    h as nat,
                ) / 2);
                assert(sib == sib_fn(h as int));
                lemma_seq_new_extend(h as nat, sib_fn);
                lemma_seq_new_extend(h as nat, bit_fn);
                assert(lemma@ =~= seq![layers[0][leaf_index as int]] + Seq::new(
                    (h + 1) as nat,
                    sib_fn,
                ));
            }
            index_in_layer = index_in_layer / 2;
            h = h + 1;
        }
        let root = self.root();
        lemma.push(root);
        proof {
            assert(lemma@ =~= proof_lemma_spec(layers, padding, leaf_index as nat));
            assert(path@ =~= proof_path_spec(layers, leaf_index as nat));
        }
        let total = lemma.len();
        let mut k: usize = 0;
        while k < total
            invariant
                total == lemma@.len(),
                k <= total,
                lemma@ == proof_lemma_spec(layers, padding, leaf_index as nat),
                layers == self.layers_spec(),
                padding == self.padding_spec(),
                leaf_index < layers[0].len(),
                !layers[0][leaf_index as int].is_null_spec(),
                forall|j: int| 0 <= j < k ==> !(#[trigger] lemma@[j]).is_null_spec(),
            decreases total - k,
        {
            if lemma[k].is_null() {
                return Err(MerkleError::IncompleteData);
            }
            k = k + 1;
        }
        assert(lemma@.len() == path@.len() + 2);
        Ok(Proof::new(lemma, path))
    }

    /// Builds the pair of proofs bracketing the leaf range from
    /// `start_index` up to but excluding `end_index`: one proof for the
    /// first leaf, one for the last. An empty or reversed range is
    /// rejected; a failure of either single proof is passed through, the
    /// left one first.
    fn gen_range_proof(&self, start_index: usize, end_index: usize) -> (r: Result<
        RangeProof<Self::E>,
        MerkleError,
    >)
        requires
            tree_wf(self.layers_spec()),
        ensures
            match r {
                Ok(rp) => {
                    &&& start_index < end_index
                    &&& gen_proof_ok(self.layers_spec(), self.padding_spec(), start_index as nat)
                    &&& gen_proof_ok(
                        self.layers_spec(),
                        self.padding_spec(),
                        (end_index - 1) as nat,
                    )
                    &&& rp.left_proof.lemma_spec() == proof_lemma_spec(
                        self.layers_spec(),
                        self.padding_spec(),
                        start_index as nat,
                    )
                    &&& rp.left_proof.path_spec() == proof_path_spec(
                        self.layers_spec(),
                        start_index as nat,
                    )
                    &&& rp.right_proof.lemma_spec() == proof_lemma_spec(
                        self.layers_spec(),
                        self.padding_spec(),
                        (end_index - 1) as nat,
                    )
                    &&& rp.right_proof.path_spec() == proof_path_spec(
                        self.layers_spec(),
                        (end_index - 1) as nat,
                    )
                },
                Err(e) => {
                    if end_index <= start_index {
                        e == MerkleError::InvalidRange
                    } else if !gen_proof_ok(
                        self.layers_spec(),
                        self.padding_spec(),
                        start_index as nat,
                    ) {
                        e == gen_proof_err(self.layers_spec(), start_index as nat)
                    } else {
                        &&& !gen_proof_ok(
                            self.layers_spec(),
                            self.padding_spec(),
                            (end_index - 1) as nat,
                        )
                        &&& e == gen_proof_err(self.layers_spec(), (end_index - 1) as nat)
                    }
                },
            },
    {
        if end_index <= start_index {
            return Err(MerkleError::InvalidRange);
        }
        let left_proof = match self.gen_proof(start_index) {
            Ok(p) => p,
            Err(e) => {
                return Err(e);
            },
        };
        let right_proof = match self.gen_proof(end_index - 1) {
            Ok(p) => p,
            Err(e) => {
                return Err(e);
            },
        };
        Ok(RangeProof { left_proof, right_proof })
    }
}

/// Walking up from an in-bounds leaf stays in bounds at every layer.
proof fn lemma_index_at_in_layer<E>(layers: Seq<Seq<E>>, leaf_index: nat, h: nat)
    requires
        tree_wf(layers),
        leaf_index < layers[0].len(),
        h < layers.len(),
    ensures
        index_at(leaf_index, h) < layers[h as int].len(),
    decreases h,
{
    if h != 0 {
        lemma_index_at_in_layer(layers, leaf_index, (h - 1) as nat);
        lemma_halve_bound(index_at(leaf_index, (h - 1) as nat), layers[h - 1].len());
    }
}

/// Determinism: the root and every generated proof depend only on the
/// final node assignment and padding, never on the order in which nodes
/// were computed, appended or padded. Two trees — even of different
/// concrete backends — that hold the same layers and padding values agree
/// on the root, on whether each proof can be generated, and on every
/// proof's contents.
pub proof fn lemma_root_and_proofs_deterministic<T1, T2>(t1: &T1, t2: &T2, leaf_index: nat) where
    T1: MerkleTreeRead,
    T2: MerkleTreeRead<E = T1::E>,

    requires
        t1.layers_spec() == t2.layers_spec(),
        t1.padding_spec() == t2.padding_spec(),
    ensures
        root_spec(t1.layers_spec()) == root_spec(t2.layers_spec()),
        gen_proof_ok(t1.layers_spec(), t1.padding_spec(), leaf_index) == gen_proof_ok(
            t2.layers_spec(),
            t2.padding_spec(),
            leaf_index,
        ),
        proof_lemma_spec(t1.layers_spec(), t1.padding_spec(), leaf_index) == proof_lemma_spec(
            t2.layers_spec(),
            t2.padding_spec(),
            leaf_index,
        ),
        proof_path_spec(t1.layers_spec(), leaf_index) == proof_path_spec(
            t2.layers_spec(),
            leaf_index,
        ),
{
}

/// Proof round trip: in a fully populated well-formed tree — every stored
/// node known, every padding value below the root known — proof generation
/// succeeds for every leaf index, and the proof it is bound to return
/// starts at that leaf, ends at the root, and carries exactly one sibling
/// per layer below the root, so its lemma is two entries longer than its
/// path. In a single-layer tree it degenerates to the self-proof of two
/// root copies over an empty path.
pub proof fn lemma_proof_round_trip<E: HashElement>(
    layers: Seq<Seq<E>>,
    padding: Seq<E>,
    leaf_index: nat,
)
    requires
        tree_wf(layers),
        leaf_index < leaves_spec(layers),
        forall|h: int, k: int|
            0 <= h < layers.len() && 0 <= k < layers[h].len() ==> !(
            #[trigger] layers[h][k]).is_null_spec(),
        forall|h: int| 0 <= h < layers.len() - 1 ==> !(#[trigger] padding[h]).is_null_spec(),
    ensures
        gen_proof_ok(layers, padding, leaf_index),
        proof_lemma_spec(layers, padding, leaf_index)[0] == layers[0][leaf_index as int],
        proof_lemma_spec(layers, padding, leaf_index).last() == root_spec(layers),
        proof_lemma_spec(layers, padding, leaf_index).len() == proof_path_spec(
            layers,
            leaf_index,
        ).len() + 2,
{
    let lem = proof_lemma_spec(layers, padding, leaf_index);
    assert forall|k: int| 0 <= k < lem.len() implies !(#[trigger] lem[k]).is_null_spec() by {
        if k == 0 {
            assert(lem[0] == layers[0][leaf_index as int]);
        } else if k == lem.len() - 1 {
            assert(lem[k] == root_spec(layers));
            assert(!layers[layers.len() - 1][0].is_null_spec());
        } else {
            let h = (k - 1) as nat;
            assert(lem[k] == sibling_at(layers, padding, leaf_index, h));
            lemma_index_at_in_layer(layers, leaf_index, h);
            let idx = index_at(leaf_index, h);
            if idx % 2 == 0 {
                if idx + 1 == layers[h as int].len() {
                    assert(!padding[h as int].is_null_spec());
                } else {
                    assert(!layers[h as int][idx as int + 1].is_null_spec());
                }
            } else {
                assert(!layers[h as int][idx as int - 1].is_null_spec());
            }
        }
    }
}

/// Boundary proof: in a tree whose leaf count is odd (and that has more
/// than one layer), the last leaf is an unpaired left child, so the proof
/// for it carries the designed padding value as the sibling right above
/// the leaf — deterministic padding, not missing data.
pub proof fn lemma_boundary_proof_uses_padding<E: HashElement>(
    layers: Seq<Seq<E>>,
    padding: Seq<E>,
)
    requires
        tree_wf(layers),
        2 <= layers.len(),
        leaves_spec(layers) % 2 == 1,
    ensures
        proof_lemma_spec(layers, padding, (leaves_spec(layers) - 1) as nat)[1] == padding[0],
{
    let leaf = (leaves_spec(layers) - 1) as nat;
    assert(index_at(leaf, 0) == leaf);
    assert(leaf % 2 == 0);
    assert(sibling_at(layers, padding, leaf, 0) == padding[0]);
    assert(proof_lemma_spec(layers, padding, leaf)[1] == sibling_at(layers, padding, leaf, 0));
}

/// The write capability over any concrete tree, modelled as raw mutation
/// of per-layer node sequences. Keeping parent layers consistent with the
/// leaves is the composing owner's responsibility, not this contract's.
pub trait MerkleTreeWrite {
    type E: HashElement;

    /// The stored node sequences, lowest layer first.
    spec fn layers_spec(&self) -> Seq<Seq<Self::E>>;

    /// Appends one node at the end of a layer.
    fn push_node(&mut self, layer: usize, node: Self::E)
        requires
            layer < old(self).layers_spec().len(),
        ensures
            final(self).layers_spec() == old(self).layers_spec().update(
                layer as int,
                old(self).layers_spec()[layer as int].push(node),
            ),
    ;

    /// Appends a batch of nodes at the end of a layer, in order.
    fn append_nodes(&mut self, layer: usize, nodes: &[Self::E])
        requires
            layer < old(self).layers_spec().len(),
        ensures
            final(self).layers_spec() == old(self).layers_spec().update(
                layer as int,
                old(self).layers_spec()[layer as int] + nodes@,
            ),
    ;

    /// Overwrites one already-stored node in place.
    fn update_node(&mut self, layer: usize, pos: usize, node: Self::E)
        requires
            layer < old(self).layers_spec().len(),
            pos < old(self).layers_spec()[layer as int].len(),
        ensures
            final(self).layers_spec() == old(self).layers_spec().update(
                layer as int,
                old(self).layers_spec()[layer as int].update(pos as int, node),
            ),
    ;
}

} // verus!
