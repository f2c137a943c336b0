//! A minimal in-memory tree backend: one vector of nodes per layer. It
//! implements both the read and the write capability, so proofs can be
//! generated from exactly what an external owner has stored.

use vstd::prelude::*;
use crate::merkle_tree::{HashElement, MerkleTreeRead, MerkleTreeWrite};
use crate::sha3::ZERO_HASH_COUNT;

verus! {

/// A layered node store held in plain vectors, the leaf layer first. Its
/// padding values are the element type's own end padding.
pub struct VecTree<E: HashElement> {
    /// The stored layers, leaves first.
    pub layers: Vec<Vec<E>>,
}

impl<E: HashElement> VecTree<E> {
    /// An empty store with the given number of layers.
    pub fn with_height(height: usize) -> (r: Self)
        ensures
            r.layers@.len() == height,
            forall|h: int| 0 <= h < height ==> (#[trigger] r.layers@[h])@.len() == 0,
    {
        let mut layers: Vec<Vec<E>> = Vec::new();
        while layers.len() < height
            invariant
                layers@.len() <= height,
                forall|h: int| 0 <= h < layers@.len() ==> (#[trigger] layers@[h])@.len() == 0,
            decreases height - layers@.len(),
        {
            layers.push(Vec::new());
        }
        VecTree { layers }
    }
}

impl<E: HashElement> MerkleTreeRead for VecTree<E> {
    type E = E;

    open spec fn layers_spec(&self) -> Seq<Seq<E>> {
        Seq::new(self.layers@.len(), |h: int| self.layers@[h]@)
    }

    open spec fn padding_spec(&self) -> Seq<E> {
        Seq::new(ZERO_HASH_COUNT as nat, |h: int| E::end_pad_spec(h as nat))
    }

    fn node(&self, layer: usize, index: usize) -> (r: E) {
        self.layers[layer][index]
    }

    fn height(&self) -> (r: usize) {
        self.layers.len()
    }

    fn layer_len(&self, layer_height: usize) -> (r: usize) {
        self.layers[layer_height].len()
    }

    fn padding_node(&self, height: usize) -> (r: E) {
        E::end_pad(height)
    }
}

impl<E: HashElement> MerkleTreeWrite for VecTree<E> {
    type E = E;

    open spec fn layers_spec(&self) -> Seq<Seq<E>> {
        Seq::new(self.layers@.len(), |h: int| self.layers@[h]@)
    }

    fn push_node(&mut self, layer: usize, node: E) {
        let mut row = self.layers.remove(layer);
        row.push(node);
        self.layers.insert(layer, row);
        proof {
            assert(MerkleTreeWrite::layers_spec(self) =~~= MerkleTreeWrite::layers_spec(
                old(self),
            ).update(layer as int, MerkleTreeWrite::layers_spec(old(self))[layer as int].push(node)));
        }
    }

    fn append_nodes(&mut self, layer: usize, nodes: &[E]) {
        let mut row = self.layers.remove(layer);
        let ghost row0 = row@;
        let mut k: usize = 0;
        let n = nodes.len();
        while k < n
            invariant
                k <= n,
                n == nodes@.len(),
                row@ == row0 + nodes@.subrange(0, k as int),
            decreases n - k,
        {
            row.push(nodes[k]);
            k = k + 1;
            proof {
                assert(row@ =~= row0 + nodes@.subrange(0, k as int));
            }
        }
        proof {
            assert(row@ =~= row0 + nodes@);
        }
        self.layers.insert(layer, row);
        proof {
            assert(MerkleTreeWrite::layers_spec(self) =~~= MerkleTreeWrite::layers_spec(
                old(self),
            ).update(layer as int, MerkleTreeWrite::layers_spec(old(self))[layer as int] + nodes@));
        }
    }

    fn update_node(&mut self, layer: usize, pos: usize, node: E) {
        let mut row = self.layers.remove(layer);
        row.remove(pos);
        row.insert(pos, node);
        proof {
            assert(row@ =~= MerkleTreeWrite::layers_spec(old(self))[layer as int].update(
                pos as int,
                node,
            ));
        }
        self.layers.insert(layer, row);
        proof {
            assert(MerkleTreeWrite::layers_spec(self) =~~= MerkleTreeWrite::layers_spec(
                old(self),
            ).update(
                layer as int,
                MerkleTreeWrite::layers_spec(old(self))[layer as int].update(pos as int, node),
            ));
        }
    }
}

} // verus!
