//! The compact checkpoint from which a tree can be rebuilt: contiguous
//! subtree roots, sparsely known leaves, and extra interior nodes recovered
//! from previously issued proofs.

use vstd::prelude::*;
use vstd::arithmetic::power2::{
    lemma_pow2_adds, lemma_pow2_pos, lemma_pow2_strictly_increases, lemma_pow2_unfold, pow2,
};
use crate::error::MerkleError;
use crate::merkle_tree::HashElement;

verus! {

/// The number of leaves a subtree list describes: the sum of
/// `2^(depth - 1)` over its entries, each entry a complete subtree laid
/// out left to right.
pub open spec fn subtree_leaves<E>(list: Seq<(usize, E)>) -> nat
    decreases list.len(),
{
    if list.len() == 0 {
        0
    } else {
        subtree_leaves(list.drop_last()) + pow2((list.last().0 - 1) as nat)
    }
}

/// A prefix of a subtree list never describes more leaves than the whole
/// list.
proof fn lemma_subtree_leaves_prefix_bound<E>(list: Seq<(usize, E)>, i: int)
    requires
        0 <= i <= list.len(),
    ensures
        subtree_leaves(list.subrange(0, i)) <= subtree_leaves(list),
    decreases list.len() - i,
{
    if i == list.len() {
        assert(list.subrange(0, i) =~= list);
    } else {
        lemma_subtree_leaves_prefix_bound(list, i + 1);
        assert(list.subrange(0, i + 1).drop_last() =~= list.subrange(0, i));
        assert(subtree_leaves(list.subrange(0, i + 1)) == subtree_leaves(list.subrange(0, i))
            + pow2((list[i].0 - 1) as nat));
    }
}

/// One step of the leaf count: extending a prefix by one entry adds that
/// entry's subtree size.
proof fn lemma_subtree_leaves_step<E>(list: Seq<(usize, E)>, i: int)
    requires
        0 <= i < list.len(),
    ensures
        subtree_leaves(list.subrange(0, i + 1)) == subtree_leaves(list.subrange(0, i)) + pow2(
            (list[i].0 - 1) as nat,
        ),
{
    assert(list.subrange(0, i + 1).drop_last() =~= list.subrange(0, i));
}

/// Whether a subtree list tiles the leaf index space: every depth is at
/// least 1, and every subtree begins at a leaf index that is a multiple of
/// its own size, so the complete subtrees sit side by side with no gap or
/// overlap.
pub open spec fn tiling_ok<E>(list: Seq<(usize, E)>) -> bool {
    forall|i: int|
        0 <= i < list.len() ==> 1 <= (#[trigger] list[i]).0 && subtree_leaves(
            list.subrange(0, i),
        ) % pow2((list[i].0 - 1) as nat) == 0
}

/// The data to reconstruct a tree root where some nodes are unknown:
/// the other interior nodes are computed from these known ones.
pub struct MerkleTreeInitialData<E: HashElement> {
    /// A list of `(subtree_depth, root)`. The subtrees are contiguous, so
    /// the tree root can be computed from these subtree roots.
    pub subtree_list: Vec<(usize, E)>,
    /// A list of `(index, leaf_hash)`. These leaves sit inside the larger
    /// subtrees of `subtree_list`; one-node subtrees are already leaves
    /// and are not duplicated here.
    pub known_leaves: Vec<(usize, E)>,
    /// A list of `(layer_index, position, hash)` known from proofs. They
    /// are only to be grafted in after the base tree is constructed.
    pub extra_mpt_nodes: Vec<(usize, usize, E)>,
}

/// Computes a power of two, or reports that it exceeds the machine word.
fn checked_pow2_usize(k: usize) -> (r: Option<usize>)
    ensures
        match r {
            Some(p) => p == pow2(k as nat),
            None => pow2(k as nat) > usize::MAX,
        },
{
    let mut p: usize = 1;
    let mut j: usize = 0;
    proof {
        vstd::arithmetic::power::lemma_pow0(2);
    }
    while j < k
        invariant
            j <= k,
            p == pow2(j as nat),
        decreases k - j,
    {
        proof {
            vstd::arithmetic::power::lemma_pow0(2);
            lemma_pow2_unfold(1);
            lemma_pow2_adds(j as nat, 1);
        }
        if p > usize::MAX / 2 {
            proof {
                if j + 1 < k {
                    lemma_pow2_strictly_increases((j + 1) as nat, k as nat);
                }
            }
            return None;
        }
        p = p * 2;
        j = j + 1;
    }
    Some(p)
}

/// Computes a power of two that is known to fit the machine word.
fn pow2_usize(k: usize) -> (r: usize)
    requires
        pow2(k as nat) <= usize::MAX,
    ensures
        r == pow2(k as nat),
{
    let mut r: usize = 1;
    let mut j: usize = 0;
    proof {
        vstd::arithmetic::power::lemma_pow0(2);
        lemma_pow2_unfold(1);
    }
    while j < k
        invariant
            j <= k,
            r == pow2(j as nat),
            pow2(k as nat) <= usize::MAX,
        decreases k - j,
    {
        proof {
            vstd::arithmetic::power::lemma_pow0(2);
            lemma_pow2_unfold(1);
            lemma_pow2_adds(j as nat, 1);
            if j + 1 < k {
                lemma_pow2_strictly_increases((j + 1) as nat, k as nat);
            }
        }
        r = r * 2;
        j = j + 1;
    }
    r
}

impl<E: HashElement> MerkleTreeInitialData<E> {
    /// The total leaf count this checkpoint reconstructs: the sum of
    /// `2^(depth - 1)` across the subtree list.
    pub fn leaves(&self) -> (r: usize)
        requires
            forall|i: int| 0 <= i < self.subtree_list@.len() ==> 1 <= (#[trigger] self.subtree_list@[i]).0,
            subtree_leaves(self.subtree_list@) <= usize::MAX,
        ensures
            r == subtree_leaves(self.subtree_list@),
    {
        let ghost list = self.subtree_list@;
        let mut acc: usize = 0;
        let mut i: usize = 0;
        let n = self.subtree_list.len();
        assert(list.subrange(0, 0) =~= Seq::<(usize, E)>::empty());
        while i < n
            invariant
                i <= n,
                n == list.len(),
                list == self.subtree_list@,
                forall|k: int| 0 <= k < list.len() ==> 1 <= (#[trigger] list[k]).0,
                subtree_leaves(list) <= usize::MAX,
                acc == subtree_leaves(list.subrange(0, i as int)),
            decreases n - i,
        {
            let depth = self.subtree_list[i].0;
            proof {
                lemma_subtree_leaves_step(list, i as int);
                lemma_subtree_leaves_prefix_bound(list, i as int + 1);
                lemma_pow2_pos((depth - 1) as nat);
            }
            let p = pow2_usize(depth - 1);
            acc = acc + p;
            i = i + 1;
        }
        proof {
            assert(list.subrange(0, n as int) =~= list);
        }
        acc
    }

    /// Checks that the subtree list tiles the leaf index space and that
    /// the leaf count it describes fits the machine word: a list with a
    /// zero depth, a misaligned subtree, or an unrepresentable leaf count
    /// is rejected before any construction proceeds.
    pub fn check_tiling(&self) -> (r: Result<(), MerkleError>)
        ensures
            match r {
                Ok(_) => tiling_ok(self.subtree_list@) && subtree_leaves(self.subtree_list@)
                    <= usize::MAX,
                Err(e) => {
                    &&& e == MerkleError::TilingViolation
                    &&& !(tiling_ok(self.subtree_list@) && subtree_leaves(self.subtree_list@)
                        <= usize::MAX)
                },
            },
    {
        let ghost list = self.subtree_list@;
        let mut acc: usize = 0;
        let mut i: usize = 0;
        let n = self.subtree_list.len();
        assert(list.subrange(0, 0) =~= Seq::<(usize, E)>::empty());
        while i < n
            invariant
                i <= n,
                n == list.len(),
                list == self.subtree_list@,
                acc == subtree_leaves(list.subrange(0, i as int)),
                forall|k: int|
                    0 <= k < i ==> 1 <= (#[trigger] list[k]).0 && subtree_leaves(
                        list.subrange(0, k),
                    ) % pow2((list[k].0 - 1) as nat) == 0,
            decreases n - i,
        {
            let depth = self.subtree_list[i].0;
            if depth == 0 {
                assert(!tiling_ok(list));
                return Err(MerkleError::TilingViolation);
            }
            let p = match checked_pow2_usize(depth - 1) {
                Some(p) => p,
                None => {
                    // The subtree alone is larger than any leaf count the
                    // machine can hold.
                    proof {
                        lemma_subtree_leaves_step(list, i as int);
                        lemma_subtree_leaves_prefix_bound(list, i as int + 1);
                    }
                    return Err(MerkleError::TilingViolation);
                },
            };
            proof {
                lemma_pow2_pos((depth - 1) as nat);
            }
            if acc % p != 0 {
                assert(!tiling_ok(list));
                return Err(MerkleError::TilingViolation);
            }
            if p > usize::MAX - acc {
                proof {
                    lemma_subtree_leaves_step(list, i as int);
                    lemma_subtree_leaves_prefix_bound(list, i as int + 1);
                }
                return Err(MerkleError::TilingViolation);
            }
            proof {
                lemma_subtree_leaves_step(list, i as int);
            }
            acc = acc + p;
            i = i + 1;
        }
        proof {
            assert(list.subrange(0, n as int) =~= list);
        }
        Ok(())
    }
}

} // verus!
