//! The plain 32-byte digest that tree nodes carry once they are known.

use vstd::prelude::*;

verus! {

/// A 32-byte cryptographic digest.
#[derive(Clone, Copy, Debug, PartialEq, Eq, Hash)]
pub struct Digest(pub [u8; 32]);

impl Digest {
    /// True of the all-zero digest.
    pub open spec fn is_zero_spec(&self) -> bool {
        forall|i: int| 0 <= i < 32 ==> self.0[i] == 0
    }

    /// The all-zero digest.
    pub fn zero() -> (r: Digest)
        ensures
            r.is_zero_spec(),
    {
        Digest([0u8; 32])
    }

    /// Whether every byte of this digest is zero.
    pub fn is_zero(&self) -> (r: bool)
        ensures
            r == self.is_zero_spec(),
    {
        let mut i: usize = 0;
        while i < 32
            invariant
                i <= 32,
                forall|j: int| 0 <= j < i ==> self.0[j] == 0,
            decreases 32 - i,
        {
            if self.0[i] != 0 {
                return false;
            }
            i = i + 1;
        }
        true
    }
}

} // verus!
