//! The layout of the BBG root preimage: fourteen 4-limb leaves in a frozen
//! order, and the domain-tagged chain IV.
use crate::field::{modulus, Goldilocks};
use vstd::prelude::*;

verus! {

/// The 14 leaves of the BBG root preimage, each a 4-limb digest: the 11
/// public dimensions, then A (private commitments), N (nullifiers) and the
/// committed graph statistics.
#[derive(Clone, Copy, Debug, PartialEq, Eq)]
pub struct RootLeaves {
    pub dims: [[Goldilocks; 4]; 11],
    pub a: [Goldilocks; 4],
    pub n: [Goldilocks; 4],
    pub stats: [Goldilocks; 4],
}

impl RootLeaves {
    /// The leaves in committed order.
    pub fn ordered(&self) -> (out: [[Goldilocks; 4]; 14])
        ensures
            forall|i: int| 0 <= i < 11 ==> #[trigger] out@[i] == self.dims@[i],
            out@[11] == self.a,
            out@[12] == self.n,
            out@[13] == self.stats,
    {
        let z = [Goldilocks::zero(); 4];
        let mut out = [z; 14];
        let mut i: usize = 0;
        while i < 11
            invariant
                i <= 11,
                forall|j: int| 0 <= j < i ==> #[trigger] out@[j] == self.dims@[j],
            decreases 11 - i,
        {
            out[i] = self.dims[i];
            i = i + 1;
        }
        out[11] = self.a;
        out[12] = self.n;
        out[13] = self.stats;
        out
    }

    /// A single-dimension state: `dims[ns]` set, every other leaf zero.
    pub fn solo(ns: usize, dim: [Goldilocks; 4]) -> (leaves: RootLeaves)
        requires
            ns < 11,
        ensures
            leaves.dims@[ns as int] == dim,
            forall|i: int, j: int| 0 <= i < 11 && i != ns && 0 <= j < 4 ==> (#[trigger] leaves.dims@[i]@[j])@ == 0,
            forall|j: int| 0 <= j < 4 ==> (#[trigger] leaves.a@[j])@ == 0 && leaves.n@[j]@ == 0 && leaves.stats@[j]@ == 0,
    {
        let z = [Goldilocks::zero(); 4];
        let mut leaves = RootLeaves { dims: [z; 11], a: z, n: z, stats: z };
        leaves.dims[ns] = dim;
        leaves
    }
}

/// Domain tag for the root chain IV: `"bbg-root"` as a little-endian u64.
pub const ROOT_TAG: u64 = 0x746f_6f72_2d67_6262u64;

/// The chain IV: `[ROOT_TAG, 0, 0, 0]`.
pub fn root_iv() -> (iv: [Goldilocks; 4])
    ensures
        iv@[0]@ == ROOT_TAG as nat % modulus(),
        iv@[1]@ == 0 && iv@[2]@ == 0 && iv@[3]@ == 0,
{
    [Goldilocks::new(ROOT_TAG), Goldilocks::zero(), Goldilocks::zero(), Goldilocks::zero()]
}

} // verus!
