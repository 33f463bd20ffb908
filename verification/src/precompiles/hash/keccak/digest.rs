//! The 256-bit Keccak digest.

use crate::precompiles::field::{Felt, FieldExpr};
use crate::precompiles::utils::split_u64;
use vstd::prelude::*;

verus! {

/// 256-bit Keccak digest as four 64-bit lanes.
#[derive(Debug, Clone, Copy, PartialEq, Eq, PartialOrd, Ord, Hash, Default)]
pub struct KeccakDigest(pub [u64; 4]);

impl KeccakDigest {
    /// The digest portion of a state that has been permuted.
    pub fn from_state(state: &[u64; 25]) -> (r: Self)
        ensures
            r.0@ == state@.take(4),
    {
        let r = Self([state[0], state[1], state[2], state[3]]);
        assert(r.0@ =~= state@.take(4));
        r
    }

    /// Half `i` of the digest: the low and high 32 bits of each lane in turn.
    pub open spec fn half(self, i: int) -> int {
        if i % 2 == 0 {
            self.0@[i / 2] as int % 0x1_0000_0000
        } else {
            self.0@[i / 2] as int / 0x1_0000_0000
        }
    }

    /// The digest as the eight field elements that go over the memory bus.
    pub fn to_felts(self) -> (r: Vec<Felt>)
        ensures
            r@.len() == 8,
            forall|i: int| 0 <= i < 8 ==> (#[trigger] r@[i]).rep() == self.half(i),
    {
        let halves = self.to_u32s();
        let mut out: Vec<Felt> = Vec::new();
        let mut i: usize = 0;
        while i < 8
            invariant
                i <= 8,
                out@.len() == i,
                forall|j: int| 0 <= j < 8 ==> #[trigger] halves@[j] == self.half(j),
                forall|j: int| 0 <= j < i ==> (#[trigger] out@[j]).rep() == self.half(j),
            decreases 8 - i,
        {
            out.push(Felt::constant(halves[i] as u64));
            i = i + 1;
        }
        out
    }

    /// The digest as eight 32-bit halves.
    pub fn to_u32s(self) -> (r: [u32; 8])
        ensures
            forall|i: int| 0 <= i < 8 ==> #[trigger] r@[i] == self.half(i),
    {
        let (l0, h0) = split_u64(self.0[0]);
        let (l1, h1) = split_u64(self.0[1]);
        let (l2, h2) = split_u64(self.0[2]);
        let (l3, h3) = split_u64(self.0[3]);
        [l0, h0, l1, h1, l2, h2, l3, h3]
    }
}

/// The eight halves determine the digest.
pub proof fn halves_determine_digest(a: KeccakDigest, b: KeccakDigest)
    requires
        forall|i: int| 0 <= i < 8 ==> #[trigger] a.half(i) == b.half(i),
    ensures
        a.0@ == b.0@,
{
    assert forall|j: int| 0 <= j < 4 implies a.0@[j] == b.0@[j] by {
        assert(a.half(2 * j) == b.half(2 * j));
        assert(a.half(2 * j + 1) == b.half(2 * j + 1));
    }
    assert(a.0@ =~= b.0@);
}

} // verus!
