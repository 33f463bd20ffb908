//! The 64-bit memory bus, shared by the hashers for state and input lanes.

use crate::precompiles::field::{reps, FieldExpr};
use crate::precompiles::logup::{Message, Part};
use crate::precompiles::relations::BusId;
use vstd::prelude::*;

verus! {

/// First address of the input tape. It lies above every address a hasher uses for its state.
pub const CHUNK_ADDR_BASE: u64 = 0x1_0000_0000_0000;

/// A memory cell: the address and the two 32-bit halves of its value.
#[derive(Debug, Clone)]
pub struct Memory64Msg<E> {
    pub addr: E,
    pub lo: E,
    pub hi: E,
}

impl<E: FieldExpr> Memory64Msg<E> {
    /// The tuple this message puts on [`BusId::Memory64`].
    pub fn message(self) -> (r: Message<E>)
        ensures
            r.bus == BusId::Memory64,
            r.part == Part::Whole,
            reps(r.elems@) == seq![self.addr.rep(), self.lo.rep(), self.hi.rep()],
    {
        let elems = vec![self.addr, self.lo, self.hi];
        assert(reps(elems@) =~= seq![self.addr.rep(), self.lo.rep(), self.hi.rep()]);
        Message { bus: BusId::Memory64, part: Part::Whole, elems }
    }
}

} // verus!
