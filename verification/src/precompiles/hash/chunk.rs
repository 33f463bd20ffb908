//! The input tape of the hashers: columns and the message that binds a chain of chunks.

use crate::precompiles::field::{reps, FieldExpr};
use crate::precompiles::logup::{Message, Part};
use crate::precompiles::relations::BusId;
use vstd::prelude::*;

verus! {

pub const COL_CHUNK_SEQ_ID: usize = 0;
pub const COL_PERM_SEQ_ID: usize = 1;
pub const COL_ACT: usize = 2;
pub const COL_IS_HEAD: usize = 3;
/// First of the chunk's content columns: four 64-bit lanes as 32-bit halves.
pub const COL_F_BEGIN: usize = 4;
pub const NUM_F: usize = 8;
pub const NUM_MAIN_COLS: usize = 12;
pub const NUM_AUX_COLS: usize = 5;
/// Fractions in each auxiliary column.
pub const COLUMN_SHAPE: [usize; 5] = [1, 2, 2, 2, 1];

/// The head of one absorption chain: its first chunk and its first permutation.
#[derive(Debug, Clone)]
pub struct ChunkChainMsg<E> {
    pub chunk_seq_id_head: E,
    pub perm_seq_id_head: E,
}

impl<E: FieldExpr> ChunkChainMsg<E> {
    /// The tuple this message puts on [`BusId::ChunkChain`].
    pub fn message(self) -> (r: Message<E>)
        ensures
            r.bus == BusId::ChunkChain,
            r.part == Part::Whole,
            reps(r.elems@) == seq![self.chunk_seq_id_head.rep(), self.perm_seq_id_head.rep()],
    {
        let elems = vec![self.chunk_seq_id_head, self.perm_seq_id_head];
        assert(reps(elems@) =~= seq![self.chunk_seq_id_head.rep(), self.perm_seq_id_head.rep()]);
        Message { bus: BusId::ChunkChain, part: Part::Whole, elems }
    }
}

} // verus!
