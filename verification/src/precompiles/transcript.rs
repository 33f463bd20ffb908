//! Messages of the transcript tables that the hash chiplets talk to.

use crate::precompiles::field::{reps, FieldExpr};
use crate::precompiles::logup::{Message, Part};
use crate::precompiles::relations::BusId;
use vstd::prelude::*;

verus! {

/// `head` followed by the four elements of `tail`.
fn with_head<E: FieldExpr>(head: E, tail: &[E; 4]) -> (r: Vec<E>)
    ensures
        reps(r@) == seq![
            head.rep(),
            tail@[0].rep(),
            tail@[1].rep(),
            tail@[2].rep(),
            tail@[3].rep(),
        ],
{
    let elems = vec![head, tail[0].dup(), tail[1].dup(), tail[2].dup(), tail[3].dup()];
    assert(reps(elems@) =~= seq![
        head.rep(),
        tail@[0].rep(),
        tail@[1].rep(),
        tail@[2].rep(),
        tail@[3].rep(),
    ]);
    elems
}

/// One third of the input of a Poseidon2 permutation.
#[derive(Debug)]
pub struct Poseidon2InMsg<E> {
    pub perm_seq_id: E,
    pub part: Part,
    pub lanes: [E; 4],
}

impl<E: FieldExpr> Poseidon2InMsg<E> {
    /// The first half of the rate.
    pub fn rate0(perm_seq_id: E, lanes: [E; 4]) -> (r: Self)
        ensures
            r == (Poseidon2InMsg { perm_seq_id, part: Part::Rate0, lanes }),
    {
        Poseidon2InMsg { perm_seq_id, part: Part::Rate0, lanes }
    }

    /// The second half of the rate.
    pub fn rate1(perm_seq_id: E, lanes: [E; 4]) -> (r: Self)
        ensures
            r == (Poseidon2InMsg { perm_seq_id, part: Part::Rate1, lanes }),
    {
        Poseidon2InMsg { perm_seq_id, part: Part::Rate1, lanes }
    }

    /// The capacity.
    pub fn cap(perm_seq_id: E, lanes: [E; 4]) -> (r: Self)
        ensures
            r == (Poseidon2InMsg { perm_seq_id, part: Part::Capacity, lanes }),
    {
        Poseidon2InMsg { perm_seq_id, part: Part::Capacity, lanes }
    }

    /// The tuple this message puts on [`BusId::Poseidon2In`].
    pub fn message(self) -> (r: Message<E>)
        ensures
            r.bus == BusId::Poseidon2In,
            r.part == self.part,
            reps(r.elems@) == seq![
                self.perm_seq_id.rep(),
                self.lanes@[0].rep(),
                self.lanes@[1].rep(),
                self.lanes@[2].rep(),
                self.lanes@[3].rep(),
            ],
    {
        let Poseidon2InMsg { perm_seq_id, part, lanes } = self;
        Message { bus: BusId::Poseidon2In, part, elems: with_head(perm_seq_id, &lanes) }
    }
}

/// The digest of a Poseidon2 permutation.
#[derive(Debug)]
pub struct Poseidon2OutMsg<E> {
    pub perm_seq_id: E,
    pub digest: [E; 4],
}

impl<E: FieldExpr> Poseidon2OutMsg<E> {
    /// The tuple this message puts on [`BusId::Poseidon2Out`].
    pub fn message(self) -> (r: Message<E>)
        ensures
            r.bus == BusId::Poseidon2Out,
            r.part == Part::Whole,
            reps(r.elems@) == seq![
                self.perm_seq_id.rep(),
                self.digest@[0].rep(),
                self.digest@[1].rep(),
                self.digest@[2].rep(),
                self.digest@[3].rep(),
            ],
    {
        let Poseidon2OutMsg { perm_seq_id, digest } = self;
        Message {
            bus: BusId::Poseidon2Out,
            part: Part::Whole,
            elems: with_head(perm_seq_id, &digest),
        }
    }
}

/// The binding of a transcript node's hash to its meaning.
#[derive(Debug)]
pub struct BindingMsg<E> {
    pub hash: [E; 4],
}

impl<E: FieldExpr> BindingMsg<E> {
    /// The statement that the node with this hash is true.
    pub fn truth(hash: [E; 4]) -> (r: Self)
        ensures
            r.hash == hash,
    {
        BindingMsg { hash }
    }

    /// The tuple this message puts on [`BusId::Binding`].
    pub fn message(self) -> (r: Message<E>)
        ensures
            r.bus == BusId::Binding,
            r.part == Part::Truth,
            reps(r.elems@) == seq![
                self.hash@[0].rep(),
                self.hash@[1].rep(),
                self.hash@[2].rep(),
                self.hash@[3].rep(),
            ],
    {
        let BindingMsg { hash } = self;
        let elems = vec![hash[0].dup(), hash[1].dup(), hash[2].dup(), hash[3].dup()];
        assert(reps(elems@) =~= seq![
            hash@[0].rep(),
            hash@[1].rep(),
            hash@[2].rep(),
            hash@[3].rep(),
        ]);
        Message { bus: BusId::Binding, part: Part::Truth, elems }
    }
}

} // verus!
