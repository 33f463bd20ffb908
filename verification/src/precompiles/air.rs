//! The chiplet family as one relation: its members in protocol order, and the identity that ties
//! their bus residues together.

use crate::precompiles::byte_pair_lut;
use crate::precompiles::extension::{
    base, quad_encoding, quad_residues, residue_sum, residues, Quad, QuadFelt,
};
use crate::precompiles::field::{Felt, FieldExpr};
use crate::precompiles::logup::{Challenges, Message, Part};
use crate::precompiles::relations::{BusId, MAX_MESSAGE_WIDTH};
use vstd::prelude::*;

verus! {

/// Number of chiplets in the relation.
pub const NUM_CHIPLETS: usize = 10;

/// A member of the chiplet family. The order of the variants is part of the protocol.
#[derive(Clone, Copy, Debug, Eq, PartialEq, Structural)]
pub enum ChipletAir {
    ChunkNodeSponge,
    Poseidon2,
    KeccakRound,
    BytePairLut,
    TranscriptEval,
    UintStoreMul,
    UintAdd,
    EcPointStoreGroups,
    EcGroupAdd,
    EcMsm,
}

impl ChipletAir {
    /// The place of this chiplet in the protocol order.
    pub open spec fn position(self) -> int {
        match self {
            ChipletAir::ChunkNodeSponge => 0,
            ChipletAir::Poseidon2 => 1,
            ChipletAir::KeccakRound => 2,
            ChipletAir::BytePairLut => 3,
            ChipletAir::TranscriptEval => 4,
            ChipletAir::UintStoreMul => 5,
            ChipletAir::UintAdd => 6,
            ChipletAir::EcPointStoreGroups => 7,
            ChipletAir::EcGroupAdd => 8,
            ChipletAir::EcMsm => 9,
        }
    }

    /// Every chiplet, in protocol order.
    pub fn all() -> (r: [ChipletAir; 10])
        ensures
            forall|i: int| 0 <= i < NUM_CHIPLETS ==> (#[trigger] r@[i]).position() == i,
    {
        [
            ChipletAir::ChunkNodeSponge,
            ChipletAir::Poseidon2,
            ChipletAir::KeccakRound,
            ChipletAir::BytePairLut,
            ChipletAir::TranscriptEval,
            ChipletAir::UintStoreMul,
            ChipletAir::UintAdd,
            ChipletAir::EcPointStoreGroups,
            ChipletAir::EcGroupAdd,
            ChipletAir::EcMsm,
        ]
    }

    /// The base-two logarithm of the trace height, for chiplets whose height is fixed.
    pub fn fixed_log_height(&self) -> (r: Option<u32>)
        ensures
            r is Some <==> *self == ChipletAir::BytePairLut,
            r matches Some(h) ==> h == 16 && byte_pair_lut::TRACE_HEIGHT == 0x1_0000,
    {
        match self {
            ChipletAir::BytePairLut => Some(16),
            _ => None,
        }
    }
}

/// Every chiplet occurs in the protocol order, and only once.
pub proof fn positions_are_distinct(a: ChipletAir, b: ChipletAir)
    ensures
        0 <= a.position() < NUM_CHIPLETS,
        a.position() == b.position() ==> a == b,
{
}

/// The relation of all chiplets.
#[derive(Debug, Clone)]
pub struct ChipletMultiAir {
    airs: Vec<ChipletAir>,
}

impl ChipletMultiAir {
    pub closed spec fn members(&self) -> Seq<ChipletAir> {
        self.airs@
    }

    /// The relation of every chiplet, in protocol order.
    pub fn new() -> (r: Self)
        ensures
            r.members().len() == NUM_CHIPLETS,
            forall|i: int| 0 <= i < NUM_CHIPLETS ==> (#[trigger] r.members()[i]).position() == i,
    {
        let all = ChipletAir::all();
        let mut airs: Vec<ChipletAir> = Vec::new();
        let mut i: usize = 0;
        while i < NUM_CHIPLETS
            invariant
                i <= NUM_CHIPLETS,
                airs@ == all@.take(i as int),
            decreases NUM_CHIPLETS - i,
        {
            airs.push(all[i]);
            assert(airs@ =~= all@.take(i + 1));
            i = i + 1;
        }
        assert(airs@ =~= all@);
        ChipletMultiAir { airs }
    }

    /// The chiplets of the relation.
    pub fn airs(&self) -> (r: &[ChipletAir])
        ensures
            r@ == self.members(),
    {
        self.airs.as_slice()
    }

    /// The one value that must vanish: the chiplets' residues plus what the fixed rows of the
    /// stores contribute. `None` when a fixed message encodes to zero.
    pub fn eval_external(
        &self,
        challenges: &Challenges<QuadFelt>,
        aux_values: &[Vec<QuadFelt>],
        fixed: &[Message<Felt>],
    ) -> (r: Option<QuadFelt>)
        requires
            challenges.prepared(),
            forall|i: int| 0 <= i < aux_values@.len() ==> (#[trigger] aux_values@[i])@.len() > 0,
            encodable(fixed@),
        ensures
            r is None <==> exists|i: int|
                0 <= i < fixed@.len() && #[trigger] denominator(challenges, fixed@, i) == base(0),
            r matches Some(v) ==> exists|inverses: Seq<Quad>|
                #[trigger] are_inverses(challenges, fixed@, inverses) && v@ == quad_residues(
                    aux_values@,
                ).plus(total(inverses)),
    {
        let sigma = residue_sum(aux_values);
        match boundary_correction(challenges, fixed) {
            Ok(correction) => Some(sigma.plus(&correction)),
            Err(_) => None,
        }
    }
}

impl Default for ChipletMultiAir {
    fn default() -> (r: Self)
        ensures
            r.members().len() == NUM_CHIPLETS,
            forall|i: int| 0 <= i < NUM_CHIPLETS ==> (#[trigger] r.members()[i]).position() == i,
    {
        Self::new()
    }
}

/// Whether every message has an encoding.
pub open spec fn encodable(messages: Seq<Message<Felt>>) -> bool {
    forall|i: int|
        0 <= i < messages.len() ==> (#[trigger] messages[i]).part == Part::Whole
            && messages[i].elems@.len() <= MAX_MESSAGE_WIDTH
}

/// The encoding of message `i`.
pub open spec fn denominator(
    challenges: &Challenges<QuadFelt>,
    messages: Seq<Message<Felt>>,
    i: int,
) -> Quad {
    quad_encoding(
        challenges.drawn_alpha(),
        challenges.drawn_beta(),
        messages[i].bus,
        residues(messages[i].elems@),
    )
}

/// Whether `inverses` lists the inverse of each message's encoding.
pub open spec fn are_inverses(
    challenges: &Challenges<QuadFelt>,
    messages: Seq<Message<Felt>>,
    inverses: Seq<Quad>,
) -> bool {
    &&& inverses.len() == messages.len()
    &&& forall|i: int|
        0 <= i < messages.len() ==> (#[trigger] inverses[i]).canonical() && denominator(
            challenges,
            messages,
            i,
        ).times(inverses[i]) == base(1)
}

/// The sum of a row of elements.
pub open spec fn total(values: Seq<Quad>) -> Quad
    decreases values.len(),
{
    if values.len() == 0 {
        base(0)
    } else {
        total(values.drop_last()).plus(values.last())
    }
}

/// Adds up the inverses of the messages' encodings: what rows that every trace holds contribute
/// to the buses. Where an encoding is zero, the first such message's bus is the error.
pub fn boundary_correction(challenges: &Challenges<QuadFelt>, messages: &[Message<Felt>]) -> (r:
    Result<QuadFelt, BusId>)
    requires
        challenges.prepared(),
        encodable(messages@),
    ensures
        match r {
            Ok(v) => {
                &&& forall|i: int|
                    0 <= i < messages@.len() ==> #[trigger] denominator(challenges, messages@, i)
                        != base(0)
                &&& exists|inverses: Seq<Quad>| #[trigger]
                    are_inverses(challenges, messages@, inverses) && v@ == total(inverses)
            },
            Err(bus) => exists|i: int|
                {
                    &&& 0 <= i < messages@.len()
                    &&& #[trigger] denominator(challenges, messages@, i) == base(0)
                    &&& bus == messages@[i].bus
                    &&& forall|j: int|
                        0 <= j < i ==> #[trigger] denominator(challenges, messages@, j) != base(0)
                },
        },
{
    let mut sum = QuadFelt::from_base(&Felt::constant(0));
    let ghost mut inverses: Seq<Quad> = Seq::empty();
    let mut i: usize = 0;
    while i < messages.len()
        invariant
            challenges.prepared(),
            encodable(messages@),
            i <= messages@.len(),
            inverses.len() == i,
            sum@ == total(inverses),
            forall|j: int|
                0 <= j < i ==> #[trigger] denominator(challenges, messages@, j) != base(0),
            forall|j: int|
                0 <= j < i ==> (#[trigger] inverses[j]).canonical() && denominator(
                    challenges,
                    messages@,
                    j,
                ).times(inverses[j]) == base(1),
        decreases messages@.len() - i,
    {
        let encoded = challenges.fold(&messages[i]);
        assert(encoded@ == denominator(challenges, messages@, i as int));
        match encoded.try_inverse() {
            Some(x) => {
                proof {
                    let before = inverses;
                    inverses = inverses.push(x@);
                    assert(inverses.drop_last() =~= before);
                }
                sum = sum.plus(&x);
            },
            None => {
                return Err(messages[i].bus);
            },
        }
        i = i + 1;
    }
    assert(are_inverses(challenges, messages@, inverses));
    Ok(sum)
}

} // verus!
