//! Bus identifiers and the shape limits that every bus message obeys.

use vstd::prelude::*;

verus! {

/// Domain-separated bus identifier.
#[derive(Copy, Clone, Debug, PartialEq, Eq, Hash, Structural)]
pub enum BusId {
    BytePairLut,
    Range16,
    Memory64,
    KeccakSponge,
    Poseidon2In,
    Poseidon2Out,
    Binding,
    ChunkChain,
    UintVal,
    UintAdd,
    UintMul,
    UintLimbs,
    EcGroup,
    EcPoint,
    EcGroupAdd,
    EcOnCurveCert,
    MsmTerm,
    MsmExpr,
    MsmClaimTerm,
}

/// One more than the largest bus number. Numbers 2 and 3 are retired gaps.
pub const NUM_BUS_IDS: usize = 21;

/// The widest payload, in field elements, that any bus message carries.
pub const MAX_MESSAGE_WIDTH: usize = 18;

/// Net multiplicity a bus tuple is provided or consumed with.
pub type ProvideMult = u32;

impl BusId {
    /// The number that separates this bus from all others.
    pub open spec fn number(self) -> int {
        match self {
            BusId::BytePairLut => 0,
            BusId::Range16 => 1,
            BusId::Memory64 => 4,
            BusId::KeccakSponge => 5,
            BusId::Poseidon2In => 6,
            BusId::Poseidon2Out => 7,
            BusId::Binding => 8,
            BusId::ChunkChain => 9,
            BusId::UintVal => 10,
            BusId::UintAdd => 11,
            BusId::UintMul => 12,
            BusId::UintLimbs => 13,
            BusId::EcGroup => 14,
            BusId::EcPoint => 15,
            BusId::EcGroupAdd => 16,
            BusId::EcOnCurveCert => 17,
            BusId::MsmTerm => 18,
            BusId::MsmExpr => 19,
            BusId::MsmClaimTerm => 20,
        }
    }

    /// The bus number as a table index.
    pub fn index(self) -> (r: usize)
        ensures
            r == self.number(),
            r < NUM_BUS_IDS,
    {
        match self {
            BusId::BytePairLut => 0,
            BusId::Range16 => 1,
            BusId::Memory64 => 4,
            BusId::KeccakSponge => 5,
            BusId::Poseidon2In => 6,
            BusId::Poseidon2Out => 7,
            BusId::Binding => 8,
            BusId::ChunkChain => 9,
            BusId::UintVal => 10,
            BusId::UintAdd => 11,
            BusId::UintMul => 12,
            BusId::UintLimbs => 13,
            BusId::EcGroup => 14,
            BusId::EcPoint => 15,
            BusId::EcGroupAdd => 16,
            BusId::EcOnCurveCert => 17,
            BusId::MsmTerm => 18,
            BusId::MsmExpr => 19,
            BusId::MsmClaimTerm => 20,
        }
    }
}

/// Two buses with the same number are the same bus, so no two relations share a domain.
pub proof fn bus_numbers_are_distinct(a: BusId, b: BusId)
    requires
        a.number() == b.number(),
    ensures
        a == b,
{
}

} // verus!
