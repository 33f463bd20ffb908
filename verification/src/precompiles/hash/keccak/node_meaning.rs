//! What the digest node and the input tape prove: a hash binds the input, its length and the
//! digest that the sponge has left in memory.

use crate::precompiles::field::MODULUS;
use crate::precompiles::hash::chunk;
use crate::precompiles::hash::chunk_node::chunk_fractions;
use crate::precompiles::hash::keccak::node::{
    node_fractions, COL_ACT, COL_CHUNK_SEQ_ID_HEAD, COL_D_BEGIN, COL_H_DIGEST_CHUNKS_BEGIN,
    COL_H_INPUT_CHUNKS_BEGIN, COL_H_KECCAK_BEGIN, COL_LEN_BYTES, COL_N_CHUNKS, COL_N_SPONGE_PERMS,
    COL_OUT_MULT, COL_PERM_SEQ_ID_CHUNKS, COL_PERM_SEQ_ID_DIGEST_CHUNKS, COL_PERM_SEQ_ID_KECCAK,
    COL_SPONGE_SEQ_ID_HEAD, NUM_MAIN_COLS,
};
use crate::precompiles::hash::keccak::sponge_meaning::output_address;
use crate::precompiles::hash::memory64::CHUNK_ADDR_BASE;
use crate::precompiles::logup::{Fraction, Part};
use crate::precompiles::meaning::{cells_are_residues, payload};
use crate::precompiles::relations::BusId;
use crate::precompiles::trace::is_cell;
use vstd::prelude::*;

verus! {

/// What the hashers have done: the input and the output of every permutation by its number, the
/// lanes of the memory, and which permutation starts the hash of the input from a chunk on.
pub struct Hashers {
    pub rate0: spec_fn(int) -> (int, int, int, int),
    pub rate1: spec_fn(int) -> (int, int, int, int),
    pub capacity: spec_fn(int) -> (int, int, int, int),
    pub output: spec_fn(int) -> (int, int, int, int),
    pub lanes: spec_fn(int) -> (int, int),
    pub chains: spec_fn(int) -> int,
}

/// Four elements of a message or a row.
pub open spec fn four(e: Seq<int>, i: int) -> (int, int, int, int) {
    (e[i], e[i + 1], e[i + 2], e[i + 3])
}

/// What a message says of the hashers.
pub open spec fn tells(hashers: Hashers, f: Fraction) -> bool {
    let e = payload(f);
    match f.bus {
        BusId::Poseidon2In => match f.part {
            Part::Rate0 => (hashers.rate0)(e[0]) == four(e, 1),
            Part::Rate1 => (hashers.rate1)(e[0]) == four(e, 1),
            _ => (hashers.capacity)(e[0]) == four(e, 1),
        },
        BusId::Poseidon2Out => (hashers.output)(e[0]) == four(e, 1),
        BusId::Memory64 => (hashers.lanes)(e[0]) == (e[1], e[2]),
        BusId::ChunkChain => (hashers.chains)(e[0]) == e[1],
        _ => true,
    }
}

/// A row of the digest node in use, at the front of block `block` of the sponge.
pub open spec fn is_node(l: Seq<int>, block: int) -> bool {
    &&& l.len() == NUM_MAIN_COLS
    &&& forall|i: int| 0 <= i < NUM_MAIN_COLS ==> is_cell(#[trigger] l[i])
    &&& l[COL_ACT as int] == 1
    &&& l[COL_SPONGE_SEQ_ID_HEAD as int] == 32 * block
    &&& 0 <= block
    &&& 0 < l[COL_N_SPONGE_PERMS as int]
    &&& output_address(block + l[COL_N_SPONGE_PERMS as int]) < MODULUS
    &&& 0 < l[COL_N_CHUNKS as int]
    &&& l[COL_PERM_SEQ_ID_CHUNKS as int] + l[COL_N_CHUNKS as int] < MODULUS
    &&& 4 * l[COL_CHUNK_SEQ_ID_HEAD as int] < MODULUS
}

/// The messages of a node.
pub open spec fn node_messages(l: Seq<int>, t: Seq<int>, kid: int, ktag: int) -> Seq<Fraction> {
    node_fractions(Seq::empty(), l, t, kid, ktag, 0)
}

/// The hash of a node is that of the hash of its input chunks and the hash of its digest, under its
/// kind and the length of the input; the hash of the input is what the permutation of the last of
/// its chunks leaves, and the digest is the first four lanes that the last permutation of the sponge
/// leaves.
pub open spec fn node_is_bound(
    hashers: Hashers,
    l: Seq<int>,
    t: Seq<int>,
    kid: int,
    ktag: int,
    block: int,
) -> bool {
    let at = output_address(block + l[COL_N_SPONGE_PERMS as int] - 1);
    let head = l[COL_PERM_SEQ_ID_CHUNKS as int];
    let digest = l[COL_PERM_SEQ_ID_DIGEST_CHUNKS as int];
    let keccak = l[COL_PERM_SEQ_ID_KECCAK as int];
    let input_hash = four(l, COL_H_INPUT_CHUNKS_BEGIN as int);
    let digest_hash = four(l, COL_H_DIGEST_CHUNKS_BEGIN as int);
    &&& (hashers.chains)(l[COL_CHUNK_SEQ_ID_HEAD as int]) == head
    &&& (hashers.output)(head + (l[COL_N_CHUNKS as int] - 1)) == input_hash
    &&& forall|j: int|
        0 <= j < 4 ==> #[trigger] (hashers.lanes)(at + j) == (
            l[COL_D_BEGIN + 2 * j],
            l[COL_D_BEGIN + 2 * j + 1],
        )
    &&& (hashers.rate0)(digest) == four(l, COL_D_BEGIN as int)
    &&& (hashers.rate1)(digest) == four(l, COL_D_BEGIN + 4)
    &&& (hashers.capacity)(digest) == four(t, 0)
    &&& (hashers.output)(digest) == digest_hash
    &&& (hashers.rate0)(keccak) == input_hash
    &&& (hashers.rate1)(keccak) == digest_hash
    &&& (hashers.capacity)(keccak) == (kid, ktag, l[COL_LEN_BYTES as int], 0int)
    &&& (hashers.output)(keccak) == four(l, COL_H_KECCAK_BEGIN as int)
}

/// Every element of the messages of a node is a residue.
#[verifier::spinoff_prover]
#[verifier::rlimit(30)]
proof fn node_elements(l: Seq<int>, t: Seq<int>, kid: int, ktag: int, block: int, k: int)
    requires
        is_node(l, block),
        t.len() == 4,
        forall|i: int| 0 <= i < 4 ==> is_cell(#[trigger] t[i]),
        is_cell(kid),
        is_cell(ktag),
        0 <= k < node_messages(l, t, kid, ktag).len(),
    ensures
        node_messages(l, t, kid, ktag).len() == 16,
        payload(node_messages(l, t, kid, ktag)[k]) == node_messages(l, t, kid, ktag)[k].elems,
{
    let f = node_messages(l, t, kid, ktag)[k];
    assert(is_cell(0));
    assert(is_cell(l[COL_CHUNK_SEQ_ID_HEAD as int]));
    assert(is_cell(l[COL_PERM_SEQ_ID_CHUNKS as int]));
    assert forall|i: int| 0 <= i < f.elems.len() implies is_cell(#[trigger] f.elems[i]) by {
        if k < 4 {
        } else if k < 8 {
        } else if k < 12 {
        } else {
        }
    }
    cells_are_residues(f);
}

/// The messages that a node consumes are true exactly if its hash binds the input, its length and the
/// digest. Each is consumed once, the lanes of the digest twice; the node asks the sponge once for
/// the hash of its input, and vouches for its hash as often as it counts.
#[verifier::spinoff_prover]
#[verifier::rlimit(40)]
pub proof fn nodes_bind_their_digest(
    hashers: Hashers,
    l: Seq<int>,
    t: Seq<int>,
    kid: int,
    ktag: int,
    block: int,
)
    requires
        is_node(l, block),
        t.len() == 4,
        forall|i: int| 0 <= i < 4 ==> is_cell(#[trigger] t[i]),
        is_cell(kid),
        is_cell(ktag),
    ensures
        (forall|k: int|
            0 <= k < node_messages(l, t, kid, ktag).len() && (#[trigger] node_messages(
                l,
                t,
                kid,
                ktag,
            )[k]).mult > 0 ==> tells(hashers, node_messages(l, t, kid, ktag)[k])) <==> node_is_bound(
            hashers,
            l,
            t,
            kid,
            ktag,
            block,
        ),
        forall|k: int|
            0 <= k < node_messages(l, t, kid, ktag).len() ==> {
                let f = #[trigger] node_messages(l, t, kid, ktag)[k];
                match f.bus {
                    BusId::KeccakSponge => f.mult == -1 && payload(f) == seq![
                        32 * block,
                        4 * l[COL_CHUNK_SEQ_ID_HEAD as int],
                        l[COL_LEN_BYTES as int],
                    ],
                    BusId::Binding => f.mult == -l[COL_OUT_MULT as int] && f.part == Part::Truth
                        && payload(f).len() == 4 && four(payload(f), 0) == four(
                        l,
                        COL_H_KECCAK_BEGIN as int,
                    ),
                    BusId::Memory64 => f.mult == 2,
                    _ => f.mult == 1,
                }
            },
        exists|k: int|
            0 <= k < node_messages(l, t, kid, ktag).len() && (#[trigger] node_messages(
                l,
                t,
                kid,
                ktag,
            )[k]).bus == BusId::KeccakSponge,
        exists|k: int|
            0 <= k < node_messages(l, t, kid, ktag).len() && (#[trigger] node_messages(
                l,
                t,
                kid,
                ktag,
            )[k]).bus == BusId::Binding,
{
    let fs = node_messages(l, t, kid, ktag);
    let at = output_address(block + l[COL_N_SPONGE_PERMS as int] - 1);
    assert(fs.len() == 16);
    assert forall|k: int| 0 <= k < 16 implies payload(#[trigger] fs[k]) == fs[k].elems by {
        node_elements(l, t, kid, ktag, block, k);
    }
    assert(fs[0].bus == BusId::KeccakSponge);
    assert(fs[1].bus == BusId::Binding);
    assert(is_cell(l[COL_OUT_MULT as int]));
    if forall|k: int| 0 <= k < fs.len() && (#[trigger] fs[k]).mult > 0 ==> tells(hashers, fs[k]) {
        assert(tells(hashers, fs[2]) && tells(hashers, fs[3]));
        assert(tells(hashers, fs[4]) && tells(hashers, fs[5]));
        assert(tells(hashers, fs[6]) && tells(hashers, fs[7]));
        assert(tells(hashers, fs[8]) && tells(hashers, fs[9]));
        assert(tells(hashers, fs[10]) && tells(hashers, fs[11]));
        assert(tells(hashers, fs[12]) && tells(hashers, fs[13]));
        assert(tells(hashers, fs[14]) && tells(hashers, fs[15]));
        assert((hashers.lanes)(at + 0) == (l[COL_D_BEGIN + 0], l[COL_D_BEGIN + 1]));
        assert((hashers.lanes)(at + 1) == (l[COL_D_BEGIN + 2], l[COL_D_BEGIN + 3]));
        assert((hashers.lanes)(at + 2) == (l[COL_D_BEGIN + 4], l[COL_D_BEGIN + 5]));
        assert((hashers.lanes)(at + 3) == (l[COL_D_BEGIN + 6], l[COL_D_BEGIN + 7]));
        assert forall|j: int| 0 <= j < 4 implies #[trigger] (hashers.lanes)(at + j) == (
            l[COL_D_BEGIN + 2 * j],
            l[COL_D_BEGIN + 2 * j + 1],
        ) by {
            if j == 0 {
            } else if j == 1 {
            } else if j == 2 {
            } else {
                assert(j == 3);
            }
        }
        assert(node_is_bound(hashers, l, t, kid, ktag, block));
    }
    if node_is_bound(hashers, l, t, kid, ktag, block) {
        assert((hashers.lanes)(at + 0) == (l[COL_D_BEGIN + 2 * 0], l[COL_D_BEGIN + 2 * 0 + 1]));
        assert((hashers.lanes)(at + 1) == (l[COL_D_BEGIN + 2 * 1], l[COL_D_BEGIN + 2 * 1 + 1]));
        assert((hashers.lanes)(at + 2) == (l[COL_D_BEGIN + 2 * 2], l[COL_D_BEGIN + 2 * 2 + 1]));
        assert((hashers.lanes)(at + 3) == (l[COL_D_BEGIN + 2 * 3], l[COL_D_BEGIN + 2 * 3 + 1]));
        assert forall|k: int| 0 <= k < fs.len() && (#[trigger] fs[k]).mult > 0 implies tells(
            hashers,
            fs[k],
        ) by {
            if k < 4 {
            } else if k < 8 {
            } else if k < 12 {
            } else {
            }
        }
    }
}

/// A chunk in use puts its eight halves on the tape as four lanes, one behind the other, and has
/// them absorbed by its permutation; the first chunk of an input fixes the capacity and says where
/// the hash of the input starts.
#[verifier::spinoff_prover]
#[verifier::rlimit(40)]
pub proof fn chunks_lie_on_the_tape(hashers: Hashers, l: Seq<int>, t: Seq<int>)
    requires
        l.len() == chunk::NUM_MAIN_COLS,
        forall|i: int| 0 <= i < chunk::NUM_MAIN_COLS ==> is_cell(#[trigger] l[i]),
        t.len() == 4,
        forall|i: int| 0 <= i < 4 ==> is_cell(#[trigger] t[i]),
        l[chunk::COL_ACT as int] == 1,
        l[chunk::COL_IS_HEAD as int] == 0 || l[chunk::COL_IS_HEAD as int] == 1,
        CHUNK_ADDR_BASE + 4 * l[chunk::COL_CHUNK_SEQ_ID as int] + 3 < MODULUS,
    ensures
        ({
            let fs = chunk_fractions(l, t);
            let seq = l[chunk::COL_CHUNK_SEQ_ID as int];
            let perm = l[chunk::COL_PERM_SEQ_ID as int];
            let heads = l[chunk::COL_IS_HEAD as int] == 1;
            &&& (forall|k: int|
                0 <= k < fs.len() && (#[trigger] fs[k]).mult != 0 ==> tells(hashers, fs[k])) <==> {
                &&& forall|j: int|
                    0 <= j < 4 ==> #[trigger] (hashers.lanes)(CHUNK_ADDR_BASE + 4 * seq + j) == (
                        l[chunk::COL_F_BEGIN + 2 * j],
                        l[chunk::COL_F_BEGIN + 2 * j + 1],
                    )
                &&& (hashers.rate0)(perm) == four(l, chunk::COL_F_BEGIN as int)
                &&& (hashers.rate1)(perm) == four(l, chunk::COL_F_BEGIN + 4)
                &&& heads ==> (hashers.capacity)(perm) == four(t, 0)
                &&& heads ==> (hashers.chains)(seq) == perm
            }
            &&& forall|k: int|
                0 <= k < fs.len() ==> {
                    let f = #[trigger] fs[k];
                    match f.bus {
                        BusId::Memory64 => f.mult == -1,
                        BusId::ChunkChain => f.mult == if heads { -1int } else { 0 },
                        _ => f.mult == if f.part == Part::Capacity && !heads {
                            0int
                        } else {
                            1
                        },
                    }
                }
        }),
{
    let fs = chunk_fractions(l, t);
    let seq = l[chunk::COL_CHUNK_SEQ_ID as int];
    let perm = l[chunk::COL_PERM_SEQ_ID as int];
    let base: int = CHUNK_ADDR_BASE + 4 * seq;
    let act: int = l[chunk::COL_ACT as int];
    let head: int = l[chunk::COL_IS_HEAD as int];
    assert(act * head == head) by (nonlinear_arith)
        requires
            act == 1,
    ;
    assert(fs.len() == 8);
    assert(is_cell(l[chunk::COL_CHUNK_SEQ_ID as int]));
    assert forall|k: int| 0 <= k < 8 implies payload(#[trigger] fs[k]) == fs[k].elems by {
        let f = fs[k];
        assert forall|i: int| 0 <= i < f.elems.len() implies is_cell(#[trigger] f.elems[i]) by {
            if k < 4 {
            } else {
            }
        }
        cells_are_residues(f);
    }
    if forall|k: int| 0 <= k < fs.len() && (#[trigger] fs[k]).mult != 0 ==> tells(hashers, fs[k]) {
        assert(tells(hashers, fs[0]) && tells(hashers, fs[1]));
        assert(tells(hashers, fs[2]) && tells(hashers, fs[3]));
        assert(tells(hashers, fs[4]) && tells(hashers, fs[5]));
        assert(head == 1 ==> tells(hashers, fs[6]) && tells(hashers, fs[7]));
        assert((hashers.lanes)(base + 0) == (l[chunk::COL_F_BEGIN + 0], l[chunk::COL_F_BEGIN + 1]));
        assert((hashers.lanes)(base + 1) == (l[chunk::COL_F_BEGIN + 2], l[chunk::COL_F_BEGIN + 3]));
        assert((hashers.lanes)(base + 2) == (l[chunk::COL_F_BEGIN + 4], l[chunk::COL_F_BEGIN + 5]));
        assert((hashers.lanes)(base + 3) == (l[chunk::COL_F_BEGIN + 6], l[chunk::COL_F_BEGIN + 7]));
        assert forall|j: int| 0 <= j < 4 implies #[trigger] (hashers.lanes)(base + j) == (
            l[chunk::COL_F_BEGIN + 2 * j],
            l[chunk::COL_F_BEGIN + 2 * j + 1],
        ) by {
            if j == 0 {
            } else if j == 1 {
            } else if j == 2 {
            } else {
                assert(j == 3);
            }
        }
    }
    if forall|j: int|
        0 <= j < 4 ==> #[trigger] (hashers.lanes)(base + j) == (
            l[chunk::COL_F_BEGIN + 2 * j],
            l[chunk::COL_F_BEGIN + 2 * j + 1],
        ) {
        assert((hashers.lanes)(base + 0) == (
            l[chunk::COL_F_BEGIN + 2 * 0],
            l[chunk::COL_F_BEGIN + 2 * 0 + 1],
        ));
        assert((hashers.lanes)(base + 1) == (
            l[chunk::COL_F_BEGIN + 2 * 1],
            l[chunk::COL_F_BEGIN + 2 * 1 + 1],
        ));
        assert((hashers.lanes)(base + 2) == (
            l[chunk::COL_F_BEGIN + 2 * 2],
            l[chunk::COL_F_BEGIN + 2 * 2 + 1],
        ));
        assert((hashers.lanes)(base + 3) == (
            l[chunk::COL_F_BEGIN + 2 * 3],
            l[chunk::COL_F_BEGIN + 2 * 3 + 1],
        ));
    }
}

} // verus!
