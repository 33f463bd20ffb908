//! The transcript node of a Keccak digest: it ties a hash request, its input chain and the digest
//! lanes to one statement of the transcript.

use crate::precompiles::field::{reps, FieldExpr};
use crate::precompiles::hash::chunk::ChunkChainMsg;
use crate::precompiles::hash::keccak::sponge::KeccakSpongeMsg;
use crate::precompiles::hash::memory64::Memory64Msg;
use crate::precompiles::logup::{
    bool_poly, demands, fractions, interact, require, require_bool, Constraint, Deg, Fraction,
    FractionColumn, Interaction, Part, Rows,
};
use crate::precompiles::relations::BusId;
use crate::precompiles::transcript::{BindingMsg, Poseidon2InMsg, Poseidon2OutMsg};
use vstd::prelude::*;

verus! {

pub const COL_ACT: usize = 0;
pub const COL_SPONGE_SEQ_ID_HEAD: usize = 1;
pub const COL_N_SPONGE_PERMS: usize = 2;
pub const COL_CHUNK_SEQ_ID_HEAD: usize = 3;
pub const COL_N_CHUNKS: usize = 4;
pub const COL_PERM_SEQ_ID_CHUNKS: usize = 5;
pub const COL_LEN_BYTES: usize = 6;
pub const COL_PERM_SEQ_ID_DIGEST_CHUNKS: usize = 7;
pub const COL_PERM_SEQ_ID_KECCAK: usize = 8;
pub const COL_D_BEGIN: usize = 9;
pub const COL_D_END: usize = 17;
pub const COL_H_INPUT_CHUNKS_BEGIN: usize = 17;
pub const COL_H_INPUT_CHUNKS_END: usize = 21;
pub const COL_H_DIGEST_CHUNKS_BEGIN: usize = 21;
pub const COL_H_DIGEST_CHUNKS_END: usize = 25;
pub const COL_H_KECCAK_BEGIN: usize = 25;
pub const COL_H_KECCAK_END: usize = 29;
pub const COL_OUT_MULT: usize = 29;
pub const NUM_D: usize = 8;
pub const NUM_HASH: usize = 4;
pub const NUM_MAIN_COLS: usize = 30;
pub const NUM_AUX_COLS: usize = 9;
/// Fractions in each auxiliary column.
pub const COLUMN_SHAPE: [usize; 9] = [1, 2, 1, 2, 2, 2, 2, 2, 2];

/// The digest node table.
#[derive(Debug, Default, Clone, Copy)]
pub struct KeccakNodeAir;

/// Invocations tile the sponge's rows and the input tape without gaps, and padding provides
/// nothing.
pub open spec fn node_demands(l: Seq<int>, n: Seq<int>) -> Seq<(Rows, int)> {
    let s = Seq::<(Rows, int)>::empty();
    let act: int = l[COL_ACT as int];
    let act_next: int = n[COL_ACT as int];
    let sponge_seq_id_head: int = l[COL_SPONGE_SEQ_ID_HEAD as int];
    let sponge_seq_id_head_next: int = n[COL_SPONGE_SEQ_ID_HEAD as int];
    let chunk_seq_id_head: int = l[COL_CHUNK_SEQ_ID_HEAD as int];
    let chunk_seq_id_head_next: int = n[COL_CHUNK_SEQ_ID_HEAD as int];
    let s = s.push((Rows::First, sponge_seq_id_head));
    let s = s.push((Rows::First, chunk_seq_id_head));
    let s = s.push((Rows::All, bool_poly(act)));
    let s = s.push((Rows::AllButLast, (1 - act) * act_next));
    let s = s.push((Rows::All, (1 - act) * l[COL_OUT_MULT as int]));
    let s = s.push(
        (
            Rows::AllButLast,
            act_next * (
                sponge_seq_id_head_next - sponge_seq_id_head - 32 * l[COL_N_SPONGE_PERMS as int]
            ),
        )
    );
    let s = s.push(
        (
            Rows::AllButLast,
            act_next * (chunk_seq_id_head_next - chunk_seq_id_head - l[COL_N_CHUNKS as int]),
        )
    );
    s
}

/// The constraints on a row and its successor.
pub fn eval_main<E: FieldExpr>(local: &[E], next: &[E]) -> (r: Vec<Constraint<E>>)
    requires
        local@.len() == NUM_MAIN_COLS,
        next@.len() == NUM_MAIN_COLS,
    ensures
        demands(r@) == node_demands(reps(local@), reps(next@)),
{
    let mut out: Vec<Constraint<E>> = Vec::new();
    assert(demands(out@) =~= Seq::<(Rows, int)>::empty());
    let act = &local[COL_ACT];
    let act_next = &next[COL_ACT];
    let sponge_seq_id_head = &local[COL_SPONGE_SEQ_ID_HEAD];
    let sponge_seq_id_head_next = &next[COL_SPONGE_SEQ_ID_HEAD];
    let chunk_seq_id_head = &local[COL_CHUNK_SEQ_ID_HEAD];
    let chunk_seq_id_head_next = &next[COL_CHUNK_SEQ_ID_HEAD];
    require(&mut out, Rows::First, sponge_seq_id_head.dup());
    require(&mut out, Rows::First, chunk_seq_id_head.dup());
    require_bool(&mut out, act);
    require(&mut out, Rows::AllButLast, E::constant(1).minus(act).times(act_next));
    require(&mut out, Rows::All, E::constant(1).minus(act).times(&local[COL_OUT_MULT]));
    require(
        &mut out,
        Rows::AllButLast,
        act_next.times(
            &sponge_seq_id_head_next.minus(sponge_seq_id_head).minus(
                &E::constant(32).times(&local[COL_N_SPONGE_PERMS]),
            ),
        ),
    );
    require(
        &mut out,
        Rows::AllButLast,
        act_next.times(&chunk_seq_id_head_next.minus(chunk_seq_id_head).minus(&local[COL_N_CHUNKS])),
    );
    out
}

/// What a digest node says: it requests the hash, names its input chain, reads the four digest
/// lanes, and hashes input and digest into the node whose truth it provides. The auxiliary columns
/// start at `first`.
pub open spec fn node_fractions(s: Seq<Fraction>, l: Seq<int>, t: Seq<int>, kid: int, ktag: int, first: usize) -> Seq<Fraction> {
    let act: int = l[COL_ACT as int];
    let sponge_seq_id_head: int = l[COL_SPONGE_SEQ_ID_HEAD as int];
    let n_sponge_perms: int = l[COL_N_SPONGE_PERMS as int];
    let chunk_seq_id_head: int = l[COL_CHUNK_SEQ_ID_HEAD as int];
    let n_chunks: int = l[COL_N_CHUNKS as int];
    let perm_seq_id_chunks: int = l[COL_PERM_SEQ_ID_CHUNKS as int];
    let len_bytes: int = l[COL_LEN_BYTES as int];
    let perm_seq_id_digest_chunks: int = l[COL_PERM_SEQ_ID_DIGEST_CHUNKS as int];
    let perm_seq_id_keccak: int = l[COL_PERM_SEQ_ID_KECCAK as int];
    let neg_act: int = 0 - act;
    let twice_act: int = 2 * act;
    let perm_seq_id_chunks_tail: int = perm_seq_id_chunks + n_chunks - 1;
    let digest_addr_base: int = 100 * sponge_seq_id_head + 3200 * n_sponge_perms - 128;
    let column = FractionColumn {
        index: first,
        group: "handshake-and-chunks-digest",
        deg: Deg { v: 1, u: 2 },
    };
    let s = s.push(
        Fraction {
            column,
            label: "ks-request",
            mult: neg_act,
            bus: BusId::KeccakSponge,
            part: Part::Whole,
            elems: seq![sponge_seq_id_head, 4 * chunk_seq_id_head, len_bytes],
            deg: Deg { v: 1, u: 1 },
        }
    );
    let column = FractionColumn {
        index: (first + 1) as usize,
        group: "handshake-and-chunks-digest",
        deg: Deg { v: 3, u: 2 },
    };
    let s = s.push(
        Fraction {
            column,
            label: "binding-truth",
            mult: 0 - l[COL_OUT_MULT as int],
            bus: BusId::Binding,
            part: Part::Truth,
            elems: seq![
                l[COL_H_KECCAK_BEGIN as int],
                l[COL_H_KECCAK_BEGIN + 1],
                l[COL_H_KECCAK_BEGIN + 2],
                l[COL_H_KECCAK_BEGIN + 3],
            ],
            deg: Deg { v: 1, u: 1 },
        }
    );
    let s = s.push(
        Fraction {
            column,
            label: "chunk-chain",
            mult: act,
            bus: BusId::ChunkChain,
            part: Part::Whole,
            elems: seq![chunk_seq_id_head, perm_seq_id_chunks],
            deg: Deg { v: 1, u: 1 },
        }
    );
    let column = FractionColumn {
        index: (first + 2) as usize,
        group: "handshake-and-chunks-digest",
        deg: Deg { v: 1, u: 2 },
    };
    let s = s.push(
        Fraction {
            column,
            label: "p2out-h-input-chunks",
            mult: act,
            bus: BusId::Poseidon2Out,
            part: Part::Whole,
            elems: seq![
                perm_seq_id_chunks_tail,
                l[COL_H_INPUT_CHUNKS_BEGIN as int],
                l[COL_H_INPUT_CHUNKS_BEGIN + 1],
                l[COL_H_INPUT_CHUNKS_BEGIN + 2],
                l[COL_H_INPUT_CHUNKS_BEGIN + 3],
            ],
            deg: Deg { v: 1, u: 1 },
        }
    );
    let column = FractionColumn {
        index: (first + 3) as usize,
        group: "memory64-d-limbs",
        deg: Deg { v: 3, u: 2 },
    };
    let s = s.push(
        Fraction {
            column,
            label: "d-lane-0",
            mult: twice_act,
            bus: BusId::Memory64,
            part: Part::Whole,
            elems: seq![digest_addr_base + 0, l[COL_D_BEGIN as int], l[COL_D_BEGIN + 1]],
            deg: Deg { v: 1, u: 1 },
        }
    );
    let s = s.push(
        Fraction {
            column,
            label: "d-lane-1",
            mult: twice_act,
            bus: BusId::Memory64,
            part: Part::Whole,
            elems: seq![digest_addr_base + 1, l[COL_D_BEGIN + 2], l[COL_D_BEGIN + 3]],
            deg: Deg { v: 1, u: 1 },
        }
    );
    let column = FractionColumn {
        index: (first + 4) as usize,
        group: "memory64-d-limbs",
        deg: Deg { v: 3, u: 2 },
    };
    let s = s.push(
        Fraction {
            column,
            label: "d-lane-2",
            mult: twice_act,
            bus: BusId::Memory64,
            part: Part::Whole,
            elems: seq![digest_addr_base + 2, l[COL_D_BEGIN + 4], l[COL_D_BEGIN + 5]],
            deg: Deg { v: 1, u: 1 },
        }
    );
    let s = s.push(
        Fraction {
            column,
            label: "d-lane-3",
            mult: twice_act,
            bus: BusId::Memory64,
            part: Part::Whole,
            elems: seq![digest_addr_base + 3, l[COL_D_BEGIN + 6], l[COL_D_BEGIN + 7]],
            deg: Deg { v: 1, u: 1 },
        }
    );
    let column = FractionColumn {
        index: (first + 5) as usize,
        group: "digest-chunks-p2",
        deg: Deg { v: 3, u: 2 },
    };
    let s = s.push(
        Fraction {
            column,
            label: "p2in-rate0",
            mult: act,
            bus: BusId::Poseidon2In,
            part: Part::Rate0,
            elems: seq![
                perm_seq_id_digest_chunks,
                l[COL_D_BEGIN as int],
                l[COL_D_BEGIN + 1],
                l[COL_D_BEGIN + 2],
                l[COL_D_BEGIN + 3],
            ],
            deg: Deg { v: 1, u: 1 },
        }
    );
    let s = s.push(
        Fraction {
            column,
            label: "p2in-rate1",
            mult: act,
            bus: BusId::Poseidon2In,
            part: Part::Rate1,
            elems: seq![
                perm_seq_id_digest_chunks,
                l[COL_D_BEGIN + 4],
                l[COL_D_BEGIN + 5],
                l[COL_D_BEGIN + 6],
                l[COL_D_BEGIN + 7],
            ],
            deg: Deg { v: 1, u: 1 },
        }
    );
    let column = FractionColumn {
        index: (first + 6) as usize,
        group: "digest-chunks-p2",
        deg: Deg { v: 3, u: 2 },
    };
    let s = s.push(
        Fraction {
            column,
            label: "p2in-cap",
            mult: act,
            bus: BusId::Poseidon2In,
            part: Part::Capacity,
            elems: seq![perm_seq_id_digest_chunks, t[0], t[1], t[2], t[3]],
            deg: Deg { v: 1, u: 1 },
        }
    );
    let s = s.push(
        Fraction {
            column,
            label: "p2out-h-digest-chunks",
            mult: act,
            bus: BusId::Poseidon2Out,
            part: Part::Whole,
            elems: seq![
                perm_seq_id_digest_chunks,
                l[COL_H_DIGEST_CHUNKS_BEGIN as int],
                l[COL_H_DIGEST_CHUNKS_BEGIN + 1],
                l[COL_H_DIGEST_CHUNKS_BEGIN + 2],
                l[COL_H_DIGEST_CHUNKS_BEGIN + 3],
            ],
            deg: Deg { v: 1, u: 1 },
        }
    );
    let column = FractionColumn {
        index: (first + 7) as usize,
        group: "keccak-p2",
        deg: Deg { v: 3, u: 2 },
    };
    let s = s.push(
        Fraction {
            column,
            label: "p2in-rate0",
            mult: act,
            bus: BusId::Poseidon2In,
            part: Part::Rate0,
            elems: seq![
                perm_seq_id_keccak,
                l[COL_H_INPUT_CHUNKS_BEGIN as int],
                l[COL_H_INPUT_CHUNKS_BEGIN + 1],
                l[COL_H_INPUT_CHUNKS_BEGIN + 2],
                l[COL_H_INPUT_CHUNKS_BEGIN + 3],
            ],
            deg: Deg { v: 1, u: 1 },
        }
    );
    let s = s.push(
        Fraction {
            column,
            label: "p2in-rate1",
            mult: act,
            bus: BusId::Poseidon2In,
            part: Part::Rate1,
            elems: seq![
                perm_seq_id_keccak,
                l[COL_H_DIGEST_CHUNKS_BEGIN as int],
                l[COL_H_DIGEST_CHUNKS_BEGIN + 1],
                l[COL_H_DIGEST_CHUNKS_BEGIN + 2],
                l[COL_H_DIGEST_CHUNKS_BEGIN + 3],
            ],
            deg: Deg { v: 1, u: 1 },
        }
    );
    let column = FractionColumn {
        index: (first + 8) as usize,
        group: "keccak-p2",
        deg: Deg { v: 3, u: 2 },
    };
    let s = s.push(
        Fraction {
            column,
            label: "p2in-cap",
            mult: act,
            bus: BusId::Poseidon2In,
            part: Part::Capacity,
            elems: seq![perm_seq_id_keccak, kid, ktag, len_bytes, 0],
            deg: Deg { v: 1, u: 1 },
        }
    );
    let s = s.push(
        Fraction {
            column,
            label: "p2out-h-keccak",
            mult: act,
            bus: BusId::Poseidon2Out,
            part: Part::Whole,
            elems: seq![
                perm_seq_id_keccak,
                l[COL_H_KECCAK_BEGIN as int],
                l[COL_H_KECCAK_BEGIN + 1],
                l[COL_H_KECCAK_BEGIN + 2],
                l[COL_H_KECCAK_BEGIN + 3],
            ],
            deg: Deg { v: 1, u: 1 },
        }
    );
    s
}

/// Appends the fractions of one row, from auxiliary column `first` on.
#[verifier::spinoff_prover]
#[verifier::rlimit(60)]
pub fn append_lookups<E: FieldExpr>(
    out: &mut Vec<Interaction<E>>,
    local: &[E],
    chunks_tag: &[E],
    keccak_id: &E,
    keccak_tag: &E,
    first: usize,
)
    requires
        local@.len() == NUM_MAIN_COLS,
        chunks_tag@.len() == 4,
        first < 1000,
    ensures
        fractions(final(out)@) == node_fractions(
            fractions(old(out)@),
            reps(local@),
            reps(chunks_tag@),
            keccak_id.rep(),
            keccak_tag.rep(),
            first,
        ),
{
    let act = &local[COL_ACT];
    let sponge_seq_id_head = &local[COL_SPONGE_SEQ_ID_HEAD];
    let n_sponge_perms = &local[COL_N_SPONGE_PERMS];
    let chunk_seq_id_head = &local[COL_CHUNK_SEQ_ID_HEAD];
    let n_chunks = &local[COL_N_CHUNKS];
    let perm_seq_id_chunks = &local[COL_PERM_SEQ_ID_CHUNKS];
    let len_bytes = &local[COL_LEN_BYTES];
    let perm_seq_id_digest_chunks = &local[COL_PERM_SEQ_ID_DIGEST_CHUNKS];
    let perm_seq_id_keccak = &local[COL_PERM_SEQ_ID_KECCAK];
    let neg_act = E::constant(0).minus(act);
    let twice_act = E::constant(2).times(act);
    let perm_seq_id_chunks_tail = perm_seq_id_chunks.plus(n_chunks).minus(&E::constant(1));
    let digest_addr_base = E::constant(100).times(sponge_seq_id_head).plus(
        &E::constant(3200).times(n_sponge_perms),
    ).minus(&E::constant(128));
    let column = FractionColumn {
        index: first,
        group: "handshake-and-chunks-digest",
        deg: Deg { v: 1, u: 2 },
    };
    interact(
        out,
        column,
        "ks-request",
        neg_act.dup(),
        KeccakSpongeMsg {
            sponge_seq_id: sponge_seq_id_head.dup(),
            chunk_ptr: E::constant(4).times(chunk_seq_id_head),
            len_bytes: len_bytes.dup(),
        }.message(),
        Deg { v: 1, u: 1 },
    );
    let column = FractionColumn {
        index: first + 1,
        group: "handshake-and-chunks-digest",
        deg: Deg { v: 3, u: 2 },
    };
    interact(
        out,
        column,
        "binding-truth",
        E::constant(0).minus(&local[COL_OUT_MULT]),
        BindingMsg::truth(
            [
                local[COL_H_KECCAK_BEGIN].dup(),
                local[COL_H_KECCAK_BEGIN + 1].dup(),
                local[COL_H_KECCAK_BEGIN + 2].dup(),
                local[COL_H_KECCAK_BEGIN + 3].dup(),
            ],
        ).message(),
        Deg { v: 1, u: 1 },
    );
    interact(
        out,
        column,
        "chunk-chain",
        act.dup(),
        ChunkChainMsg {
            chunk_seq_id_head: chunk_seq_id_head.dup(),
            perm_seq_id_head: perm_seq_id_chunks.dup(),
        }.message(),
        Deg { v: 1, u: 1 },
    );
    let column = FractionColumn {
        index: first + 2,
        group: "handshake-and-chunks-digest",
        deg: Deg { v: 1, u: 2 },
    };
    interact(
        out,
        column,
        "p2out-h-input-chunks",
        act.dup(),
        Poseidon2OutMsg {
            perm_seq_id: perm_seq_id_chunks_tail.dup(),
            digest: [
                local[COL_H_INPUT_CHUNKS_BEGIN].dup(),
                local[COL_H_INPUT_CHUNKS_BEGIN + 1].dup(),
                local[COL_H_INPUT_CHUNKS_BEGIN + 2].dup(),
                local[COL_H_INPUT_CHUNKS_BEGIN + 3].dup(),
            ],
        }.message(),
        Deg { v: 1, u: 1 },
    );
    let column = FractionColumn {
        index: first + 3,
        group: "memory64-d-limbs",
        deg: Deg { v: 3, u: 2 },
    };
    interact(
        out,
        column,
        "d-lane-0",
        twice_act.dup(),
        Memory64Msg {
            addr: digest_addr_base.plus(&E::constant(0)),
            lo: local[COL_D_BEGIN].dup(),
            hi: local[COL_D_BEGIN + 1].dup(),
        }.message(),
        Deg { v: 1, u: 1 },
    );
    interact(
        out,
        column,
        "d-lane-1",
        twice_act.dup(),
        Memory64Msg {
            addr: digest_addr_base.plus(&E::constant(1)),
            lo: local[COL_D_BEGIN + 2].dup(),
            hi: local[COL_D_BEGIN + 3].dup(),
        }.message(),
        Deg { v: 1, u: 1 },
    );
    let column = FractionColumn {
        index: first + 4,
        group: "memory64-d-limbs",
        deg: Deg { v: 3, u: 2 },
    };
    interact(
        out,
        column,
        "d-lane-2",
        twice_act.dup(),
        Memory64Msg {
            addr: digest_addr_base.plus(&E::constant(2)),
            lo: local[COL_D_BEGIN + 4].dup(),
            hi: local[COL_D_BEGIN + 5].dup(),
        }.message(),
        Deg { v: 1, u: 1 },
    );
    interact(
        out,
        column,
        "d-lane-3",
        twice_act.dup(),
        Memory64Msg {
            addr: digest_addr_base.plus(&E::constant(3)),
            lo: local[COL_D_BEGIN + 6].dup(),
            hi: local[COL_D_BEGIN + 7].dup(),
        }.message(),
        Deg { v: 1, u: 1 },
    );
    let column = FractionColumn {
        index: first + 5,
        group: "digest-chunks-p2",
        deg: Deg { v: 3, u: 2 },
    };
    interact(
        out,
        column,
        "p2in-rate0",
        act.dup(),
        Poseidon2InMsg::rate0(
            perm_seq_id_digest_chunks.dup(),
            [
                local[COL_D_BEGIN].dup(),
                local[COL_D_BEGIN + 1].dup(),
                local[COL_D_BEGIN + 2].dup(),
                local[COL_D_BEGIN + 3].dup(),
            ],
        ).message(),
        Deg { v: 1, u: 1 },
    );
    interact(
        out,
        column,
        "p2in-rate1",
        act.dup(),
        Poseidon2InMsg::rate1(
            perm_seq_id_digest_chunks.dup(),
            [
                local[COL_D_BEGIN + 4].dup(),
                local[COL_D_BEGIN + 5].dup(),
                local[COL_D_BEGIN + 6].dup(),
                local[COL_D_BEGIN + 7].dup(),
            ],
        ).message(),
        Deg { v: 1, u: 1 },
    );
    let column = FractionColumn {
        index: first + 6,
        group: "digest-chunks-p2",
        deg: Deg { v: 3, u: 2 },
    };
    interact(
        out,
        column,
        "p2in-cap",
        act.dup(),
        Poseidon2InMsg::cap(
            perm_seq_id_digest_chunks.dup(),
            [chunks_tag[0].dup(), chunks_tag[1].dup(), chunks_tag[2].dup(), chunks_tag[3].dup()],
        ).message(),
        Deg { v: 1, u: 1 },
    );
    interact(
        out,
        column,
        "p2out-h-digest-chunks",
        act.dup(),
        Poseidon2OutMsg {
            perm_seq_id: perm_seq_id_digest_chunks.dup(),
            digest: [
                local[COL_H_DIGEST_CHUNKS_BEGIN].dup(),
                local[COL_H_DIGEST_CHUNKS_BEGIN + 1].dup(),
                local[COL_H_DIGEST_CHUNKS_BEGIN + 2].dup(),
                local[COL_H_DIGEST_CHUNKS_BEGIN + 3].dup(),
            ],
        }.message(),
        Deg { v: 1, u: 1 },
    );
    let column = FractionColumn { index: first + 7, group: "keccak-p2", deg: Deg { v: 3, u: 2 } };
    interact(
        out,
        column,
        "p2in-rate0",
        act.dup(),
        Poseidon2InMsg::rate0(
            perm_seq_id_keccak.dup(),
            [
                local[COL_H_INPUT_CHUNKS_BEGIN].dup(),
                local[COL_H_INPUT_CHUNKS_BEGIN + 1].dup(),
                local[COL_H_INPUT_CHUNKS_BEGIN + 2].dup(),
                local[COL_H_INPUT_CHUNKS_BEGIN + 3].dup(),
            ],
        ).message(),
        Deg { v: 1, u: 1 },
    );
    interact(
        out,
        column,
        "p2in-rate1",
        act.dup(),
        Poseidon2InMsg::rate1(
            perm_seq_id_keccak.dup(),
            [
                local[COL_H_DIGEST_CHUNKS_BEGIN].dup(),
                local[COL_H_DIGEST_CHUNKS_BEGIN + 1].dup(),
                local[COL_H_DIGEST_CHUNKS_BEGIN + 2].dup(),
                local[COL_H_DIGEST_CHUNKS_BEGIN + 3].dup(),
            ],
        ).message(),
        Deg { v: 1, u: 1 },
    );
    let column = FractionColumn { index: first + 8, group: "keccak-p2", deg: Deg { v: 3, u: 2 } };
    interact(
        out,
        column,
        "p2in-cap",
        act.dup(),
        Poseidon2InMsg::cap(
            perm_seq_id_keccak.dup(),
            [keccak_id.dup(), keccak_tag.dup(), len_bytes.dup(), E::constant(0)],
        ).message(),
        Deg { v: 1, u: 1 },
    );
    interact(
        out,
        column,
        "p2out-h-keccak",
        act.dup(),
        Poseidon2OutMsg {
            perm_seq_id: perm_seq_id_keccak.dup(),
            digest: [
                local[COL_H_KECCAK_BEGIN].dup(),
                local[COL_H_KECCAK_BEGIN + 1].dup(),
                local[COL_H_KECCAK_BEGIN + 2].dup(),
                local[COL_H_KECCAK_BEGIN + 3].dup(),
            ],
        }.message(),
        Deg { v: 1, u: 1 },
    );
}

impl KeccakNodeAir {
    /// The constraints on a row and its successor.
    pub fn eval<E: FieldExpr>(&self, local: &[E], next: &[E]) -> (r: Vec<Constraint<E>>)
        requires
            local@.len() == NUM_MAIN_COLS,
            next@.len() == NUM_MAIN_COLS,
        ensures
            demands(r@) == node_demands(reps(local@), reps(next@)),
    {
        eval_main(local, next)
    }

    /// The fractions of one row. `chunks_tag` is the capacity that marks chunk payloads, and
    /// `keccak_id` and `keccak_tag` identify the digest assertion.
    pub fn eval_lookups<E: FieldExpr>(
        &self,
        local: &[E],
        chunks_tag: &[E],
        keccak_id: &E,
        keccak_tag: &E,
    ) -> (r: Vec<Interaction<E>>)
        requires
            local@.len() == NUM_MAIN_COLS,
            chunks_tag@.len() == 4,
        ensures
            fractions(r@) == node_fractions(
                Seq::empty(),
                reps(local@),
                reps(chunks_tag@),
                keccak_id.rep(),
                keccak_tag.rep(),
                0,
            ),
    {
        let mut out: Vec<Interaction<E>> = Vec::new();
        assert(fractions(out@) =~= Seq::<Fraction>::empty());
        append_lookups(&mut out, local, chunks_tag, keccak_id, keccak_tag, 0);
        out
    }
}

} // verus!
