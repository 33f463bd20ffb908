//! The input tape and the digest nodes side by side: two tables in disjoint columns of one trace.

use crate::precompiles::field::{reps, FieldExpr};
use crate::precompiles::hash::chunk;
use crate::precompiles::hash::chunk::ChunkChainMsg;
use crate::precompiles::hash::keccak::node;
use crate::precompiles::hash::keccak::node::{append_lookups, node_demands, node_fractions};
use crate::precompiles::hash::memory64::{Memory64Msg, CHUNK_ADDR_BASE};
use crate::precompiles::logup::{
    bool_poly, demands, fractions, interact, require, require_bool, Constraint, Deg, Fraction,
    FractionColumn, Interaction, Part, Rows,
};
use crate::precompiles::relations::BusId;
use crate::precompiles::transcript::Poseidon2InMsg;
use crate::precompiles::utils::band;
use vstd::prelude::*;

verus! {

/// First column of the digest nodes.
pub const NODE_COL_OFFSET: usize = 12;
pub const NUM_MAIN_COLS: usize = 42;
pub const NUM_AUX_COLS: usize = 14;

/// Fractions in each auxiliary column: the tape's, then the nodes'.
pub fn column_shape() -> (r: Vec<usize>)
    ensures
        r@ == chunk::COLUMN_SHAPE@ + node::COLUMN_SHAPE@,
{
    let mut shape: Vec<usize> = Vec::new();
    let ghost full = chunk::COLUMN_SHAPE@ + node::COLUMN_SHAPE@;
    let mut i: usize = 0;
    while i < NUM_AUX_COLS
        invariant
            i <= NUM_AUX_COLS,
            full == chunk::COLUMN_SHAPE@ + node::COLUMN_SHAPE@,
            shape@ == full.take(i as int),
        decreases NUM_AUX_COLS - i,
    {
        if i < chunk::NUM_AUX_COLS {
            shape.push(chunk::COLUMN_SHAPE[i]);
        } else {
            shape.push(node::COLUMN_SHAPE[i - chunk::NUM_AUX_COLS]);
        }
        assert(shape@ =~= full.take(i + 1));
        i = i + 1;
    }
    assert(shape@ =~= full);
    shape
}

/// Chunks are numbered from zero, a chain uses consecutive permutations, and only active rows
/// start a chain.
pub open spec fn chunk_demands(l: Seq<int>, n: Seq<int>) -> Seq<(Rows, int)> {
    let s = Seq::<(Rows, int)>::empty();
    let chunk_seq_id: int = l[chunk::COL_CHUNK_SEQ_ID as int];
    let chunk_seq_id_next: int = n[chunk::COL_CHUNK_SEQ_ID as int];
    let perm_seq_id: int = l[chunk::COL_PERM_SEQ_ID as int];
    let perm_seq_id_next: int = n[chunk::COL_PERM_SEQ_ID as int];
    let act: int = l[chunk::COL_ACT as int];
    let act_next: int = n[chunk::COL_ACT as int];
    let is_head: int = l[chunk::COL_IS_HEAD as int];
    let is_head_next: int = n[chunk::COL_IS_HEAD as int];
    let s = s.push((Rows::First, chunk_seq_id));
    let s = s.push((Rows::AllButLast, chunk_seq_id_next - chunk_seq_id - 1));
    let s = s.push((Rows::AllButLast, (1 - is_head_next) * (perm_seq_id_next - perm_seq_id - 1)));
    let s = s.push((Rows::All, bool_poly(act)));
    let s = s.push((Rows::AllButLast, (1 - act) * act_next));
    let s = s.push((Rows::All, bool_poly(is_head)));
    let s = s.push((Rows::All, is_head * (1 - act)));
    s
}

/// The constraints on a row of the input tape and its successor.
pub fn eval_chunk_main<E: FieldExpr>(local: &[E], next: &[E]) -> (r: Vec<Constraint<E>>)
    requires
        local@.len() == chunk::NUM_MAIN_COLS,
        next@.len() == chunk::NUM_MAIN_COLS,
    ensures
        demands(r@) == chunk_demands(reps(local@), reps(next@)),
{
    let mut out: Vec<Constraint<E>> = Vec::new();
    assert(demands(out@) =~= Seq::<(Rows, int)>::empty());
    let chunk_seq_id = &local[chunk::COL_CHUNK_SEQ_ID];
    let chunk_seq_id_next = &next[chunk::COL_CHUNK_SEQ_ID];
    let perm_seq_id = &local[chunk::COL_PERM_SEQ_ID];
    let perm_seq_id_next = &next[chunk::COL_PERM_SEQ_ID];
    let act = &local[chunk::COL_ACT];
    let act_next = &next[chunk::COL_ACT];
    let is_head = &local[chunk::COL_IS_HEAD];
    let is_head_next = &next[chunk::COL_IS_HEAD];
    require(&mut out, Rows::First, chunk_seq_id.dup());
    require(
        &mut out,
        Rows::AllButLast,
        chunk_seq_id_next.minus(chunk_seq_id).minus(&E::constant(1)),
    );
    require(
        &mut out,
        Rows::AllButLast,
        E::constant(1).minus(is_head_next).times(
            &perm_seq_id_next.minus(perm_seq_id).minus(&E::constant(1)),
        ),
    );
    require_bool(&mut out, act);
    require(&mut out, Rows::AllButLast, E::constant(1).minus(act).times(act_next));
    require_bool(&mut out, is_head);
    require(&mut out, Rows::All, is_head.times(&E::constant(1).minus(act)));
    out
}

/// A chunk provides its four lanes on the memory bus, is absorbed by its permutation, and names
/// its chain where one starts.
pub open spec fn chunk_fractions(l: Seq<int>, t: Seq<int>) -> Seq<Fraction> {
    let s = Seq::<Fraction>::empty();
    let chunk_seq_id: int = l[chunk::COL_CHUNK_SEQ_ID as int];
    let perm_seq_id: int = l[chunk::COL_PERM_SEQ_ID as int];
    let act: int = l[chunk::COL_ACT as int];
    let is_head: int = l[chunk::COL_IS_HEAD as int];
    let addr: int = CHUNK_ADDR_BASE + 4 * chunk_seq_id;
    let neg_act: int = 0 - act;
    let act_head: int = act * is_head;
    let column = FractionColumn { index: 0, group: "memory64", deg: Deg { v: 1, u: 2 } };
    let s = s.push(
        Fraction {
            column,
            label: "lane0",
            mult: neg_act,
            bus: BusId::Memory64,
            part: Part::Whole,
            elems: seq![addr, l[chunk::COL_F_BEGIN as int], l[chunk::COL_F_BEGIN + 1]],
            deg: Deg { v: 1, u: 1 },
        }
    );
    let column = FractionColumn { index: 1, group: "memory64", deg: Deg { v: 3, u: 2 } };
    let s = s.push(
        Fraction {
            column,
            label: "lane1",
            mult: neg_act,
            bus: BusId::Memory64,
            part: Part::Whole,
            elems: seq![addr + 1, l[chunk::COL_F_BEGIN + 2], l[chunk::COL_F_BEGIN + 3]],
            deg: Deg { v: 1, u: 1 },
        }
    );
    let s = s.push(
        Fraction {
            column,
            label: "lane2",
            mult: neg_act,
            bus: BusId::Memory64,
            part: Part::Whole,
            elems: seq![addr + 2, l[chunk::COL_F_BEGIN + 4], l[chunk::COL_F_BEGIN + 5]],
            deg: Deg { v: 1, u: 1 },
        }
    );
    let column = FractionColumn { index: 2, group: "chunk-flatten", deg: Deg { v: 3, u: 2 } };
    let s = s.push(
        Fraction {
            column,
            label: "lane3",
            mult: neg_act,
            bus: BusId::Memory64,
            part: Part::Whole,
            elems: seq![addr + 3, l[chunk::COL_F_BEGIN + 6], l[chunk::COL_F_BEGIN + 7]],
            deg: Deg { v: 1, u: 1 },
        }
    );
    let s = s.push(
        Fraction {
            column,
            label: "rate0",
            mult: act,
            bus: BusId::Poseidon2In,
            part: Part::Rate0,
            elems: seq![
                perm_seq_id,
                l[chunk::COL_F_BEGIN as int],
                l[chunk::COL_F_BEGIN + 1],
                l[chunk::COL_F_BEGIN + 2],
                l[chunk::COL_F_BEGIN + 3],
            ],
            deg: Deg { v: 1, u: 1 },
        }
    );
    let column = FractionColumn { index: 3, group: "poseidon2-in", deg: Deg { v: 3, u: 2 } };
    let s = s.push(
        Fraction {
            column,
            label: "rate1",
            mult: act,
            bus: BusId::Poseidon2In,
            part: Part::Rate1,
            elems: seq![
                perm_seq_id,
                l[chunk::COL_F_BEGIN + 4],
                l[chunk::COL_F_BEGIN + 5],
                l[chunk::COL_F_BEGIN + 6],
                l[chunk::COL_F_BEGIN + 7],
            ],
            deg: Deg { v: 1, u: 1 },
        }
    );
    let s = s.push(
        Fraction {
            column,
            label: "cap",
            mult: act_head,
            bus: BusId::Poseidon2In,
            part: Part::Capacity,
            elems: seq![perm_seq_id, t[0], t[1], t[2], t[3]],
            deg: Deg { v: 1, u: 1 },
        }
    );
    let column = FractionColumn { index: 4, group: "chunk-chain", deg: Deg { v: 1, u: 2 } };
    let s = s.push(
        Fraction {
            column,
            label: "emit",
            mult: 0 - act_head,
            bus: BusId::ChunkChain,
            part: Part::Whole,
            elems: seq![chunk_seq_id, perm_seq_id],
            deg: Deg { v: 1, u: 1 },
        }
    );
    s
}

/// The fractions of a row of the input tape.
#[verifier::spinoff_prover]
pub fn eval_chunk_lookups<E: FieldExpr>(local: &[E], chunks_tag: &[E]) -> (r: Vec<Interaction<E>>)
    requires
        local@.len() == chunk::NUM_MAIN_COLS,
        chunks_tag@.len() == 4,
    ensures
        fractions(r@) == chunk_fractions(reps(local@), reps(chunks_tag@)),
{
    let mut out: Vec<Interaction<E>> = Vec::new();
    assert(fractions(out@) =~= Seq::<Fraction>::empty());
    let chunk_seq_id = &local[chunk::COL_CHUNK_SEQ_ID];
    let perm_seq_id = &local[chunk::COL_PERM_SEQ_ID];
    let act = &local[chunk::COL_ACT];
    let is_head = &local[chunk::COL_IS_HEAD];
    let addr = E::constant(CHUNK_ADDR_BASE).plus(&E::constant(4).times(chunk_seq_id));
    let neg_act = E::constant(0).minus(act);
    let act_head = act.times(is_head);
    let column = FractionColumn { index: 0, group: "memory64", deg: Deg { v: 1, u: 2 } };
    interact(
        &mut out,
        column,
        "lane0",
        neg_act.dup(),
        Memory64Msg {
            addr: addr.dup(),
            lo: local[chunk::COL_F_BEGIN].dup(),
            hi: local[chunk::COL_F_BEGIN + 1].dup(),
        }.message(),
        Deg { v: 1, u: 1 },
    );
    let column = FractionColumn { index: 1, group: "memory64", deg: Deg { v: 3, u: 2 } };
    interact(
        &mut out,
        column,
        "lane1",
        neg_act.dup(),
        Memory64Msg {
            addr: addr.plus(&E::constant(1)),
            lo: local[chunk::COL_F_BEGIN + 2].dup(),
            hi: local[chunk::COL_F_BEGIN + 3].dup(),
        }.message(),
        Deg { v: 1, u: 1 },
    );
    interact(
        &mut out,
        column,
        "lane2",
        neg_act.dup(),
        Memory64Msg {
            addr: addr.plus(&E::constant(2)),
            lo: local[chunk::COL_F_BEGIN + 4].dup(),
            hi: local[chunk::COL_F_BEGIN + 5].dup(),
        }.message(),
        Deg { v: 1, u: 1 },
    );
    let column = FractionColumn { index: 2, group: "chunk-flatten", deg: Deg { v: 3, u: 2 } };
    interact(
        &mut out,
        column,
        "lane3",
        neg_act.dup(),
        Memory64Msg {
            addr: addr.plus(&E::constant(3)),
            lo: local[chunk::COL_F_BEGIN + 6].dup(),
            hi: local[chunk::COL_F_BEGIN + 7].dup(),
        }.message(),
        Deg { v: 1, u: 1 },
    );
    interact(
        &mut out,
        column,
        "rate0",
        act.dup(),
        Poseidon2InMsg::rate0(
            perm_seq_id.dup(),
            [
                local[chunk::COL_F_BEGIN].dup(),
                local[chunk::COL_F_BEGIN + 1].dup(),
                local[chunk::COL_F_BEGIN + 2].dup(),
                local[chunk::COL_F_BEGIN + 3].dup(),
            ],
        ).message(),
        Deg { v: 1, u: 1 },
    );
    let column = FractionColumn { index: 3, group: "poseidon2-in", deg: Deg { v: 3, u: 2 } };
    interact(
        &mut out,
        column,
        "rate1",
        act.dup(),
        Poseidon2InMsg::rate1(
            perm_seq_id.dup(),
            [
                local[chunk::COL_F_BEGIN + 4].dup(),
                local[chunk::COL_F_BEGIN + 5].dup(),
                local[chunk::COL_F_BEGIN + 6].dup(),
                local[chunk::COL_F_BEGIN + 7].dup(),
            ],
        ).message(),
        Deg { v: 1, u: 1 },
    );
    interact(
        &mut out,
        column,
        "cap",
        act_head.dup(),
        Poseidon2InMsg::cap(
            perm_seq_id.dup(),
            [chunks_tag[0].dup(), chunks_tag[1].dup(), chunks_tag[2].dup(), chunks_tag[3].dup()],
        ).message(),
        Deg { v: 1, u: 1 },
    );
    let column = FractionColumn { index: 4, group: "chunk-chain", deg: Deg { v: 1, u: 2 } };
    interact(
        &mut out,
        column,
        "emit",
        E::constant(0).minus(&act_head),
        ChunkChainMsg {
            chunk_seq_id_head: chunk_seq_id.dup(),
            perm_seq_id_head: perm_seq_id.dup(),
        }.message(),
        Deg { v: 1, u: 1 },
    );
    out
}

/// The constraints of both tables.
pub open spec fn chunk_node_demands(l: Seq<int>, n: Seq<int>) -> Seq<(Rows, int)> {
    chunk_demands(l.subrange(0, 12), n.subrange(0, 12)) + node_demands(
        l.subrange(12, 42),
        n.subrange(12, 42),
    )
}

/// The constraints on a row and its successor.
pub fn eval_main<E: FieldExpr>(local: &[E], next: &[E]) -> (r: Vec<Constraint<E>>)
    requires
        local@.len() == NUM_MAIN_COLS,
        next@.len() == NUM_MAIN_COLS,
    ensures
        demands(r@) == chunk_node_demands(reps(local@), reps(next@)),
{
    let mut out = eval_chunk_main(
        band(local, 0, NODE_COL_OFFSET),
        band(next, 0, NODE_COL_OFFSET),
    );
    let mut rest = node::eval_main(
        band(local, NODE_COL_OFFSET, NUM_MAIN_COLS),
        band(next, NODE_COL_OFFSET, NUM_MAIN_COLS),
    );
    let ghost first = out@;
    let ghost second = rest@;
    out.append(&mut rest);
    assert(out@ =~= first + second);
    assert(demands(out@) =~= demands(first) + demands(second));
    out
}

/// The fractions of both tables.
pub open spec fn chunk_node_fractions(
    l: Seq<int>,
    t: Seq<int>,
    kid: int,
    ktag: int,
) -> Seq<Fraction> {
    node_fractions(
        chunk_fractions(l.subrange(0, 12), t),
        l.subrange(12, 42),
        t,
        kid,
        ktag,
        chunk::NUM_AUX_COLS,
    )
}

/// The fractions of one row. `chunks_tag` is the capacity that marks chunk payloads, and
/// `keccak_id` and `keccak_tag` identify the digest assertion.
pub fn eval_lookups<E: FieldExpr>(
    local: &[E],
    chunks_tag: &[E],
    keccak_id: &E,
    keccak_tag: &E,
) -> (r: Vec<Interaction<E>>)
    requires
        local@.len() == NUM_MAIN_COLS,
        chunks_tag@.len() == 4,
    ensures
        fractions(r@) == chunk_node_fractions(
            reps(local@),
            reps(chunks_tag@),
            keccak_id.rep(),
            keccak_tag.rep(),
        ),
{
    let mut out = eval_chunk_lookups(band(local, 0, NODE_COL_OFFSET), chunks_tag);
    append_lookups(
        &mut out,
        band(local, NODE_COL_OFFSET, NUM_MAIN_COLS),
        chunks_tag,
        keccak_id,
        keccak_tag,
        chunk::NUM_AUX_COLS,
    );
    out
}

} // verus!
