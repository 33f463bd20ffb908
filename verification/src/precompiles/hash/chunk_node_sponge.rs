//! The input tape, the digest nodes and the sponge side by side in one trace.

use crate::precompiles::field::{reps, FieldExpr};
use crate::precompiles::hash::chunk;
use crate::precompiles::hash::chunk_node;
use crate::precompiles::hash::chunk_node::{chunk_node_demands, chunk_node_fractions};
use crate::precompiles::hash::keccak::node;
use crate::precompiles::hash::keccak::sponge;
use crate::precompiles::hash::keccak::sponge::program::NUM_PERIODIC_COLS;
use crate::precompiles::hash::keccak::sponge::{sponge_demands, sponge_fractions};
use crate::precompiles::logup::{
    demands, fractions, Constraint, Fraction, FractionColumn, Interaction, Rows,
};
use crate::precompiles::utils::band;
use vstd::prelude::*;

verus! {

/// First column of the sponge.
pub const SPONGE_COL_OFFSET: usize = 42;
pub const NUM_MAIN_COLS: usize = 109;
pub const NUM_AUX_COLS: usize = 38;

/// The combined hash table.
#[derive(Debug, Default, Clone, Copy)]
pub struct ChunkNodeSpongeAir;

/// Fractions in each auxiliary column: those of the tape, the nodes, and the sponge.
pub fn column_shape() -> (r: Vec<usize>)
    ensures
        r@.len() == NUM_AUX_COLS,
        r@.take(14) == chunk::COLUMN_SHAPE@ + node::COLUMN_SHAPE@,
        forall|i: int|
            14 <= i < NUM_AUX_COLS ==> #[trigger] r@[i] == (if i == 15 {
                3usize
            } else if i == 16 {
                1usize
            } else {
                2usize
            }),
{
    let mut shape = chunk_node::column_shape();
    let mut rest = sponge::build_column_shape();
    let ghost first = shape@;
    let ghost second = rest@;
    shape.append(&mut rest);
    assert(shape@ =~= first + second);
    assert(shape@.take(14) =~= first);
    shape
}

/// The same fractions in auxiliary columns further along.
pub open spec fn shifted(list: Seq<Fraction>, by: int) -> Seq<Fraction> {
    Seq::new(
        list.len(),
        |i: int|
            Fraction {
                column: FractionColumn {
                    index: (list[i].column.index + by) as usize,
                    group: list[i].column.group,
                    deg: list[i].column.deg,
                },
                label: list[i].label,
                mult: list[i].mult,
                bus: list[i].bus,
                part: list[i].part,
                elems: list[i].elems,
                deg: list[i].deg,
            },
    )
}

/// Appends the fractions of another table, with their auxiliary columns moved along.
fn append_shifted<E: FieldExpr>(
    out: &mut Vec<Interaction<E>>,
    list: Vec<Interaction<E>>,
    by: usize,
)
    requires
        by < 1000,
        forall|i: int| 0 <= i < list@.len() ==> (#[trigger] list@[i]).column.index < 1000,
    ensures
        fractions(final(out)@) == fractions(old(out)@) + shifted(fractions(list@), by as int),
{
    let ghost start = fractions(out@);
    let ghost full = shifted(fractions(list@), by as int);
    let ghost all = list@;
    let mut list = list;
    let mut kept: Vec<Interaction<E>> = Vec::new();
    while list.len() > 0
        invariant
            list@ + kept@.reverse() == all,
        decreases list@.len(),
    {
        let ghost before = list@ + kept@.reverse();
        let ghost rest = kept@;
        match list.pop() {
            Some(item) => {
                kept.push(item);
                assert(kept@.reverse() =~= seq![item] + rest.reverse());
                assert(list@ + kept@.reverse() =~= before);
            },
            None => {},
        }
    }
    assert(kept@.reverse() =~= all);
    let total: usize = kept.len();
    assert(start + full.take(0) =~= start);
    let mut done: usize = 0;
    while kept.len() > 0
        invariant
            by < 1000,
            forall|i: int| 0 <= i < all.len() ==> (#[trigger] all[i]).column.index < 1000,
            full == shifted(fractions(all), by as int),
            done + kept@.len() == all.len(),
            all.len() == total,
            kept@.reverse() == all.skip(done as int),
            fractions(out@) == start + full.take(done as int),
        decreases kept@.len(),
    {
        let ghost rest = kept@;
        match kept.pop() {
            Some(item) => {
                let ghost said = item.says();
                assert(rest.reverse()[0] == item);
                assert(all.skip(done as int)[0] == all[done as int]);
                assert(item == all[done as int]);
                let Interaction { column, label, mult, message, deg } = item;
                let moved = FractionColumn {
                    index: column.index + by,
                    group: column.group,
                    deg: column.deg,
                };
                let ghost prior = fractions(out@);
                let next = Interaction { column: moved, label, mult, message, deg };
                assert(next.says() == full[done as int]);
                out.push(next);
                assert(fractions(out@) =~= prior.push(full[done as int]));
                assert((start + full.take(done as int)).push(full[done as int]) =~= start
                    + full.take(done + 1));
                assert(kept@.reverse() =~= rest.reverse().skip(1));
                assert(all.skip(done as int).skip(1) =~= all.skip(done + 1));
            },
            None => {},
        }
        done = done + 1;
    }
    assert(full.take(full.len() as int) =~= full);
}

/// The constraints of all three tables.
pub open spec fn hash_demands(l: Seq<int>, n: Seq<int>, p: Seq<int>) -> Seq<(Rows, int)> {
    chunk_node_demands(l.subrange(0, 42), n.subrange(0, 42)) + sponge_demands(
        l.subrange(42, 109),
        n.subrange(42, 109),
        p,
    )
}

/// The fractions of all three tables.
pub open spec fn hash_fractions(
    l: Seq<int>,
    n: Seq<int>,
    p: Seq<int>,
    t: Seq<int>,
    kid: int,
    ktag: int,
) -> Seq<Fraction> {
    chunk_node_fractions(l.subrange(0, 42), t, kid, ktag) + shifted(
        sponge_fractions(l.subrange(42, 109), n.subrange(42, 109), p),
        14,
    )
}

/// The sponge's auxiliary columns are numbered below its column count.
proof fn sponge_columns_in_range(l: Seq<int>, n: Seq<int>, p: Seq<int>)
    ensures
        forall|i: int|
            0 <= i < sponge_fractions(l, n, p).len() ==> (#[trigger] sponge_fractions(
                l,
                n,
                p,
            )[i]).column.index < 1000,
{
}

impl ChunkNodeSpongeAir {
    /// The constraints on a row and its successor.
    pub fn eval<E: FieldExpr>(&self, local: &[E], next: &[E], periodic: &[E]) -> (r: Vec<
        Constraint<E>,
    >)
        requires
            local@.len() == NUM_MAIN_COLS,
            next@.len() == NUM_MAIN_COLS,
            periodic@.len() == NUM_PERIODIC_COLS,
        ensures
            demands(r@) == hash_demands(reps(local@), reps(next@), reps(periodic@)),
    {
        let mut out = chunk_node::eval_main(
            band(local, 0, SPONGE_COL_OFFSET),
            band(next, 0, SPONGE_COL_OFFSET),
        );
        let mut rest = sponge::eval_main(
            band(local, SPONGE_COL_OFFSET, NUM_MAIN_COLS),
            band(next, SPONGE_COL_OFFSET, NUM_MAIN_COLS),
            periodic,
        );
        let ghost first = out@;
        let ghost second = rest@;
        out.append(&mut rest);
        assert(out@ =~= first + second);
        assert(demands(out@) =~= demands(first) + demands(second));
        out
    }

    /// The fractions of a row and its successor.
    pub fn eval_lookups<E: FieldExpr>(
        &self,
        local: &[E],
        next: &[E],
        periodic: &[E],
        chunks_tag: &[E],
        keccak_id: &E,
        keccak_tag: &E,
    ) -> (r: Vec<Interaction<E>>)
        requires
            local@.len() == NUM_MAIN_COLS,
            next@.len() == NUM_MAIN_COLS,
            periodic@.len() == NUM_PERIODIC_COLS,
            chunks_tag@.len() == 4,
        ensures
            fractions(r@) == hash_fractions(
                reps(local@),
                reps(next@),
                reps(periodic@),
                reps(chunks_tag@),
                keccak_id.rep(),
                keccak_tag.rep(),
            ),
    {
        let mut out = chunk_node::eval_lookups(
            band(local, 0, SPONGE_COL_OFFSET),
            chunks_tag,
            keccak_id,
            keccak_tag,
        );
        let band_local = band(local, SPONGE_COL_OFFSET, NUM_MAIN_COLS);
        let band_next = band(next, SPONGE_COL_OFFSET, NUM_MAIN_COLS);
        let list = sponge::eval_lookups(band_local, band_next, periodic);
        proof {
            sponge_columns_in_range(reps(band_local@), reps(band_next@), reps(periodic@));
            let said = sponge_fractions(reps(band_local@), reps(band_next@), reps(periodic@));
            assert forall|i: int| 0 <= i < list@.len() implies (
            #[trigger] list@[i]).column.index < 1000 by {
                assert(fractions(list@)[i] == list@[i].says());
                assert(said[i].column.index < 1000);
            }
        }
        append_shifted(&mut out, list, chunk_node::NUM_AUX_COLS);
        out
    }
}

} // verus!
