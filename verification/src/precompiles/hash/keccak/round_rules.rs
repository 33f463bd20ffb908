//! The constraints of the round machine are its rules, and its messages are true of every row that
//! does its operation.

use crate::precompiles::field::MODULUS;
use crate::precompiles::hash::keccak::round::program::{
    slot_spec, COL_IS_ANDNOT, COL_IS_ROL, COL_IS_XOR, COL_K, COL_P_LAST, COL_SWAP, ROUND_PERIOD,
};
use crate::precompiles::hash::keccak::round::{
    round_demands, round_fractions, written, COL_ACT, COL_A_BYTES, COL_B_BYTES, COL_IP,
    COL_ROT_LIMBS, COL_R_BYTES, LANE_WIDTH, NUM_LANES, NUM_MAIN_COLS,
};
use crate::precompiles::hash::keccak::round_meaning::{
    lane_asked, lane_cell, lane_cells, lane_messages, program_row, satisfied, switches,
};
use crate::precompiles::logup::Rows;
use crate::precompiles::meaning::{
    byte_result, cells_are_residues, is_byte, is_true, payload, says, Store,
};
use crate::precompiles::trace::{
    following, is_cell, is_enforced, is_flag, is_met, is_table, met_by_residue, released,
    residue_of, same_cell, small_and_zero, switched, vanishes, zero_or_one,
};
use crate::precompiles::utils::packed;
use vstd::prelude::*;

verus! {

/// The limbs of a row decompose both halves of its result, shifted, in the field.
pub open spec fn limbs_hold(l: Seq<int>, lane: int, k: int) -> bool {
    let r = lane_cells(l, lane, COL_R_BYTES as int);
    let limbs = lane_cells(l, lane, COL_ROT_LIMBS as int);
    let m = MODULUS as int;
    &&& ((packed(r.subrange(0, 4), 256) + 0x1_0000_0000) * k - packed(limbs.subrange(0, 4), 65536))
        % m == 0
    &&& ((packed(r.subrange(4, 8), 256) + 0x1_0000_0000) * k - packed(limbs.subrange(4, 8), 65536))
        % m == 0
}

/// The rules of one lane of a row and the next: it is live or not and changes only between rounds, a
/// row without a byte operation passes its first operand on, and a live row that rotates holds the
/// limbs of its result.
pub open spec fn lane_holds(l: Seq<int>, n: Seq<int>, slot: int, lane: int) -> bool {
    let op = slot_spec(slot).op;
    let act = lane_cell(l, lane, COL_ACT as int);
    &&& is_flag(act)
    &&& slot != ROUND_PERIOD - 1 ==> lane_cell(n, lane, COL_ACT as int) == act
    &&& op is Nop || op is Rol ==> forall|j: int|
        0 <= j < 8 ==> #[trigger] lane_cell(l, lane, COL_R_BYTES + j) == lane_cell(
            l,
            lane,
            COL_A_BYTES + j,
        )
    &&& act == 1 && (op is Rol || op is XorRol) ==> limbs_hold(
        l,
        lane,
        program_row(slot)[COL_K as int],
    )
}

/// The rules of the round machine.
pub open spec fn keeps_the_rules(rows: Seq<Seq<int>>) -> bool {
    &&& is_table(rows, NUM_MAIN_COLS as int)
    &&& rows.len() % (ROUND_PERIOD as nat) == 0
    &&& lane_cell(rows[0], 0, COL_IP as int) == 25
    &&& forall|i: int, lane: int|
        0 <= i < rows.len() && 0 <= lane < NUM_LANES ==> #[trigger] lane_holds(
            rows[i],
            following(rows, i),
            i % (ROUND_PERIOD as int),
            lane,
        )
    &&& forall|i: int, lane: int|
        0 <= i < rows.len() - 1 && 0 <= lane < NUM_LANES ==> lane_cell(
            rows[i + 1],
            lane,
            COL_IP as int,
        ) == (#[trigger] lane_cell(rows[i], lane, COL_IP as int) + 1) % (MODULUS as int)
}

/// What is asked of the bytes of a row without a byte operation.
#[verifier::spinoff_prover]
#[verifier::rlimit(30)]
proof fn bytes_asked(rows: Seq<Seq<int>>, i: int, lane: int, j: int)
    requires
        satisfied(rows),
        0 <= i < rows.len(),
        0 <= lane < NUM_LANES,
        0 <= j < 8,
    ensures
        ({
            let l = rows[i];
            let p = program_row(i % (ROUND_PERIOD as int));
            ((1 - (p[COL_IS_XOR as int] + p[COL_IS_ANDNOT as int])) * (lane_cell(
                l,
                lane,
                COL_R_BYTES + j,
            ) - lane_cell(l, lane, COL_A_BYTES + j))) % (MODULUS as int) == 0
        }),
{
    let d = round_demands(rows[i], following(rows, i), program_row(i % (ROUND_PERIOD as int)));
    assert(is_met(d, i == 0, i == rows.len() - 1));
    if lane == 0 {
        assert(d[4 + j].0 == Rows::All);
    } else {
        assert(d[17 + j].0 == Rows::All);
    }
}

/// The constraints of a lane say what its rules say.
#[verifier::spinoff_prover]
#[verifier::rlimit(30)]
proof fn rules_follow(rows: Seq<Seq<int>>, i: int, lane: int)
    requires
        satisfied(rows),
        0 <= i < rows.len(),
        0 <= lane < NUM_LANES,
    ensures
        lane_holds(rows[i], following(rows, i), i % (ROUND_PERIOD as int), lane),
        i < rows.len() - 1 ==> lane_cell(rows[i + 1], lane, COL_IP as int) == (lane_cell(
            rows[i],
            lane,
            COL_IP as int,
        ) + 1) % (MODULUS as int),
        i == 0 && lane == 0 ==> lane_cell(rows[0], 0, COL_IP as int) == 25,
{
    let slot = i % (ROUND_PERIOD as int);
    let l = rows[i];
    let n = following(rows, i);
    let next: int = if i + 1 < rows.len() { i + 1 } else { 0 };
    let op = slot_spec(slot).op;
    let p = program_row(slot);
    lane_asked(rows, i, lane);
    lane_asked(rows, next, lane);
    switches(slot);
    let base: int = lane * LANE_WIDTH;
    assert(forall|col: int| 0 <= col < NUM_MAIN_COLS ==> is_cell(#[trigger] rows[i][col]));
    assert(forall|col: int| 0 <= col < NUM_MAIN_COLS ==> is_cell(#[trigger] rows[next][col]));
    let act: int = lane_cell(l, lane, COL_ACT as int);
    let act_next: int = lane_cell(n, lane, COL_ACT as int);
    assert(is_cell(rows[i][base + COL_ACT]) && is_cell(rows[next][base + COL_ACT]));
    assert(is_cell(rows[i][base + COL_IP]) && is_cell(rows[next][base + COL_IP]));
    zero_or_one(act);
    if slot != ROUND_PERIOD - 1 {
        released(1 - p[COL_P_LAST as int], act_next - act);
        same_cell(act_next, act);
    }
    let ip: int = lane_cell(l, lane, COL_IP as int);
    if i < rows.len() - 1 {
        residue_of(lane_cell(n, lane, COL_IP as int), ip + 1);
    }
    if i == 0 && lane == 0 {
        same_cell(ip, 25);
    }
    if op is Nop || op is Rol {
        let quiet: int = 1 - (p[COL_IS_XOR as int] + p[COL_IS_ANDNOT as int]);
        assert forall|j: int| 0 <= j < 8 implies #[trigger] lane_cell(l, lane, COL_R_BYTES + j)
            == lane_cell(l, lane, COL_A_BYTES + j) by {
            bytes_asked(rows, i, lane, j);
            let r: int = lane_cell(l, lane, COL_R_BYTES + j);
            let a: int = lane_cell(l, lane, COL_A_BYTES + j);
            assert(is_cell(rows[i][base + COL_R_BYTES + j]));
            assert(is_cell(rows[i][base + COL_A_BYTES + j]));
            released(quiet, r - a);
            same_cell(r, a);
        }
    }
    if act == 1 && (op is Rol || op is XorRol) {
        switched(act, p[COL_IS_ROL as int]);
        let r = lane_cells(l, lane, COL_R_BYTES as int);
        let limbs = lane_cells(l, lane, COL_ROT_LIMBS as int);
        let k: int = p[COL_K as int];
        released(
            act * p[COL_IS_ROL as int],
            (packed(r.subrange(0, 4), 256) + 0x1_0000_0000) * k - packed(
                limbs.subrange(0, 4),
                65536,
            ),
        );
        released(
            act * p[COL_IS_ROL as int],
            (packed(r.subrange(4, 8), 256) + 0x1_0000_0000) * k - packed(
                limbs.subrange(4, 8),
                65536,
            ),
        );
    }
}

/// A switched number that is zero in the field where the switch is on is zero in it.
proof fn met_where_on(switch: int, x: int)
    requires
        is_flag(switch),
        switch == 1 ==> x % (MODULUS as int) == 0,
    ensures
        (switch * x) % (MODULUS as int) == 0,
{
    switched(switch, x);
    vanishes(0, 0);
}

/// The rules of a lane say what its constraints say.
#[verifier::spinoff_prover]
#[verifier::rlimit(30)]
proof fn lane_constraints_met(l: Seq<int>, n: Seq<int>, slot: int, lane: int, k: int)
    requires
        0 <= slot < ROUND_PERIOD,
        0 <= lane < NUM_LANES,
        lane_holds(l, n, slot, lane),
        if lane == 0 { 0 <= k < 14 } else { 14 <= k < 27 },
    ensures
        ({
            let d = round_demands(l, n, program_row(slot));
            let ip = lane_cell(l, lane, COL_IP as int);
            let ip_next = lane_cell(n, lane, COL_IP as int);
            &&& d.len() == 27
            &&& d[k].0 == Rows::All ==> d[k].1 % (MODULUS as int) == 0
            &&& d[k].0 == Rows::AllButLast ==> d[k].1 == ip_next - ip - 1
            &&& d[k].0 == Rows::First ==> lane == 0 && d[k].1 == ip - 25
        }),
{
    let d = round_demands(l, n, program_row(slot));
    let p = program_row(slot);
    switches(slot);
    let op = slot_spec(slot).op;
    let act: int = lane_cell(l, lane, COL_ACT as int);
    let act_next: int = lane_cell(n, lane, COL_ACT as int);
    let base: int = lane * LANE_WIDTH;
    let o: int = if lane == 0 { 1 } else { 14 };
    assert(lane == 0 ==> base == 0);
    assert(lane == 1 ==> base == LANE_WIDTH);
    if k == o + 1 {
        vanishes(act, 1 - act);
    } else if k == o + 2 {
        vanishes(1 - p[COL_P_LAST as int], act_next - act);
    } else if o + 3 <= k < o + 11 {
        let j: int = k - (o + 3);
        let quiet: int = 1 - (p[COL_IS_XOR as int] + p[COL_IS_ANDNOT as int]);
        let r: int = lane_cell(l, lane, COL_R_BYTES + j);
        let a: int = lane_cell(l, lane, COL_A_BYTES + j);
        vanishes(quiet, r - a);
        assert(d[k].1 == quiet * (r - a));
    } else if k >= o + 11 {
        let r = lane_cells(l, lane, COL_R_BYTES as int);
        let limbs = lane_cells(l, lane, COL_ROT_LIMBS as int);
        let f: int = p[COL_K as int];
        switched(act, p[COL_IS_ROL as int]);
        met_where_on(
            act * p[COL_IS_ROL as int],
            (packed(r.subrange(0, 4), 256) + 0x1_0000_0000) * f - packed(
                limbs.subrange(0, 4),
                65536,
            ),
        );
        met_where_on(
            act * p[COL_IS_ROL as int],
            (packed(r.subrange(4, 8), 256) + 0x1_0000_0000) * f - packed(
                limbs.subrange(4, 8),
                65536,
            ),
        );
    }
}

/// The constraints of the round machine are its rules: no table that breaks one satisfies them, and
/// every table that keeps them does.
pub proof fn constraints_are_the_rules(rows: Seq<Seq<int>>)
    requires
        is_table(rows, NUM_MAIN_COLS as int),
        rows.len() % (ROUND_PERIOD as nat) == 0,
    ensures
        satisfied(rows) <==> keeps_the_rules(rows),
{
    if satisfied(rows) {
        assert forall|i: int, lane: int|
            0 <= i < rows.len() && 0 <= lane < NUM_LANES implies #[trigger] lane_holds(
            rows[i],
            following(rows, i),
            i % (ROUND_PERIOD as int),
            lane,
        ) by {
            rules_follow(rows, i, lane);
        }
        assert forall|i: int, lane: int|
            0 <= i < rows.len() - 1 && 0 <= lane < NUM_LANES implies lane_cell(
            rows[i + 1],
            lane,
            COL_IP as int,
        ) == (#[trigger] lane_cell(rows[i], lane, COL_IP as int) + 1) % (MODULUS as int) by {
            rules_follow(rows, i, lane);
        }
        rules_follow(rows, 0, 0);
    }
    if keeps_the_rules(rows) {
        assert forall|i: int| 0 <= i < rows.len() implies is_met(
            #[trigger] round_demands(
                rows[i],
                following(rows, i),
                program_row(i % (ROUND_PERIOD as int)),
            ),
            i == 0,
            i == rows.len() - 1,
        ) by {
            let l = rows[i];
            let n = following(rows, i);
            let slot = i % (ROUND_PERIOD as int);
            let d = round_demands(l, n, program_row(slot));
            assert(lane_holds(rows[i], following(rows, i), i % (ROUND_PERIOD as int), 0));
            lane_constraints_met(l, n, slot, 0, 0);
            assert forall|k: int|
                0 <= k < d.len() && is_enforced(
                    (#[trigger] d[k]).0,
                    i == 0,
                    i == rows.len() - 1,
                ) implies d[k].1 % (MODULUS as int) == 0 by {
                let lane: int = if k < 14 { 0 } else { 1 };
                assert(lane_holds(rows[i], following(rows, i), i % (ROUND_PERIOD as int), lane));
                lane_constraints_met(l, n, slot, lane, k);
                let ip: int = lane_cell(rows[i], lane, COL_IP as int);
                vanishes(0, 0);
                if d[k].0 == Rows::AllButLast {
                    met_by_residue(1, lane_cell(n, lane, COL_IP as int), ip + 1);
                    switched(1, lane_cell(n, lane, COL_IP as int) - (ip + 1));
                }
            }
        }
    }
}

/// The messages of one lane of a row.
pub open spec fn lane_is_true(store: Store, l: Seq<int>, slot: int, lane: int) -> bool {
    forall|k: int|
        19 * lane <= k < 19 * lane + 19 ==> is_true(
            store,
            #[trigger] round_fractions(l, program_row(slot))[k],
        )
}

/// The halves that eight bytes make, in the field.
pub open spec fn bytes_as_halves(bytes: Seq<int>) -> (int, int) {
    (
        packed(bytes.subrange(0, 4), 256) % (MODULUS as int),
        packed(bytes.subrange(4, 8), 256) % (MODULUS as int),
    )
}

/// A lane that is not live puts nothing on any bus.
#[verifier::spinoff_prover]
#[verifier::rlimit(30)]
pub proof fn idle_lanes_are_silent(l: Seq<int>, slot: int, lane: int, k: int)
    requires
        0 <= slot < ROUND_PERIOD,
        l.len() == NUM_MAIN_COLS,
        0 <= lane < NUM_LANES,
        lane_cell(l, lane, COL_ACT as int) == 0,
        19 * lane <= k < 19 * lane + 19,
    ensures
        round_fractions(l, program_row(slot)).len() == 38,
        round_fractions(l, program_row(slot))[k].mult == 0,
{
    let p = program_row(slot);
    let act: int = lane_cell(l, lane, COL_ACT as int);
    assert(lane == 0 ==> lane * LANE_WIDTH == 0);
    assert(lane == 1 ==> lane * LANE_WIDTH == LANE_WIDTH);
    vanishes(act, p[6]);
    vanishes(act, p[COL_IS_XOR as int] + p[COL_IS_ANDNOT as int] + p[COL_IS_ROL as int] - p[8]);
    vanishes(act, p[COL_IS_XOR as int] + p[COL_IS_ANDNOT as int]);
    vanishes(act, p[COL_IS_ROL as int]);
}

/// What message `k` of a live lane claims.
pub open spec fn message_is_right(store: Store, l: Seq<int>, slot: int, lane: int, k: int) -> bool {
    let op = slot_spec(slot).op;
    let p = program_row(slot);
    let m = MODULUS as int;
    let ip = lane_cell(l, lane, COL_IP as int);
    let a = lane_cells(l, lane, COL_A_BYTES as int);
    let b = lane_cells(l, lane, COL_B_BYTES as int);
    let r = lane_cells(l, lane, COL_R_BYTES as int);
    let limbs = lane_cells(l, lane, COL_ROT_LIMBS as int);
    let c = written(r, limbs, p[COL_K as int], p[COL_SWAP as int], p[COL_IS_ROL as int]);
    let logic = op is Xor || op is XorRol || op is Andnot;
    if k == 0 {
        slot_spec(slot).dst_mult > 0 ==> (store.lanes)(ip) == (c.0 % m, c.1 % m)
    } else if k == 1 {
        !(op is Nop) ==> (store.lanes)((ip - slot_spec(slot).src_a.distance(slot)) % m)
            == bytes_as_halves(a)
    } else if k == 2 {
        logic ==> (store.lanes)((ip - slot_spec(slot).src_b.distance(slot)) % m)
            == bytes_as_halves(b)
    } else if k < 11 {
        !(op is Nop) ==> is_byte(a[k - 3]) && (logic ==> is_byte(b[k - 3])) && r[k - 3]
            == byte_result(
            if op is Andnot { 0int } else { 1 },
            a[k - 3],
            if logic { b[k - 3] } else { 0 },
        )
    } else {
        op is Rol || op is XorRol ==> limbs[k - 11] < 65536
    }
}

/// What a live lane claims: its operands are what the memory holds where the slot reads them, its
/// result is theirs byte by byte, the limbs of a rotation fit sixteen bits, and the memory holds what
/// it writes, if anyone reads it.
pub open spec fn lane_is_right(store: Store, l: Seq<int>, slot: int, lane: int) -> bool {
    forall|k: int| 0 <= k < 19 ==> #[trigger] message_is_right(store, l, slot, lane, k)
}

/// What one message of a live lane says.
#[verifier::spinoff_prover]
#[verifier::rlimit(30)]
proof fn one_message(store: Store, l: Seq<int>, slot: int, lane: int, k: int)
    requires
        0 <= slot < ROUND_PERIOD,
        l.len() == NUM_MAIN_COLS,
        forall|i: int| 0 <= i < NUM_MAIN_COLS ==> is_cell(#[trigger] l[i]),
        0 <= lane < NUM_LANES,
        lane_cell(l, lane, COL_ACT as int) == 1,
        0 <= k < 19,
    ensures
        is_true(store, round_fractions(l, program_row(slot))[19 * lane + k]) <==> message_is_right(
            store,
            l,
            slot,
            lane,
            k,
        ),
{
    lane_messages(l, slot, lane);
    switches(slot);
    let o: int = 19 * lane;
    let p = program_row(slot);
    let fs = round_fractions(l, p);
    let f = fs[o + k];
    let base: int = lane * LANE_WIDTH;
    assert(is_cell(l[base + COL_IP]));
    vanishes(0, 0);
    let mult: int = slot_spec(slot).dst_mult as int;
    if (0 - mult) % (MODULUS as int) == 0 {
        small_and_zero(0 - mult);
    }
    if k == 0 {
        vstd::arithmetic::div_mod::lemma_small_mod(
            lane_cell(l, lane, COL_IP as int) as nat,
            MODULUS as nat,
        );
        let e = payload(f);
        assert(e[0] == f.elems[0] % (MODULUS as int));
        assert(e[1] == f.elems[1] % (MODULUS as int));
        assert(e[2] == f.elems[2] % (MODULUS as int));
    } else if k < 3 {
        let e = payload(f);
        assert(e[0] == f.elems[0] % (MODULUS as int));
        assert(e[1] == f.elems[1] % (MODULUS as int));
        assert(e[2] == f.elems[2] % (MODULUS as int));
    } else if k < 11 {
        assert(f == fs[o + 3 + (k - 3)]);
        assert(is_cell(l[base + COL_A_BYTES + (k - 3)]));
        assert(is_cell(l[base + COL_B_BYTES + (k - 3)]));
        assert(is_cell(l[base + COL_R_BYTES + (k - 3)]));
        assert forall|i: int| 0 <= i < f.elems.len() implies is_cell(#[trigger] f.elems[i]) by {}
        cells_are_residues(f);
    } else {
        assert(f == fs[o + 11 + (k - 11)]);
        assert(is_cell(l[base + COL_ROT_LIMBS + (k - 11)]));
        assert forall|i: int| 0 <= i < f.elems.len() implies is_cell(#[trigger] f.elems[i]) by {}
        cells_are_residues(f);
    }
}

/// The messages of a live lane are true exactly if the lane is right: nothing less is checked, and
/// nothing more is asked.
#[verifier::spinoff_prover]
#[verifier::rlimit(30)]
pub proof fn messages_certify_the_lane(store: Store, l: Seq<int>, slot: int, lane: int)
    requires
        0 <= slot < ROUND_PERIOD,
        l.len() == NUM_MAIN_COLS,
        forall|i: int| 0 <= i < NUM_MAIN_COLS ==> is_cell(#[trigger] l[i]),
        0 <= lane < NUM_LANES,
        lane_cell(l, lane, COL_ACT as int) == 1,
    ensures
        lane_is_true(store, l, slot, lane) <==> lane_is_right(store, l, slot, lane),
{
    if lane_is_true(store, l, slot, lane) {
        assert forall|k: int| 0 <= k < 19 implies #[trigger] message_is_right(
            store,
            l,
            slot,
            lane,
            k,
        ) by {
            one_message(store, l, slot, lane, k);
            assert(is_true(store, round_fractions(l, program_row(slot))[19 * lane + k]));
        }
    }
    if lane_is_right(store, l, slot, lane) {
        assert forall|k: int| 19 * lane <= k < 19 * lane + 19 implies is_true(
            store,
            #[trigger] round_fractions(l, program_row(slot))[k],
        ) by {
            one_message(store, l, slot, lane, k - 19 * lane);
            assert(message_is_right(store, l, slot, lane, k - 19 * lane));
            assert(19 * lane + (k - 19 * lane) == k);
        }
    }
}

} // verus!
