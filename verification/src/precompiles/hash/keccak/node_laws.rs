//! What the constraints of the digest node table say of every table that satisfies them.

use crate::precompiles::field::MODULUS;
use crate::precompiles::hash::keccak::node::{
    node_demands, node_fractions, COL_ACT, COL_CHUNK_SEQ_ID_HEAD, COL_N_CHUNKS, COL_N_SPONGE_PERMS,
    COL_OUT_MULT, COL_SPONGE_SEQ_ID_HEAD, NUM_MAIN_COLS,
};
use crate::precompiles::logup::{bool_poly, Fraction, Rows};
use crate::precompiles::trace::{
    following, is_cell, is_flag, is_met, is_table, released, residue_of, small_and_zero,
    zero_or_one,
};
use vstd::prelude::*;

verus! {

/// Whether a table satisfies the constraints of the digest node.
pub open spec fn satisfied(rows: Seq<Seq<int>>) -> bool {
    &&& is_table(rows, NUM_MAIN_COLS as int)
    &&& forall|i: int|
        0 <= i < rows.len() ==> is_met(
            #[trigger] node_demands(rows[i], following(rows, i)),
            i == 0,
            i == rows.len() - 1,
        )
}

/// What each constraint asks of a row.
proof fn asked(rows: Seq<Seq<int>>, i: int)
    requires
        satisfied(rows),
        0 <= i < rows.len(),
    ensures
        i == 0 ==> rows[i][COL_SPONGE_SEQ_ID_HEAD as int] % (MODULUS as int) == 0,
        i == 0 ==> rows[i][COL_CHUNK_SEQ_ID_HEAD as int] % (MODULUS as int) == 0,
        bool_poly(rows[i][COL_ACT as int]) % (MODULUS as int) == 0,
        ((1 - rows[i][COL_ACT as int]) * rows[i][COL_OUT_MULT as int]) % (MODULUS as int) == 0,
        i + 1 < rows.len() ==> {
            let act_next = rows[i + 1][COL_ACT as int];
            let l = rows[i];
            let n = rows[i + 1];
            &&& ((1 - l[COL_ACT as int]) * act_next) % (MODULUS as int) == 0
            &&& (act_next * (n[COL_SPONGE_SEQ_ID_HEAD as int] - l[COL_SPONGE_SEQ_ID_HEAD as int]
                - 32 * l[COL_N_SPONGE_PERMS as int])) % (MODULUS as int) == 0
            &&& (act_next * (n[COL_CHUNK_SEQ_ID_HEAD as int] - l[COL_CHUNK_SEQ_ID_HEAD as int]
                - l[COL_N_CHUNKS as int])) % (MODULUS as int) == 0
        },
{
    let d = node_demands(rows[i], following(rows, i));
    let first = i == 0;
    let last = i == rows.len() - 1;
    assert(is_met(d, first, last));
    assert(d[0].0 == Rows::First);
    assert(d[1].0 == Rows::First);
    assert(d[2].0 == Rows::All);
    assert(d[3].0 == Rows::AllButLast);
    assert(d[4].0 == Rows::All);
    assert(d[5].0 == Rows::AllButLast);
    assert(d[6].0 == Rows::AllButLast);
}

/// Rows are in use up to some row and padding from there on: the flag is zero or one, and it never
/// rises.
pub proof fn active_rows_come_first(rows: Seq<Seq<int>>, i: int)
    requires
        satisfied(rows),
        0 <= i < rows.len(),
    ensures
        is_flag(rows[i][COL_ACT as int]),
        i + 1 < rows.len() ==> rows[i + 1][COL_ACT as int] <= rows[i][COL_ACT as int],
{
    asked(rows, i);
    assert(is_cell(rows[i][COL_ACT as int]));
    zero_or_one(rows[i][COL_ACT as int]);
    if i + 1 < rows.len() {
        asked(rows, i + 1);
        assert(is_cell(rows[i + 1][COL_ACT as int]));
        zero_or_one(rows[i + 1][COL_ACT as int]);
    }
    if i + 1 < rows.len() && rows[i][COL_ACT as int] == 0 {
        released(1 - rows[i][COL_ACT as int], rows[i + 1][COL_ACT as int]);
        small_and_zero(rows[i + 1][COL_ACT as int]);
    }
}

/// Invocations tile the sponge's rows and the input tape without gaps: both heads start at zero,
/// and the heads of the next invocation are those of this one moved by what it uses, in the field.
pub proof fn invocations_leave_no_gaps(rows: Seq<Seq<int>>, i: int)
    requires
        satisfied(rows),
        0 <= i < rows.len(),
    ensures
        rows[0][COL_SPONGE_SEQ_ID_HEAD as int] == 0,
        rows[0][COL_CHUNK_SEQ_ID_HEAD as int] == 0,
        i + 1 < rows.len() && rows[i + 1][COL_ACT as int] == 1 ==> {
            &&& rows[i + 1][COL_SPONGE_SEQ_ID_HEAD as int] == (
            rows[i][COL_SPONGE_SEQ_ID_HEAD as int] + 32 * rows[i][COL_N_SPONGE_PERMS as int]) % (
            MODULUS as int)
            &&& rows[i + 1][COL_CHUNK_SEQ_ID_HEAD as int] == (rows[i][COL_CHUNK_SEQ_ID_HEAD as int]
                + rows[i][COL_N_CHUNKS as int]) % (MODULUS as int)
        },
{
    asked(rows, 0);
    assert(is_cell(rows[0][COL_SPONGE_SEQ_ID_HEAD as int]));
    assert(is_cell(rows[0][COL_CHUNK_SEQ_ID_HEAD as int]));
    small_and_zero(rows[0][COL_SPONGE_SEQ_ID_HEAD as int]);
    small_and_zero(rows[0][COL_CHUNK_SEQ_ID_HEAD as int]);
    if i + 1 < rows.len() && rows[i + 1][COL_ACT as int] == 1 {
        asked(rows, i);
        let l = rows[i];
        let n = rows[i + 1];
        assert(is_cell(n[COL_SPONGE_SEQ_ID_HEAD as int]));
        assert(is_cell(n[COL_CHUNK_SEQ_ID_HEAD as int]));
        let used = l[COL_SPONGE_SEQ_ID_HEAD as int] + 32 * l[COL_N_SPONGE_PERMS as int];
        released(
            1,
            n[COL_SPONGE_SEQ_ID_HEAD as int] - l[COL_SPONGE_SEQ_ID_HEAD as int] - 32
                * l[COL_N_SPONGE_PERMS as int],
        );
        residue_of(n[COL_SPONGE_SEQ_ID_HEAD as int], used);
        released(
            1,
            n[COL_CHUNK_SEQ_ID_HEAD as int] - l[COL_CHUNK_SEQ_ID_HEAD as int]
                - l[COL_N_CHUNKS as int],
        );
        residue_of(
            n[COL_CHUNK_SEQ_ID_HEAD as int],
            l[COL_CHUNK_SEQ_ID_HEAD as int] + l[COL_N_CHUNKS as int],
        );
    }
}

/// Padding says nothing: its output multiplicity is zero, and so is every multiplicity it puts on a
/// bus.
#[verifier::rlimit(60)]
pub proof fn padding_is_silent(
    rows: Seq<Seq<int>>,
    i: int,
    t: Seq<int>,
    kid: int,
    ktag: int,
    first: usize,
    k: int,
)
    requires
        satisfied(rows),
        0 <= i < rows.len(),
        rows[i][COL_ACT as int] == 0,
        0 <= k < node_fractions(Seq::<Fraction>::empty(), rows[i], t, kid, ktag, first).len(),
    ensures
        rows[i][COL_OUT_MULT as int] == 0,
        node_fractions(Seq::<Fraction>::empty(), rows[i], t, kid, ktag, first)[k].mult == 0,
{
    asked(rows, i);
    assert(is_cell(rows[i][COL_OUT_MULT as int]));
    released(1 - rows[i][COL_ACT as int], rows[i][COL_OUT_MULT as int]);
    small_and_zero(rows[i][COL_OUT_MULT as int]);
}

} // verus!
