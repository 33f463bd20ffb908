//! What the byte-pair table provides: true messages only, and every one of them.

use crate::precompiles::byte_pair_lut::{
    fixed_row, table_fractions, COL_MULT_ANDNOT, COL_MULT_XOR, NUM_LOOKUP_COLS,
    NUM_PREPROCESSED_COLS, TRACE_HEIGHT,
};
use crate::precompiles::meaning::{byte_result, cells_are_residues, is_byte, payload, says, Store};
use crate::precompiles::relations::BusId;
use crate::precompiles::trace::is_cell;
use vstd::prelude::*;

verus! {

/// A row of the table: its fixed cells, and how often each of its three messages counts.
pub open spec fn table_row(idx: int, andnots: int, xors: int, ranges: int) -> Seq<int> {
    Seq::new(
        NUM_LOOKUP_COLS as nat,
        |col: int|
            if col < NUM_PREPROCESSED_COLS {
                fixed_row(idx)[col] as int
            } else if col == NUM_PREPROCESSED_COLS + COL_MULT_ANDNOT {
                andnots
            } else if col == NUM_PREPROCESSED_COLS + COL_MULT_XOR {
                xors
            } else {
                ranges
            },
    )
}

/// Whatever its counts, a row provides true messages only, each as often as it counts.
pub proof fn table_provides_truth(
    store: Store,
    idx: int,
    andnots: int,
    xors: int,
    ranges: int,
    k: int,
)
    requires
        0 <= idx < TRACE_HEIGHT,
        0 <= k < table_fractions(table_row(idx, andnots, xors, ranges)).len(),
    ensures
        ({
            let f = table_fractions(table_row(idx, andnots, xors, ranges))[k];
            &&& says(store, f.bus, payload(f))
            &&& f.bus == BusId::BytePairLut || f.bus == BusId::Range16
            &&& f.bus == BusId::Range16 ==> f.mult == -ranges
            &&& f.bus == BusId::BytePairLut && payload(f)[0] == 0 ==> f.mult == -andnots
            &&& f.bus == BusId::BytePairLut && payload(f)[0] == 1 ==> f.mult == -xors
        }),
{
    let f = table_fractions(table_row(idx, andnots, xors, ranges))[k];
    assert forall|i: int| 0 <= i < f.elems.len() implies is_cell(#[trigger] f.elems[i]) by {}
    cells_are_residues(f);
}

/// Every true byte message is provided by some row.
pub proof fn table_provides_every_byte_pair(
    op: int,
    a: int,
    b: int,
    andnots: int,
    xors: int,
    ranges: int,
) -> (found: (int, int))
    requires
        op == 0 || op == 1,
        is_byte(a),
        is_byte(b),
    ensures
        0 <= found.0 < TRACE_HEIGHT,
        ({
            let fs = table_fractions(table_row(found.0, andnots, xors, ranges));
            &&& 0 <= found.1 < fs.len()
            &&& fs[found.1].bus == BusId::BytePairLut
            &&& payload(fs[found.1]) == seq![op, a, b, byte_result(op, a, b)]
        }),
{
    let idx: int = 256 * a + b;
    let fs = table_fractions(table_row(idx, andnots, xors, ranges));
    let f = fs[op];
    assert(f.elems =~= seq![op, a, b, byte_result(op, a, b)]);
    cells_are_residues(f);
    (idx, op)
}

/// Every number of sixteen bits is provided by some row.
pub proof fn table_provides_every_limb(limb: int, andnots: int, xors: int, ranges: int) -> (found: (
    int,
    int,
))
    requires
        0 <= limb < 65536,
    ensures
        0 <= found.0 < TRACE_HEIGHT,
        ({
            let fs = table_fractions(table_row(found.0, andnots, xors, ranges));
            &&& 0 <= found.1 < fs.len()
            &&& fs[found.1].bus == BusId::Range16
            &&& payload(fs[found.1]) == seq![limb]
        }),
{
    let idx: int = 256 * (limb % 256) + limb / 256;
    let fs = table_fractions(table_row(idx, andnots, xors, ranges));
    let f = fs[2];
    assert(f.elems =~= seq![limb]);
    cells_are_residues(f);
    (idx, 2)
}

} // verus!
