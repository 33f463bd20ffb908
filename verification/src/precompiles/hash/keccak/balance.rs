//! The round program is balanced: every slot writes its result exactly as often as it is read.

use crate::precompiles::hash::keccak::reference::moved_from;
use crate::precompiles::hash::keccak::round::program::{
    b_slots_ordered, lane_at, lane_at_is, slot_lane_prev, slot_spec, Source, B_SLOTS, ROUND_PERIOD,
    SLOT_APPLY_RPI_BEGIN, SLOT_CHI00, SLOT_CHI_ANDNOT_BEGIN, SLOT_CHI_XOR_BEGIN, SLOT_C_BEGIN,
    SLOT_D_ROL_BEGIN, SLOT_D_XOR_BEGIN, SLOT_IOTA, SLOT_RC,
};
use vstd::prelude::*;

verus! {

/// Whether an operand is what slot `s` has written, in this round or as a lane of the round before.
pub open spec fn reads(source: Source, s: int) -> int {
    match source {
        Source::Local(t) => if t == s { 1 } else { 0 },
        Source::Lane(x, y) => if slot_lane_prev(x, y) == s { 1 } else { 0 },
        Source::Absent => 0,
    }
}

/// How often slot `i` reads what slot `s` has written.
pub open spec fn reads_of(i: int, s: int) -> int {
    reads(slot_spec(i).src_a, s) + reads(slot_spec(i).src_b, s)
}

/// How often the first `n` slots of a round read what slot `s` has written.
pub open spec fn total_reads(s: int, n: nat) -> int
    decreases n,
{
    if n == 0 {
        0
    } else {
        total_reads(s, (n - 1) as nat) + reads_of(n - 1, s)
    }
}

/// One if two slots are the same.
pub open spec fn one_if(a: int, b: int) -> int {
    if a == b { 1 } else { 0 }
}

/// The slot of the lane that rho and pi make of lane `(x, y)`.
pub open spec fn moved_slot(x: int, y: int) -> int {
    B_SLOTS@[y + 5 * ((2 * (x + 5 - y)) % 5)] as int
}

/// The slots that read slot `s`, as often as they do; no slot is written as -1.
pub open spec fn readers(s: int) -> Seq<int> {
    if s == SLOT_RC {
        seq![SLOT_IOTA as int]
    } else if SLOT_C_BEGIN <= s < SLOT_D_ROL_BEGIN {
        let x = (s - SLOT_C_BEGIN) / 4;
        if (s - SLOT_C_BEGIN) % 4 < 3 {
            seq![s + 1]
        } else {
            seq![SLOT_D_ROL_BEGIN + (x + 4) % 5, SLOT_D_XOR_BEGIN + (x + 1) % 5]
        }
    } else if SLOT_D_ROL_BEGIN <= s < SLOT_D_XOR_BEGIN {
        seq![s + 5]
    } else if SLOT_D_XOR_BEGIN <= s < SLOT_APPLY_RPI_BEGIN {
        let x = s - SLOT_D_XOR_BEGIN;
        seq![
            moved_slot(x, 0),
            moved_slot(x, 1),
            moved_slot(x, 2),
            moved_slot(x, 3),
            moved_slot(x, 4),
        ]
    } else if SLOT_APPLY_RPI_BEGIN <= s < SLOT_CHI_ANDNOT_BEGIN {
        match lane_at(s) {
            Some(lane) => seq![
                SLOT_CHI_ANDNOT_BEGIN + (lane % 5 + 4) % 5 + 5 * (lane / 5),
                SLOT_CHI_ANDNOT_BEGIN + (lane % 5 + 3) % 5 + 5 * (lane / 5),
                if lane == 0 { SLOT_CHI00 as int } else { SLOT_IOTA + lane },
            ],
            None => Seq::empty(),
        }
    } else if SLOT_CHI_ANDNOT_BEGIN <= s < SLOT_CHI_ANDNOT_BEGIN + 25 {
        let lane = s - SLOT_CHI_ANDNOT_BEGIN;
        seq![if lane == 0 { SLOT_CHI00 as int } else { SLOT_IOTA + lane }]
    } else if s == SLOT_CHI00 {
        seq![SLOT_IOTA as int]
    } else if SLOT_IOTA <= s < ROUND_PERIOD {
        let x = (s - SLOT_IOTA) % 5;
        let y = (s - SLOT_IOTA) / 5;
        seq![
            SLOT_C_BEGIN + 4 * x + if y == 0 { 0 } else { y - 1 },
            moved_slot(x, y),
        ]
    } else {
        Seq::empty()
    }
}

/// How often `i` stands in a list.
pub open spec fn occurrences(list: Seq<int>, i: int) -> int
    decreases list.len(),
{
    if list.len() == 0 {
        0
    } else {
        occurrences(list.drop_last(), i) + one_if(list.last(), i)
    }
}

/// How many entries of a list lie below `n`.
pub open spec fn below(list: Seq<int>, n: int) -> int
    decreases list.len(),
{
    if list.len() == 0 {
        0
    } else {
        below(list.drop_last(), n) + if list.last() < n { 1int } else { 0 }
    }
}

proof fn below_steps(list: Seq<int>, n: int)
    ensures
        below(list, n + 1) == below(list, n) + occurrences(list, n),
    decreases list.len(),
{
    if list.len() > 0 {
        below_steps(list.drop_last(), n);
    }
}

proof fn below_ends(list: Seq<int>, lo: int, hi: int)
    requires
        forall|j: int| 0 <= j < list.len() ==> lo <= #[trigger] list[j] < hi,
    ensures
        below(list, lo) == 0,
        below(list, hi) == list.len(),
    decreases list.len(),
{
    if list.len() > 0 {
        assert forall|j: int| 0 <= j < list.drop_last().len() implies lo
            <= #[trigger] list.drop_last()[j] < hi by {
            assert(list[j] == list.drop_last()[j]);
        }
        below_ends(list.drop_last(), lo, hi);
        assert(lo <= list[list.len() - 1] < hi);
    }
}

/// The entries of short lists, one by one.
proof fn occurrences_of(list: Seq<int>, i: int)
    requires
        list.len() <= 5,
    ensures
        occurrences(list, i) == (if list.len() > 0 { one_if(list[0], i) } else { 0 }) + (if list.len()
            > 1 { one_if(list[1], i) } else { 0 }) + (if list.len() > 2 {
            one_if(list[2], i)
        } else {
            0
        }) + (if list.len() > 3 { one_if(list[3], i) } else { 0 }) + (if list.len() > 4 {
            one_if(list[4], i)
        } else {
            0
        }),
{
    reveal_with_fuel(occurrences, 6);
    if list.len() == 1 {
    } else if list.len() == 2 {
        assert(list.drop_last()[0] == list[0]);
    } else if list.len() == 3 {
        assert(list.drop_last().drop_last()[0] == list[0]);
        assert(list.drop_last()[1] == list[1]);
    } else if list.len() == 4 {
        assert(list.drop_last().drop_last().drop_last()[0] == list[0]);
        assert(list.drop_last().drop_last()[1] == list[1]);
        assert(list.drop_last()[2] == list[2]);
    } else if list.len() == 5 {
        assert(list.drop_last().drop_last().drop_last().drop_last()[0] == list[0]);
        assert(list.drop_last().drop_last().drop_last()[1] == list[1]);
        assert(list.drop_last().drop_last()[2] == list[2]);
        assert(list.drop_last()[3] == list[3]);
    }
}

/// Different lanes have different slots.
proof fn slots_differ(a: int, b: int)
    requires
        0 <= a < 25,
        0 <= b < 25,
    ensures
        B_SLOTS@[a] == B_SLOTS@[b] <==> a == b,
        SLOT_APPLY_RPI_BEGIN <= B_SLOTS@[a] < SLOT_CHI_ANDNOT_BEGIN,
        lane_at(B_SLOTS@[a] as int) == Some(a),
{
    lane_at_is(a);
    b_slots_ordered(0, a);
    b_slots_ordered(a, 24);
    if a < b {
        b_slots_ordered(a, b);
    } else if b < a {
        b_slots_ordered(b, a);
    }
}

/// Where a lane moves to: `(x, y)` comes to `moved_slot(x, y)`, and nothing else does.
proof fn moves(lane: int, x: int, y: int)
    requires
        0 <= lane < 25,
        0 <= x < 5,
        0 <= y < 5,
    ensures
        moved_from(lane % 5, lane / 5) == (x, y) <==> lane == y + 5 * ((2 * (x + 5 - y)) % 5),
{
    let ox: int = lane % 5;
    let oy: int = lane / 5;
    assert(0 <= ox < 5 && 0 <= oy < 5 && lane == ox + 5 * oy);
    assert((3 * oy + ox) % 5 == x && ox == y <==> ox == y && oy == (2 * (x + 5 - y)) % 5) by {
        if ox == y {
            assert(oy == 0 || oy == 1 || oy == 2 || oy == 3 || oy == 4);
            assert(ox == 0 || ox == 1 || ox == 2 || ox == 3 || ox == 4);
            assert(x == 0 || x == 1 || x == 2 || x == 3 || x == 4);
        }
    }
}

/// What is read behind theta is not read by it.
#[verifier::spinoff_prover]
#[verifier::rlimit(20)]
proof fn later_readers(i: int, s: int)
    requires
        0 <= i < SLOT_APPLY_RPI_BEGIN,
        s == SLOT_RC || SLOT_D_XOR_BEGIN <= s < SLOT_IOTA,
    ensures
        occurrences(readers(s), i) == 0,
{
    occurrences_of(readers(s), i);
    if SLOT_APPLY_RPI_BEGIN <= s < SLOT_CHI_ANDNOT_BEGIN {
        if lane_at(s) is Some {
            let lane = lane_at(s)->0;
            assert(0 <= lane < 25);
        }
    } else if SLOT_D_XOR_BEGIN <= s < SLOT_APPLY_RPI_BEGIN {
        let x = s - SLOT_D_XOR_BEGIN;
        slots_differ(0 + 5 * ((2 * (x + 5 - 0)) % 5), 0);
        slots_differ(1 + 5 * ((2 * (x + 5 - 1)) % 5), 0);
        slots_differ(2 + 5 * ((2 * (x + 5 - 2)) % 5), 0);
        slots_differ(3 + 5 * ((2 * (x + 5 - 3)) % 5), 0);
        slots_differ(4 + 5 * ((2 * (x + 5 - 4)) % 5), 0);
    }
}

/// The parities read the lanes of their column, one after the other.
#[verifier::spinoff_prover]
#[verifier::rlimit(20)]
proof fn parities_read(i: int, s: int)
    requires
        SLOT_C_BEGIN <= i < SLOT_D_ROL_BEGIN,
        0 <= s < ROUND_PERIOD,
    ensures
        reads_of(i, s) == occurrences(readers(s), i),
{
    let col: int = (i - SLOT_C_BEGIN) / 4;
    let step: int = (i - SLOT_C_BEGIN) % 4;
    assert(i == SLOT_C_BEGIN + 4 * col + step && 0 <= col < 5 && 0 <= step < 4);
    let lane_b: int = SLOT_IOTA + col + 5 * (step + 1);
    assert(reads(slot_spec(i).src_b, s) == one_if(lane_b, s));
    assert(reads(slot_spec(i).src_a, s) == if step == 0 {
        one_if(SLOT_IOTA + col, s)
    } else {
        one_if(i - 1, s)
    });
    occurrences_of(readers(s), i);
    if SLOT_IOTA <= s {
        let x = (s - SLOT_IOTA) % 5;
        let y = (s - SLOT_IOTA) / 5;
        assert(s == SLOT_IOTA + x + 5 * y && 0 <= x < 5 && 0 <= y < 5);
        slots_differ(y + 5 * ((2 * (x + 5 - y)) % 5), 0);
        let c: int = SLOT_C_BEGIN + 4 * x + if y == 0 { 0 } else { y - 1 };
        assert(occurrences(readers(s), i) == one_if(c, i));
        if c == i {
            assert(x == col);
        }
    } else if s == SLOT_RC || SLOT_D_XOR_BEGIN <= s {
        later_readers(i, s);
    }
}

/// The rotated parities and the masks read parities.
#[verifier::spinoff_prover]
#[verifier::rlimit(20)]
proof fn masks_read(i: int, s: int)
    requires
        SLOT_D_ROL_BEGIN <= i < SLOT_APPLY_RPI_BEGIN,
        0 <= s < ROUND_PERIOD,
    ensures
        reads_of(i, s) == occurrences(readers(s), i),
{
    occurrences_of(readers(s), i);
    if SLOT_IOTA <= s {
        let x = (s - SLOT_IOTA) % 5;
        let y = (s - SLOT_IOTA) / 5;
        assert(0 <= x < 5 && 0 <= y < 5);
        slots_differ(y + 5 * ((2 * (x + 5 - y)) % 5), 0);
    } else if s == SLOT_RC || SLOT_D_XOR_BEGIN <= s {
        later_readers(i, s);
    }
}

/// The first two slots read nothing.
#[verifier::spinoff_prover]
#[verifier::rlimit(20)]
proof fn first_slots_read_nothing(i: int, s: int)
    requires
        0 <= i < SLOT_C_BEGIN,
        0 <= s < ROUND_PERIOD,
    ensures
        reads_of(i, s) == occurrences(readers(s), i),
{
    occurrences_of(readers(s), i);
    if SLOT_IOTA <= s {
        let x = (s - SLOT_IOTA) % 5;
        let y = (s - SLOT_IOTA) / 5;
        assert(0 <= x < 5 && 0 <= y < 5);
        slots_differ(y + 5 * ((2 * (x + 5 - y)) % 5), 0);
    } else if s == SLOT_RC || SLOT_D_XOR_BEGIN <= s {
        later_readers(i, s);
    }
}

/// The slots of rho and pi read a lane and a mask.
#[verifier::spinoff_prover]
#[verifier::rlimit(30)]
proof fn moves_read(i: int, s: int)
    requires
        SLOT_APPLY_RPI_BEGIN <= i < SLOT_CHI_ANDNOT_BEGIN,
        0 <= s < ROUND_PERIOD,
    ensures
        reads_of(i, s) == occurrences(readers(s), i),
{
    occurrences_of(readers(s), i);
    if lane_at(i) is Some {
        let lane = lane_at(i)->0;
        assert(0 <= lane < 25 && B_SLOTS@[lane] == i);
        let (in_x, in_y) = moved_from(lane % 5, lane / 5);
        assert(0 <= in_x < 5 && 0 <= in_y < 5);
        if SLOT_D_XOR_BEGIN <= s < SLOT_APPLY_RPI_BEGIN {
            let x = s - SLOT_D_XOR_BEGIN;
            moves(lane, x, 0);
            moves(lane, x, 1);
            moves(lane, x, 2);
            moves(lane, x, 3);
            moves(lane, x, 4);
            slots_differ(0 + 5 * ((2 * (x + 5 - 0)) % 5), lane);
            slots_differ(1 + 5 * ((2 * (x + 5 - 1)) % 5), lane);
            slots_differ(2 + 5 * ((2 * (x + 5 - 2)) % 5), lane);
            slots_differ(3 + 5 * ((2 * (x + 5 - 3)) % 5), lane);
            slots_differ(4 + 5 * ((2 * (x + 5 - 4)) % 5), lane);
        } else if SLOT_IOTA <= s {
            let x = (s - SLOT_IOTA) % 5;
            let y = (s - SLOT_IOTA) / 5;
            moves(lane, x, y);
            slots_differ(y + 5 * ((2 * (x + 5 - y)) % 5), lane);
        } else if SLOT_APPLY_RPI_BEGIN <= s < SLOT_CHI_ANDNOT_BEGIN {
            if lane_at(s) is Some {
                assert(0 <= lane_at(s)->0 < 25);
            }
        }
    } else {
        if SLOT_D_XOR_BEGIN <= s < SLOT_APPLY_RPI_BEGIN {
            let x = s - SLOT_D_XOR_BEGIN;
            slots_differ(0 + 5 * ((2 * (x + 5 - 0)) % 5), 0);
            slots_differ(1 + 5 * ((2 * (x + 5 - 1)) % 5), 0);
            slots_differ(2 + 5 * ((2 * (x + 5 - 2)) % 5), 0);
            slots_differ(3 + 5 * ((2 * (x + 5 - 3)) % 5), 0);
            slots_differ(4 + 5 * ((2 * (x + 5 - 4)) % 5), 0);
        } else if SLOT_IOTA <= s {
            let x = (s - SLOT_IOTA) % 5;
            let y = (s - SLOT_IOTA) / 5;
            slots_differ(y + 5 * ((2 * (x + 5 - y)) % 5), 0);
        } else if SLOT_APPLY_RPI_BEGIN <= s < SLOT_CHI_ANDNOT_BEGIN {
            if lane_at(s) is Some {
                assert(0 <= lane_at(s)->0 < 25);
            }
        }
    }
}

/// The slots of chi and iota read the moved lanes, the terms made of them, and the round constant.
#[verifier::spinoff_prover]
#[verifier::rlimit(30)]
proof fn chi_reads(i: int, s: int)
    requires
        SLOT_CHI_ANDNOT_BEGIN <= i < ROUND_PERIOD,
        0 <= s < ROUND_PERIOD,
    ensures
        reads_of(i, s) == occurrences(readers(s), i),
{
    occurrences_of(readers(s), i);
    if SLOT_APPLY_RPI_BEGIN <= s < SLOT_CHI_ANDNOT_BEGIN {
        moved_lane_reads(i, s);
    } else {
        if i < SLOT_CHI_ANDNOT_BEGIN + 25 {
            let x: int = (i - SLOT_CHI_ANDNOT_BEGIN) % 5;
            let y: int = (i - SLOT_CHI_ANDNOT_BEGIN) / 5;
            slots_differ((x + 1) % 5 + 5 * y, 0);
            slots_differ((x + 2) % 5 + 5 * y, 0);
        } else if i == SLOT_CHI00 {
            slots_differ(0, 0);
        } else if SLOT_CHI_XOR_BEGIN <= i {
            slots_differ(i - SLOT_CHI_XOR_BEGIN + 1, 0);
        }
        if SLOT_D_XOR_BEGIN <= s < SLOT_APPLY_RPI_BEGIN {
            let x = s - SLOT_D_XOR_BEGIN;
            slots_differ(0 + 5 * ((2 * (x + 5 - 0)) % 5), 0);
            slots_differ(1 + 5 * ((2 * (x + 5 - 1)) % 5), 0);
            slots_differ(2 + 5 * ((2 * (x + 5 - 2)) % 5), 0);
            slots_differ(3 + 5 * ((2 * (x + 5 - 3)) % 5), 0);
            slots_differ(4 + 5 * ((2 * (x + 5 - 4)) % 5), 0);
        } else if SLOT_IOTA <= s {
            let x = (s - SLOT_IOTA) % 5;
            let y = (s - SLOT_IOTA) / 5;
            slots_differ(y + 5 * ((2 * (x + 5 - y)) % 5), 0);
        }
    }
}

/// Which slots of chi read a moved lane.
#[verifier::spinoff_prover]
#[verifier::rlimit(30)]
proof fn moved_lane_reads(i: int, s: int)
    requires
        SLOT_CHI_ANDNOT_BEGIN <= i < ROUND_PERIOD,
        SLOT_APPLY_RPI_BEGIN <= s < SLOT_CHI_ANDNOT_BEGIN,
    ensures
        reads_of(i, s) == occurrences(readers(s), i),
{
    occurrences_of(readers(s), i);
    if lane_at(s) is Some {
        let lane = lane_at(s)->0;
        assert(0 <= lane < 25 && B_SLOTS@[lane] == s);
        if i < SLOT_CHI_ANDNOT_BEGIN + 25 {
            let x: int = (i - SLOT_CHI_ANDNOT_BEGIN) % 5;
            let y: int = (i - SLOT_CHI_ANDNOT_BEGIN) / 5;
            slots_differ((x + 1) % 5 + 5 * y, lane);
            slots_differ((x + 2) % 5 + 5 * y, lane);
        } else if i == SLOT_CHI00 {
            slots_differ(0, lane);
        } else if SLOT_CHI_XOR_BEGIN <= i {
            slots_differ(i - SLOT_CHI_XOR_BEGIN + 1, lane);
        }
    } else {
        if i < SLOT_CHI_ANDNOT_BEGIN + 25 {
            let x: int = (i - SLOT_CHI_ANDNOT_BEGIN) % 5;
            let y: int = (i - SLOT_CHI_ANDNOT_BEGIN) / 5;
            slots_differ((x + 1) % 5 + 5 * y, 0);
            slots_differ((x + 2) % 5 + 5 * y, 0);
        } else if i == SLOT_CHI00 {
            slots_differ(0, 0);
        } else if SLOT_CHI_XOR_BEGIN <= i {
            slots_differ(i - SLOT_CHI_XOR_BEGIN + 1, 0);
        }
    }
}

/// The readers of a slot are slots of the round.
#[verifier::spinoff_prover]
#[verifier::rlimit(30)]
proof fn readers_are_slots(s: int)
    requires
        0 <= s < ROUND_PERIOD,
    ensures
        readers(s).len() == slot_spec(s).dst_mult || s == SLOT_RC,
        s == SLOT_RC ==> readers(s).len() == 1,
        forall|j: int| 0 <= j < readers(s).len() ==> 0 <= #[trigger] readers(s)[j] < ROUND_PERIOD,
{
    if SLOT_D_XOR_BEGIN <= s < SLOT_APPLY_RPI_BEGIN {
        let x = s - SLOT_D_XOR_BEGIN;
        slots_differ(0 + 5 * ((2 * (x + 5 - 0)) % 5), 0);
        slots_differ(1 + 5 * ((2 * (x + 5 - 1)) % 5), 0);
        slots_differ(2 + 5 * ((2 * (x + 5 - 2)) % 5), 0);
        slots_differ(3 + 5 * ((2 * (x + 5 - 3)) % 5), 0);
        slots_differ(4 + 5 * ((2 * (x + 5 - 4)) % 5), 0);
    } else if SLOT_APPLY_RPI_BEGIN <= s < SLOT_CHI_ANDNOT_BEGIN {
        if lane_at(s) is Some {
            assert(0 <= lane_at(s)->0 < 25);
        }
    } else if SLOT_IOTA <= s {
        let x = (s - SLOT_IOTA) % 5;
        let y = (s - SLOT_IOTA) / 5;
        slots_differ(y + 5 * ((2 * (x + 5 - y)) % 5), 0);
    }
}

proof fn reads_so_far(s: int, n: nat)
    requires
        0 <= s < ROUND_PERIOD,
        n <= ROUND_PERIOD,
    ensures
        total_reads(s, n) == below(readers(s), n as int) - below(readers(s), 0),
    decreases n,
{
    if n > 0 {
        reads_so_far(s, (n - 1) as nat);
        below_steps(readers(s), n - 1);
        if n - 1 < SLOT_C_BEGIN {
            first_slots_read_nothing(n - 1, s);
        } else if n - 1 < SLOT_D_ROL_BEGIN {
            parities_read(n - 1, s);
        } else if n - 1 < SLOT_APPLY_RPI_BEGIN {
            masks_read(n - 1, s);
        } else if n - 1 < SLOT_CHI_ANDNOT_BEGIN {
            moves_read(n - 1, s);
        } else {
            chi_reads(n - 1, s);
        }
    }
}

/// Every slot writes its result exactly as often as the slots of its round, or of the next one for a
/// lane of the output, read it. The round constant, which the sponge writes once, is read once.
pub proof fn results_are_written_as_often_as_read(s: int)
    requires
        0 <= s < ROUND_PERIOD,
    ensures
        s != SLOT_RC ==> slot_spec(s).dst_mult == total_reads(s, ROUND_PERIOD as nat),
        s == SLOT_RC ==> total_reads(s, ROUND_PERIOD as nat) == 1,
{
    reads_so_far(s, ROUND_PERIOD as nat);
    readers_are_slots(s);
    below_ends(readers(s), 0, ROUND_PERIOD as int);
}

} // verus!
