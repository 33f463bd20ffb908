//! What the constraints of the input tape and the digest node say, and that the table which holds
//! them beside the sponge asks of each what it asks alone.

use crate::precompiles::field::MODULUS;
use crate::precompiles::hash::chunk;
use crate::precompiles::hash::chunk_node::{
    chunk_demands, chunk_fractions, chunk_node_demands, chunk_node_fractions,
};
use crate::precompiles::hash::chunk_node_sponge::{hash_demands, hash_fractions};
use crate::precompiles::hash::keccak::node::{
    node_demands, node_fractions, COL_ACT, COL_CHUNK_SEQ_ID_HEAD, COL_N_CHUNKS, COL_N_SPONGE_PERMS,
    COL_OUT_MULT, COL_SPONGE_SEQ_ID_HEAD,
};
use crate::precompiles::hash::keccak::sponge::{sponge_demands, sponge_fractions};
use crate::precompiles::logup::{Fraction, Rows};
use crate::precompiles::trace::{
    is_cell, is_enforced, is_flag, is_met, met_by_residue, released, residue_of, small_and_zero,
    vanishes, zero_or_one,
};
use vstd::prelude::*;

verus! {

/// The rules of the tape: chunks are numbered from zero, those in use come first, only a chunk in
/// use can head an input, and the permutations of one input follow each other.
pub open spec fn chunk_holds(l: Seq<int>, n: Seq<int>, first: bool, last: bool) -> bool {
    let m = MODULUS as int;
    let act = l[chunk::COL_ACT as int];
    let head = l[chunk::COL_IS_HEAD as int];
    &&& is_flag(act)
    &&& is_flag(head)
    &&& head == 1 ==> act == 1
    &&& first ==> l[chunk::COL_CHUNK_SEQ_ID as int] == 0
    &&& !last ==> {
        &&& n[chunk::COL_CHUNK_SEQ_ID as int] == (l[chunk::COL_CHUNK_SEQ_ID as int] + 1) % m
        &&& n[chunk::COL_ACT as int] == 1 ==> act == 1
        &&& n[chunk::COL_IS_HEAD as int] == 0 ==> n[chunk::COL_PERM_SEQ_ID as int] == (
        l[chunk::COL_PERM_SEQ_ID as int] + 1) % m
    }
}

/// The constraints of a row of the tape are its rules.
#[verifier::spinoff_prover]
#[verifier::rlimit(30)]
pub proof fn tape_constraints_are_its_rules(l: Seq<int>, n: Seq<int>, first: bool, last: bool)
    requires
        l.len() == chunk::NUM_MAIN_COLS,
        n.len() == chunk::NUM_MAIN_COLS,
        forall|j: int| 0 <= j < chunk::NUM_MAIN_COLS ==> is_cell(#[trigger] l[j]),
        forall|j: int| 0 <= j < chunk::NUM_MAIN_COLS ==> is_cell(#[trigger] n[j]),
        is_flag(n[chunk::COL_ACT as int]),
        is_flag(n[chunk::COL_IS_HEAD as int]),
    ensures
        is_met(chunk_demands(l, n), first, last) <==> chunk_holds(l, n, first, last),
{
    let d = chunk_demands(l, n);
    let m = MODULUS as int;
    let act: int = l[chunk::COL_ACT as int];
    let head: int = l[chunk::COL_IS_HEAD as int];
    let seq: int = l[chunk::COL_CHUNK_SEQ_ID as int];
    let perm: int = l[chunk::COL_PERM_SEQ_ID as int];
    let seq_next: int = n[chunk::COL_CHUNK_SEQ_ID as int];
    let perm_next: int = n[chunk::COL_PERM_SEQ_ID as int];
    let act_next: int = n[chunk::COL_ACT as int];
    let head_next: int = n[chunk::COL_IS_HEAD as int];
    assert(d.len() == 7);
    assert(d[0] == (Rows::First, seq));
    assert(d[1] == (Rows::AllButLast, seq_next - seq - 1));
    assert(d[2] == (Rows::AllButLast, (1 - head_next) * (perm_next - perm - 1)));
    assert(d[3] == (Rows::All, act * (1 - act)));
    assert(d[4] == (Rows::AllButLast, (1 - act) * act_next));
    assert(d[5] == (Rows::All, head * (1 - head)));
    assert(d[6] == (Rows::All, head * (1 - act)));
    assert(is_cell(act) && is_cell(head) && is_cell(seq) && is_cell(seq_next) && is_cell(perm_next));
    if is_met(d, first, last) {
        zero_or_one(act);
        zero_or_one(head);
        if head == 1 {
            released(head, 1 - act);
            small_and_zero(1 - act);
        }
        if first {
            small_and_zero(seq);
        }
        if !last {
            residue_of(seq_next, seq + 1);
            if act == 0 {
                released(1 - act, act_next);
                small_and_zero(act_next);
            }
            if head_next == 0 {
                released(1 - head_next, perm_next - perm - 1);
                residue_of(perm_next, perm + 1);
            }
        }
    }
    if chunk_holds(l, n, first, last) {
        vanishes(act, 1 - act);
        vanishes(head, 1 - head);
        vanishes(head, 1 - act);
        vanishes(0, 0);
        if !last {
            vanishes(1 - act, act_next);
            met_by_residue(1, seq_next, seq + 1);
            met_by_residue(1 - head_next, perm_next, perm + 1);
            assert(perm_next - (perm + 1) == perm_next - perm - 1);
        }
        assert forall|k: int|
            0 <= k < d.len() && is_enforced((#[trigger] d[k]).0, first, last) implies d[k].1 % m
            == 0 by {
            if k == 1 {
                assert(1 * (seq_next - (seq + 1)) == seq_next - seq - 1) by (nonlinear_arith);
            }
        }
    }
}

/// The rules of the digest node: nodes in use come first, only they vouch for a hash, and each takes
/// up the rows of the sponge and the chunks of the tape where the one before it has left off, 32 rows
/// to a permutation.
pub open spec fn node_holds(l: Seq<int>, n: Seq<int>, first: bool, last: bool) -> bool {
    let m = MODULUS as int;
    let act = l[COL_ACT as int];
    &&& is_flag(act)
    &&& act == 0 ==> l[COL_OUT_MULT as int] == 0
    &&& first ==> l[COL_SPONGE_SEQ_ID_HEAD as int] == 0 && l[COL_CHUNK_SEQ_ID_HEAD as int] == 0
    &&& !last && n[COL_ACT as int] == 1 ==> {
        &&& act == 1
        &&& n[COL_SPONGE_SEQ_ID_HEAD as int] == (l[COL_SPONGE_SEQ_ID_HEAD as int] + 32
            * l[COL_N_SPONGE_PERMS as int]) % m
        &&& n[COL_CHUNK_SEQ_ID_HEAD as int] == (l[COL_CHUNK_SEQ_ID_HEAD as int]
            + l[COL_N_CHUNKS as int]) % m
    }
}

/// The constraints of a row of the digest node are its rules.
#[verifier::spinoff_prover]
#[verifier::rlimit(30)]
pub proof fn node_constraints_are_its_rules(l: Seq<int>, n: Seq<int>, first: bool, last: bool)
    requires
        l.len() == 30,
        n.len() == 30,
        forall|j: int| 0 <= j < 30 ==> is_cell(#[trigger] l[j]),
        forall|j: int| 0 <= j < 30 ==> is_cell(#[trigger] n[j]),
        is_flag(n[COL_ACT as int]),
    ensures
        is_met(node_demands(l, n), first, last) <==> node_holds(l, n, first, last),
{
    let d = node_demands(l, n);
    let m = MODULUS as int;
    let act: int = l[COL_ACT as int];
    let act_next: int = n[COL_ACT as int];
    let mult: int = l[COL_OUT_MULT as int];
    let sponge: int = l[COL_SPONGE_SEQ_ID_HEAD as int];
    let tape: int = l[COL_CHUNK_SEQ_ID_HEAD as int];
    let sponge_next: int = n[COL_SPONGE_SEQ_ID_HEAD as int];
    let tape_next: int = n[COL_CHUNK_SEQ_ID_HEAD as int];
    let rows: int = 32 * l[COL_N_SPONGE_PERMS as int];
    let chunks: int = l[COL_N_CHUNKS as int];
    assert(d.len() == 7);
    assert(d[0] == (Rows::First, sponge));
    assert(d[1] == (Rows::First, tape));
    assert(d[2] == (Rows::All, act * (1 - act)));
    assert(d[3] == (Rows::AllButLast, (1 - act) * act_next));
    assert(d[4] == (Rows::All, (1 - act) * mult));
    assert(d[5] == (Rows::AllButLast, act_next * (sponge_next - sponge - rows)));
    assert(d[6] == (Rows::AllButLast, act_next * (tape_next - tape - chunks)));
    assert(is_cell(act) && is_cell(mult) && is_cell(sponge) && is_cell(tape));
    assert(is_cell(sponge_next) && is_cell(tape_next));
    if is_met(d, first, last) {
        zero_or_one(act);
        if act == 0 {
            released(1 - act, mult);
            small_and_zero(mult);
        }
        if first {
            small_and_zero(sponge);
            small_and_zero(tape);
        }
        if !last && act_next == 1 {
            if act == 0 {
                released(1 - act, act_next);
                small_and_zero(act_next);
            }
            released(act_next, sponge_next - sponge - rows);
            residue_of(sponge_next, sponge + rows);
            released(act_next, tape_next - tape - chunks);
            residue_of(tape_next, tape + chunks);
        }
    }
    if node_holds(l, n, first, last) {
        vanishes(act, 1 - act);
        vanishes(1 - act, mult);
        vanishes(0, 0);
        if !last {
            vanishes(1 - act, act_next);
            met_by_residue(act_next, sponge_next, sponge + rows);
            met_by_residue(act_next, tape_next, tape + chunks);
            assert(sponge_next - (sponge + rows) == sponge_next - sponge - rows);
            assert(tape_next - (tape + chunks) == tape_next - tape - chunks);
        }
        assert forall|k: int|
            0 <= k < d.len() && is_enforced((#[trigger] d[k]).0, first, last) implies d[k].1 % m
            == 0 by {}
    }
}

/// Two lists of constraints are met together exactly if each is met.
proof fn met_together(a: Seq<(Rows, int)>, b: Seq<(Rows, int)>, first: bool, last: bool)
    ensures
        is_met(a + b, first, last) <==> is_met(a, first, last) && is_met(b, first, last),
{
    let both = a + b;
    if is_met(both, first, last) {
        assert forall|k: int| 0 <= k < a.len() && is_enforced((#[trigger] a[k]).0, first, last)
            implies a[k].1 % (MODULUS as int) == 0 by {
            assert(both[k] == a[k]);
        }
        assert forall|k: int| 0 <= k < b.len() && is_enforced((#[trigger] b[k]).0, first, last)
            implies b[k].1 % (MODULUS as int) == 0 by {
            assert(both[a.len() + k] == b[k]);
        }
    }
}

/// A row of the common table meets its constraints exactly if its tape, its node and its sponge meet
/// theirs, each on columns of its own.
pub proof fn bands_are_checked_apart(
    l: Seq<int>,
    n: Seq<int>,
    p: Seq<int>,
    first: bool,
    last: bool,
)
    requires
        l.len() == 109,
        n.len() == 109,
    ensures
        is_met(hash_demands(l, n, p), first, last) <==> {
            &&& is_met(chunk_demands(l.subrange(0, 12), n.subrange(0, 12)), first, last)
            &&& is_met(node_demands(l.subrange(12, 42), n.subrange(12, 42)), first, last)
            &&& is_met(sponge_demands(l.subrange(42, 109), n.subrange(42, 109), p), first, last)
        },
{
    let (ln, nn) = (l.subrange(0, 42), n.subrange(0, 42));
    assert(ln.subrange(0, 12) =~= l.subrange(0, 12));
    assert(nn.subrange(0, 12) =~= n.subrange(0, 12));
    assert(ln.subrange(12, 42) =~= l.subrange(12, 42));
    assert(nn.subrange(12, 42) =~= n.subrange(12, 42));
    let chunks = chunk_demands(l.subrange(0, 12), n.subrange(0, 12));
    let nodes = node_demands(l.subrange(12, 42), n.subrange(12, 42));
    met_together(chunks, nodes, first, last);
    met_together(
        chunk_node_demands(ln, nn),
        sponge_demands(l.subrange(42, 109), n.subrange(42, 109), p),
        first,
        last,
    );
}

/// Two fractions put the same message on the same bus, equally often.
pub open spec fn is_same_message(a: Fraction, b: Fraction) -> bool {
    &&& a.mult == b.mult
    &&& a.bus == b.bus
    &&& a.part == b.part
    &&& a.elems == b.elems
}

/// A row of the common table puts on the buses what its tape, its node and its sponge put there, and
/// nothing else.
#[verifier::spinoff_prover]
#[verifier::rlimit(40)]
pub proof fn bands_speak_for_themselves(
    l: Seq<int>,
    n: Seq<int>,
    p: Seq<int>,
    t: Seq<int>,
    kid: int,
    ktag: int,
    k: int,
)
    requires
        l.len() == 109,
        n.len() == 109,
        0 <= k < hash_fractions(l, n, p, t, kid, ktag).len(),
    ensures
        ({
            let tape = chunk_fractions(l.subrange(0, 12), t);
            let node = node_fractions(Seq::empty(), l.subrange(12, 42), t, kid, ktag, 0);
            let sponge = sponge_fractions(l.subrange(42, 109), n.subrange(42, 109), p);
            let f = hash_fractions(l, n, p, t, kid, ktag)[k];
            &&& hash_fractions(l, n, p, t, kid, ktag).len() == tape.len() + node.len()
                + sponge.len()
            &&& tape.len() == 8
            &&& node.len() == 16
            &&& k < 8 ==> is_same_message(f, tape[k])
            &&& 8 <= k < 24 ==> is_same_message(f, node[k - 8])
            &&& 24 <= k ==> is_same_message(f, sponge[k - 24])
        }),
{
    let ln = l.subrange(0, 42);
    assert(ln.subrange(0, 12) =~= l.subrange(0, 12));
    assert(ln.subrange(12, 42) =~= l.subrange(12, 42));
    let tape = chunk_fractions(l.subrange(0, 12), t);
    let row = l.subrange(12, 42);
    let node = node_fractions(Seq::empty(), row, t, kid, ktag, 0);
    let both = chunk_node_fractions(ln, t, kid, ktag);
    node_follows(tape, row, t, kid, ktag, k);
}

/// The messages of a node do not depend on those before them.
#[verifier::spinoff_prover]
#[verifier::rlimit(40)]
proof fn node_follows(
    tape: Seq<Fraction>,
    row: Seq<int>,
    t: Seq<int>,
    kid: int,
    ktag: int,
    k: int,
)
    requires
        tape.len() == 8,
    ensures
        ({
            let node = node_fractions(Seq::empty(), row, t, kid, ktag, 0);
            let both = node_fractions(tape, row, t, kid, ktag, chunk::NUM_AUX_COLS);
            &&& node.len() == 16
            &&& both.len() == 24
            &&& 0 <= k < 8 ==> both[k] == tape[k]
            &&& 8 <= k < 24 ==> is_same_message(both[k], node[k - 8])
        }),
{
    if 8 <= k < 12 {
    } else if 12 <= k < 16 {
    } else if 16 <= k < 20 {
    } else {
    }
}

} // verus!
