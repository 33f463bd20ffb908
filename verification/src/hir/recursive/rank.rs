//! Numbering values by their order, and refining a numbering by references.
use vstd::prelude::*;

verus! {

/// A value to be ordered: a list of numbers, compared from the front, a shorter list before any
/// longer one that it begins.
pub type Ordered = Seq<u16>;

/// From position `i` on, `a` comes before `b`.
pub open spec fn precedes(a: Ordered, b: Ordered, i: int) -> bool
    decreases b.len() - i,
{
    if i < 0 || i >= b.len() {
        false
    } else if i >= a.len() {
        true
    } else if a[i] == b[i] {
        precedes(a, b, i + 1)
    } else {
        a[i] < b[i]
    }
}

/// `a` comes before `b`.
pub open spec fn less(a: Ordered, b: Ordered) -> bool {
    precedes(a, b, 0)
}

/// No earlier value is the same.
pub open spec fn first(values: Seq<Ordered>, j: int) -> bool {
    forall|k: int| 0 <= k < j ==> #[trigger] values[k] != values[j]
}

/// The number of distinct values among the first `n` that come before `x`.
pub open spec fn below(values: Seq<Ordered>, x: Ordered, n: nat) -> nat
    decreases n,
{
    if n == 0 {
        0
    } else {
        let before = below(values, x, (n - 1) as nat);
        if first(values, n - 1) && less(values[n - 1], x) {
            before + 1
        } else {
            before
        }
    }
}

/// The number of distinct values among the first `n`.
pub open spec fn distinct(values: Seq<Ordered>, n: nat) -> nat
    decreases n,
{
    if n == 0 {
        0
    } else {
        distinct(values, (n - 1) as nat) + (if first(values, n - 1) {
            1nat
        } else {
            0nat
        })
    }
}

/// Numbers the values by their order. Equal values share a number, and the numbering depends on
/// nothing but the values.
pub open spec fn rank(values: Seq<Ordered>) -> Seq<nat> {
    Seq::new(values.len(), |i: int| below(values, values[i], values.len()))
}

proof fn precedes_irreflexive(a: Ordered, i: int)
    ensures
        !precedes(a, a, i),
    decreases a.len() - i,
{
    if 0 <= i < a.len() {
        precedes_irreflexive(a, i + 1);
    }
}

proof fn precedes_transitive(a: Ordered, b: Ordered, c: Ordered, i: int)
    requires
        precedes(a, b, i),
        precedes(b, c, i),
    ensures
        precedes(a, c, i),
    decreases c.len() - i,
{
    if 0 <= i < a.len() && i < b.len() && i < c.len() {
        if a[i] == b[i] && b[i] == c[i] {
            precedes_transitive(a, b, c, i + 1);
        }
    }
}

proof fn precedes_total(a: Ordered, b: Ordered, i: int)
    requires
        0 <= i,
        i <= a.len(),
        i <= b.len(),
        a.take(i) == b.take(i),
    ensures
        a == b || precedes(a, b, i) || precedes(b, a, i),
    decreases a.len() - i,
{
    if i < a.len() && i < b.len() {
        if a[i] == b[i] {
            assert(a.take(i + 1) =~= b.take(i + 1)) by {
                assert forall|k: int| 0 <= k < i + 1 implies #[trigger] a.take(i + 1)[k] == b.take(i
                    + 1)[k] by {
                    if k < i {
                        assert(a.take(i)[k] == b.take(i)[k]);
                    }
                }
            }
            precedes_total(a, b, i + 1);
        }
    } else if i == a.len() && i == b.len() {
        assert(a =~= a.take(i));
        assert(b =~= b.take(i));
    }
}

pub proof fn less_is_an_order(a: Ordered, b: Ordered, c: Ordered)
    ensures
        !less(a, a),
        less(a, b) && less(b, c) ==> less(a, c),
        a == b || less(a, b) || less(b, a),
        less(a, b) ==> a != b && !less(b, a),
{
    precedes_irreflexive(a, 0);
    precedes_irreflexive(b, 0);
    if less(a, b) && less(b, c) {
        precedes_transitive(a, b, c, 0);
    }
    if less(a, b) && less(b, a) {
        precedes_transitive(a, b, a, 0);
    }
    assert(a.take(0) =~= b.take(0));
    precedes_total(a, b, 0);
}

proof fn below_grows(values: Seq<Ordered>, x: Ordered, y: Ordered, n: nat)
    requires
        n <= values.len(),
        less(x, y),
    ensures
        below(values, x, n) <= below(values, y, n),
    decreases n,
{
    if n > 0 {
        below_grows(values, x, y, (n - 1) as nat);
        less_is_an_order(values[n - 1], x, y);
    }
}

/// Some value among the first `n` is `x`, so that the first such value is too.
proof fn first_of(values: Seq<Ordered>, x: Ordered, n: nat) -> (j: int)
    requires
        n <= values.len(),
        exists|i: int| 0 <= i < n && #[trigger] values[i] == x,
    ensures
        0 <= j < n,
        values[j] == x,
        first(values, j),
    decreases n,
{
    let i = choose|i: int| 0 <= i < n && #[trigger] values[i] == x;
    if first(values, i) {
        i
    } else {
        let k = choose|k: int| 0 <= k < i && #[trigger] values[k] == values[i];
        first_of(values, x, i as nat)
    }
}

/// `y` comes before `x`, and nothing lies between: one more distinct value lies below `x`.
proof fn below_steps(values: Seq<Ordered>, y: Ordered, x: Ordered, n: nat, j: int)
    requires
        n <= values.len(),
        0 <= j < values.len(),
        values[j] == y,
        first(values, j),
        less(y, x),
        forall|k: int|
            0 <= k < values.len() && less(#[trigger] values[k], x) ==> less(values[k], y)
                || values[k] == y,
    ensures
        below(values, x, n) == below(values, y, n) + (if j < n {
            1nat
        } else {
            0nat
        }),
    decreases n,
{
    if n > 0 {
        below_steps(values, y, x, (n - 1) as nat, j);
        let v = values[n - 1];
        less_is_an_order(v, y, x);
        less_is_an_order(y, v, x);
        if n - 1 == j {
            assert(v == y);
        } else if v == y {
            if n - 1 > j {
                assert(!first(values, n - 1)) by {
                    assert(values[j] == values[n - 1]);
                }
            } else {
                assert(values[n - 1] != values[j]);
            }
        }
    }
}

proof fn below_is_small(values: Seq<Ordered>, x: Ordered, n: nat)
    requires
        n <= values.len(),
    ensures
        below(values, x, n) <= n,
        (exists|i: int| 0 <= i < n && #[trigger] values[i] == x) ==> below(values, x, n) < n,
    decreases n,
{
    if n > 0 {
        below_is_small(values, x, (n - 1) as nat);
        less_is_an_order(x, x, x);
        if exists|i: int| 0 <= i < n && #[trigger] values[i] == x {
            let i = choose|i: int| 0 <= i < n && #[trigger] values[i] == x;
            if i < n - 1 {
                assert(values[i] == x);
            }
        }
    }
}

/// The numbering follows the order of the values.
pub proof fn rank_orders(values: Seq<Ordered>, i: int, j: int)
    requires
        0 <= i < values.len(),
        0 <= j < values.len(),
    ensures
        rank(values)[i] < rank(values)[j] <==> less(values[i], values[j]),
        rank(values)[i] == rank(values)[j] <==> values[i] == values[j],
        rank(values)[i] < values.len(),
{
    less_is_an_order(values[i], values[j], values[i]);
    if less(values[i], values[j]) {
        rank_rises(values, i, j);
    }
    if less(values[j], values[i]) {
        rank_rises(values, j, i);
    }
    below_is_small(values, values[i], values.len());
}

proof fn rank_rises(values: Seq<Ordered>, i: int, j: int)
    requires
        0 <= i < values.len(),
        0 <= j < values.len(),
        less(values[i], values[j]),
    ensures
        rank(values)[i] < rank(values)[j],
{
    let f = first_of(values, values[i], values.len());
    below_jumps(values, values[i], values[j], values.len(), f);
}

proof fn below_jumps(values: Seq<Ordered>, x: Ordered, y: Ordered, n: nat, f: int)
    requires
        n <= values.len(),
        0 <= f < values.len(),
        values[f] == x,
        first(values, f),
        less(x, y),
    ensures
        below(values, x, n) + (if f < n {
            1nat
        } else {
            0nat
        }) <= below(values, y, n),
    decreases n,
{
    if n > 0 {
        below_jumps(values, x, y, (n - 1) as nat, f);
        less_is_an_order(values[n - 1], x, y);
        less_is_an_order(x, x, x);
    }
}

/// The greatest of the values that come before `x`.
proof fn next_below(values: Seq<Ordered>, x: Ordered, n: nat) -> (j: int)
    requires
        n <= values.len(),
        exists|i: int| 0 <= i < n && less(#[trigger] values[i], x),
    ensures
        0 <= j < n,
        less(values[j], x),
        forall|k: int|
            0 <= k < n && less(#[trigger] values[k], x) ==> less(values[k], values[j])
                || values[k] == values[j],
    decreases n,
{
    if exists|i: int| 0 <= i < n - 1 && less(#[trigger] values[i], x) {
        let j = next_below(values, x, (n - 1) as nat);
        less_is_an_order(values[n - 1], values[j], x);
        if less(values[n - 1], x) && less(values[j], values[n - 1]) {
            assert forall|k: int| 0 <= k < n && less(#[trigger] values[k], x) implies less(
                values[k],
                values[n - 1],
            ) || values[k] == values[n - 1] by {
                less_is_an_order(values[k], values[j], values[n - 1]);
            }
            n - 1
        } else {
            j
        }
    } else {
        n - 1
    }
}

proof fn below_needs_some(values: Seq<Ordered>, x: Ordered, n: nat)
    requires
        n <= values.len(),
        below(values, x, n) > 0,
    ensures
        exists|i: int| 0 <= i < n && less(#[trigger] values[i], x),
    decreases n,
{
    if below(values, x, (n - 1) as nat) > 0 {
        below_needs_some(values, x, (n - 1) as nat);
    } else {
        assert(less(values[n - 1], x));
    }
}

/// No number is skipped.
pub proof fn rank_is_dense(values: Seq<Ordered>, i: int, c: nat)
    requires
        0 <= i < values.len(),
        c <= rank(values)[i],
    ensures
        exists|j: int| 0 <= j < values.len() && #[trigger] rank(values)[j] == c,
    decreases rank(values)[i],
{
    if c == rank(values)[i] {
        assert(rank(values)[i] == c);
    } else {
        let x = values[i];
        below_needs_some(values, x, values.len());
        let m = next_below(values, x, values.len());
        assert(values[m] == values[m]);
        let f = first_of(values, values[m], values.len());
        below_steps(values, values[m], x, values.len(), f);
        assert(rank(values)[m] == rank(values)[i] - 1);
        rank_is_dense(values, m, c);
    }
}

// ---------------------------------------------------------------------------------------------
// Refinement
// ---------------------------------------------------------------------------------------------

/// What tells an item apart in one round: its number, and the numbers of what it refers to.
pub open spec fn signature(numbers: Seq<nat>, references: Seq<int>, own: nat) -> Ordered {
    seq![own as u16] + Seq::new(references.len(), |i: int| numbers[references[i]] as u16)
}

pub open spec fn signatures(numbers: Seq<nat>, references: Seq<Seq<int>>) -> Seq<Ordered> {
    Seq::new(numbers.len(), |p: int| signature(numbers, references[p], numbers[p]))
}

/// One round of refinement.
pub open spec fn refine(numbers: Seq<nat>, references: Seq<Seq<int>>) -> Seq<nat> {
    rank(signatures(numbers, references))
}

/// `rounds` rounds of refinement.
pub open spec fn refined(numbers: Seq<nat>, references: Seq<Seq<int>>, rounds: nat) -> Seq<nat>
    decreases rounds,
{
    if rounds == 0 {
        numbers
    } else {
        refined(refine(numbers, references), references, (rounds - 1) as nat)
    }
}

/// The classes that keys and references tell apart: items start apart if their keys differ, and
/// are split until items of one class refer to items of the same classes.
pub open spec fn classes(keys: Seq<Ordered>, references: Seq<Seq<int>>) -> Seq<nat> {
    refined(rank(keys), references, keys.len() * keys.len())
}

/// The references stay among `n` items.
pub open spec fn within(references: Seq<Seq<int>>, n: nat) -> bool {
    &&& references.len() == n
    &&& forall|p: int, i: int|
        0 <= p < n && 0 <= i < references[p].len() ==> 0 <= #[trigger] references[p][i] < n
}

/// The total of the first `n` numbers.
pub open spec fn total(numbers: Seq<nat>, n: nat) -> nat
    decreases n,
{
    if n == 0 {
        0
    } else {
        total(numbers, (n - 1) as nat) + numbers[n - 1]
    }
}

proof fn totals_compare(a: Seq<nat>, b: Seq<nat>, n: nat)
    requires
        n <= a.len(),
        a.len() == b.len(),
        forall|p: int| 0 <= p < a.len() ==> a[p] <= #[trigger] b[p],
    ensures
        total(a, n) <= total(b, n),
        total(a, n) == total(b, n) ==> forall|p: int| 0 <= p < n ==> a[p] == #[trigger] b[p],
    decreases n,
{
    if n > 0 {
        totals_compare(a, b, (n - 1) as nat);
        assert(a[n - 1] <= b[n - 1]);
    }
}

proof fn total_bounded(a: Seq<nat>, n: nat, bound: nat)
    requires
        n <= a.len(),
        forall|p: int| 0 <= p < a.len() ==> #[trigger] a[p] < bound,
    ensures
        total(a, n) <= n * bound,
        n > 0 ==> total(a, n) < n * bound,
    decreases n,
{
    if n > 0 {
        total_bounded(a, (n - 1) as nat, bound);
        assert(a[n - 1] < bound);
        assert(n * bound == (n - 1) * bound + bound) by (nonlinear_arith)
            requires
                n > 0,
        ;
    }
}

proof fn signature_first(numbers: Seq<nat>, references: Seq<int>, own: nat)
    ensures
        signature(numbers, references, own).len() == 1 + references.len(),
        signature(numbers, references, own)[0] == own as u16,
        forall|i: int|
            0 <= i < references.len() ==> #[trigger] signature(numbers, references, own)[i + 1]
                == numbers[references[i]] as u16,
{
}

proof fn below_compares(a: Seq<Ordered>, b: Seq<Ordered>, p: int, n: nat)
    requires
        a.len() == b.len(),
        n <= a.len(),
        0 <= p < a.len(),
        forall|j: int, k: int|
            0 <= j < a.len() && 0 <= k < a.len() && #[trigger] a[j] != #[trigger] a[k] ==> b[j]
                != b[k],
        forall|j: int|
            0 <= j < a.len() && less(#[trigger] a[j], a[p]) ==> less(b[j], b[p]),
    ensures
        below(a, a[p], n) <= below(b, b[p], n),
    decreases n,
{
    if n > 0 {
        below_compares(a, b, p, (n - 1) as nat);
        if first(a, n - 1) {
            assert(first(b, n - 1)) by {
                assert forall|k: int| 0 <= k < n - 1 implies #[trigger] b[k] != b[n - 1] by {
                    assert(a[k] != a[n - 1]);
                }
            }
        }
    }
}

/// Refinement only raises numbers, and never joins what was apart.
pub proof fn refinement_raises(values: Seq<Ordered>, references: Seq<Seq<int>>)
    requires
        values.len() <= 0x1_0000,
    ensures
        refine(rank(values), references).len() == values.len(),
        forall|p: int|
            0 <= p < values.len() ==> rank(values)[p] <= #[trigger] refine(
                rank(values),
                references,
            )[p],
        forall|p: int, q: int|
            0 <= p < values.len() && 0 <= q < values.len() && refine(
                rank(values),
                references,
            )[p] == refine(rank(values), references)[q] ==> #[trigger] values[p]
                == #[trigger] values[q],
{
    let c = rank(values);
    let s = signatures(c, references);
    assert forall|j: int, k: int|
        0 <= j < values.len() && 0 <= k < values.len() && #[trigger] values[j]
            != #[trigger] values[k] implies s[j] != s[k] by {
        rank_orders(values, j, k);
        rank_orders(values, k, j);
        signature_first(c, references[j], c[j]);
        signature_first(c, references[k], c[k]);
        assert(s[j][0] != s[k][0]);
    }
    assert forall|p: int| 0 <= p < values.len() implies c[p] <= #[trigger] refine(
        c,
        references,
    )[p] by {
        assert forall|j: int| 0 <= j < values.len() && less(#[trigger] values[j], values[p]) implies less(
            s[j],
            s[p],
        ) by {
            rank_orders(values, j, p);
            rank_orders(values, p, j);
            signature_first(c, references[j], c[j]);
            signature_first(c, references[p], c[p]);
            assert(s[j][0] < s[p][0]);
        }
        below_compares(values, s, p, values.len());
    }
    assert forall|p: int, q: int|
        0 <= p < values.len() && 0 <= q < values.len() && refine(c, references)[p] == refine(
            c,
            references,
        )[q] implies #[trigger] values[p] == #[trigger] values[q] by {
        rank_orders(s, p, q);
    }
}

/// Once a round changes nothing, no later round does.
pub proof fn refined_stays(numbers: Seq<nat>, references: Seq<Seq<int>>, rounds: nat)
    requires
        refine(numbers, references) == numbers,
    ensures
        refined(numbers, references, rounds) == numbers,
    decreases rounds,
{
    if rounds > 0 {
        refined_stays(numbers, references, (rounds - 1) as nat);
    }
}

/// Enough rounds reach a numbering that another round does not change.
proof fn refined_settles(values: Seq<Ordered>, references: Seq<Seq<int>>, rounds: nat)
    requires
        values.len() <= 0x1_0000,
        rounds + total(rank(values), values.len()) >= values.len() * values.len(),
    ensures
        ({
            let end = refined(rank(values), references, rounds);
            &&& refine(end, references) == end
            &&& end.len() == values.len()
            &&& exists|ends: Seq<Ordered>| ends.len() == values.len() && end == #[trigger] rank(ends)
            &&& forall|p: int, q: int|
                0 <= p < values.len() && 0 <= q < values.len() && end[p] == end[q]
                    ==> #[trigger] values[p] == #[trigger] values[q]
        }),
    decreases rounds,
{
    let n = values.len();
    let c = rank(values);
    let next = refine(c, references);
    refinement_raises(values, references);
    if next == c {
        refined_stays(c, references, rounds);
        assert(c == rank(values));
        assert forall|p: int, q: int|
            0 <= p < values.len() && 0 <= q < values.len() && c[p] == c[q] implies #[trigger] values[p]
            == #[trigger] values[q] by {
            rank_orders(values, p, q);
        }
    } else {
        totals_compare(c, next, n);
        if total(c, n) == total(next, n) {
            assert(c =~= next);
        }
        let s = signatures(c, references);
        assert forall|p: int| 0 <= p < next.len() implies #[trigger] next[p] < n by {
            rank_orders(s, p, p);
        }
        total_bounded(next, n, n);
        assert(rounds > 0);
        refined_settles(s, references, (rounds - 1) as nat);
        let end = refined(c, references, rounds);
        assert(end == refined(next, references, (rounds - 1) as nat));
        assert forall|p: int, q: int|
            0 <= p < values.len() && 0 <= q < values.len() && end[p] == end[q] implies #[trigger] values[p]
            == #[trigger] values[q] by {
            assert(s[p] == s[q]);
            assert(next[p] == next[q]) by {
                rank_orders(s, p, q);
            }
        }
    }
}

/// Classes tell items apart by all that they refer to: items of one class have the same key, and
/// refer to items of the same classes. No class number is skipped.
pub proof fn classes_are_settled(keys: Seq<Ordered>, references: Seq<Seq<int>>)
    requires
        keys.len() <= 0x1_0000,
        within(references, keys.len()),
    ensures
        ({
            let c = classes(keys, references);
            &&& c.len() == keys.len()
            &&& refine(c, references) == c
            &&& forall|p: int| 0 <= p < c.len() ==> #[trigger] c[p] < keys.len()
            &&& forall|p: int, q: int|
                0 <= p < c.len() && 0 <= q < c.len() && #[trigger] c[p] == #[trigger] c[q]
                    ==> keys[p] == keys[q] && references[p].len() == references[q].len() && forall|
                    i: int,
                |
                    0 <= i < references[p].len() ==> c[#[trigger] references[p][i]]
                        == c[references[q][i]]
        }),
{
    refined_settles(keys, references, keys.len() * keys.len());
    let c = classes(keys, references);
    let s = signatures(c, references);
    let n = keys.len();
    assert(c == rank(s));
    assert forall|p: int| 0 <= p < c.len() implies #[trigger] c[p] < n by {
        rank_orders(s, p, p);
    }
    assert forall|p: int, q: int|
        0 <= p < c.len() && 0 <= q < c.len() && #[trigger] c[p] == #[trigger] c[q] implies keys[p]
        == keys[q] && references[p].len() == references[q].len() && forall|i: int|
        0 <= i < references[p].len() ==> c[#[trigger] references[p][i]] == c[references[q][i]] by {
        rank_orders(s, p, q);
        signature_first(c, references[p], c[p]);
        signature_first(c, references[q], c[q]);
        assert(s[p] == s[q]);
        assert(s[p].len() == 1 + references[p].len());
        assert forall|i: int| 0 <= i < references[p].len() implies c[#[trigger] references[p][i]]
            == c[references[q][i]] by {
            assert(signature(c, references[p], c[p])[i + 1] == c[references[p][i]] as u16);
            assert(signature(c, references[q], c[q])[i + 1] == c[references[q][i]] as u16);
            assert(0 <= references[q][i] < n);
            assert(c[references[p][i]] < n);
            assert(c[references[q][i]] < n);
        }
    }
}

/// Every number up to a class's is the number of a class.
pub proof fn classes_are_dense(keys: Seq<Ordered>, references: Seq<Seq<int>>, p: int, c: nat)
    requires
        keys.len() <= 0x1_0000,
        0 <= p < keys.len(),
        c <= classes(keys, references)[p],
    ensures
        exists|q: int| 0 <= q < keys.len() && #[trigger] classes(keys, references)[q] == c,
{
    refined_settles(keys, references, keys.len() * keys.len());
    let end = classes(keys, references);
    let ends = choose|ends: Seq<Ordered>| ends.len() == keys.len() && end == #[trigger] rank(ends);
    rank_is_dense(ends, p, c);
}

// ---------------------------------------------------------------------------------------------
// Computing them
// ---------------------------------------------------------------------------------------------

pub open spec fn ordered(values: Seq<Vec<u16>>) -> Seq<Ordered> {
    Seq::new(values.len(), |i: int| values[i]@)
}

pub open spec fn naturals(numbers: Seq<u16>) -> Seq<nat> {
    Seq::new(numbers.len(), |i: int| numbers[i] as nat)
}

pub open spec fn targets(references: Seq<usize>) -> Seq<int> {
    Seq::new(references.len(), |i: int| references[i] as int)
}

pub open spec fn all_targets(references: Seq<Vec<usize>>) -> Seq<Seq<int>> {
    Seq::new(references.len(), |p: int| targets(references[p]@))
}

pub fn comes_before(a: &Vec<u16>, b: &Vec<u16>) -> (before: bool)
    ensures
        before == less(a@, b@),
{
    let mut i: usize = 0;
    while i < b.len()
        invariant
            i <= b@.len(),
            i <= a@.len(),
            less(a@, b@) == precedes(a@, b@, i as int),
        decreases b@.len() - i,
    {
        if i >= a.len() {
            return true;
        }
        if a[i] != b[i] {
            return a[i] < b[i];
        }
        i += 1;
    }
    false
}

fn same_value(a: &Vec<u16>, b: &Vec<u16>) -> (same: bool)
    ensures
        same == (a@ == b@),
{
    if a.len() != b.len() {
        return false;
    }
    let mut i: usize = 0;
    while i < a.len()
        invariant
            i <= a@.len(),
            a@.len() == b@.len(),
            forall|j: int| 0 <= j < i ==> #[trigger] a@[j] == b@[j],
        decreases a@.len() - i,
    {
        if a[i] != b[i] {
            return false;
        }
        i += 1;
    }
    assert(a@ =~= b@);
    true
}

fn is_first(values: &Vec<Vec<u16>>, j: usize) -> (is: bool)
    requires
        j < values@.len(),
    ensures
        is == first(ordered(values@), j as int),
{
    let ghost all = ordered(values@);
    let mut k: usize = 0;
    while k < j
        invariant
            k <= j < values@.len(),
            all == ordered(values@),
            forall|i: int| 0 <= i < k ==> #[trigger] all[i] != all[j as int],
        decreases j - k,
    {
        assert(all[k as int] == values@[k as int]@);
        assert(all[j as int] == values@[j as int]@);
        if same_value(&values[k], &values[j]) {
            return false;
        }
        k += 1;
    }
    true
}

/// Where each value first occurs.
proof fn first_occurrence(values: Seq<Ordered>, i: int) -> (p: int)
    requires
        0 <= i < values.len(),
    ensures
        0 <= p <= i,
        values[p] == values[i],
        first(values, p),
    decreases i,
{
    if first(values, i) {
        i
    } else {
        let k = choose|k: int| 0 <= k < i && #[trigger] values[k] == values[i];
        first_occurrence(values, k)
    }
}

/// No more values come before a value than are distinct, and fewer where the value has occurred.
proof fn below_is_bounded(values: Seq<Ordered>, x: Ordered, p: int, n: nat)
    requires
        n <= values.len(),
        0 <= p < values.len(),
        values[p] == x,
        first(values, p),
    ensures
        below(values, x, n) + (if p < n {
            1nat
        } else {
            0nat
        }) <= distinct(values, n),
    decreases n,
{
    if n > 0 {
        below_is_bounded(values, x, p, (n - 1) as nat);
        precedes_irreflexive(x, 0);
    }
}

proof fn more_are_below(values: Seq<Ordered>, x: Ordered, m: nat, n: nat)
    requires
        m <= n,
    ensures
        below(values, x, m) <= below(values, x, n),
    decreases n,
{
    if m < n {
        more_are_below(values, x, m, (n - 1) as nat);
    }
}

/// At most as many values are distinct as there are.
proof fn distinct_is_bounded(values: Seq<Ordered>, n: nat)
    ensures
        distinct(values, n) <= n,
    decreases n,
{
    if n > 0 {
        distinct_is_bounded(values, (n - 1) as nat);
    }
}

/// Numbers values by their order. The distinct ones have to be few enough for their numbers.
fn number(values: &Vec<Vec<u16>>) -> (numbers: Vec<u16>)
    requires
        distinct(ordered(values@), values@.len()) <= 0x1_0000,
    ensures
        naturals(numbers@) == rank(ordered(values@)),
{
    let ghost all = ordered(values@);
    let mut numbers: Vec<u16> = Vec::new();
    let mut i: usize = 0;
    while i < values.len()
        invariant
            i <= values@.len(),
            all == ordered(values@),
            distinct(all, values@.len()) <= 0x1_0000,
            numbers@.len() == i,
            forall|j: int| 0 <= j < i ==> #[trigger] numbers@[j] == rank(all)[j],
        decreases values@.len() - i,
    {
        let mut smaller: u16 = 0;
        let mut j: usize = 0;
        while j < values.len()
            invariant
                j <= values@.len(),
                i < values@.len(),
                all == ordered(values@),
                distinct(all, values@.len()) <= 0x1_0000,
                smaller == below(all, all[i as int], j as nat),
            decreases values@.len() - j,
        {
            assert(all[j as int] == values@[j as int]@);
            assert(all[i as int] == values@[i as int]@);
            if is_first(values, j) && comes_before(&values[j], &values[i]) {
                proof {
                    let p = first_occurrence(all, i as int);
                    below_is_bounded(all, all[i as int], p, all.len());
                    more_are_below(all, all[i as int], (j + 1) as nat, all.len());
                }
                smaller += 1;
            }
            j += 1;
        }
        numbers.push(smaller);
        i += 1;
    }
    assert(naturals(numbers@) =~= rank(all));
    numbers
}

fn sign(numbers: &Vec<u16>, references: &Vec<usize>, p: usize) -> (signed: Vec<u16>)
    requires
        p < numbers@.len(),
        forall|i: int| 0 <= i < references@.len() ==> (#[trigger] references@[i]) < numbers@.len(),
    ensures
        signed@ == signature(
            naturals(numbers@),
            targets(references@),
            naturals(numbers@)[p as int],
        ),
{
    let ghost c = naturals(numbers@);
    let ghost to = targets(references@);
    let mut signed: Vec<u16> = Vec::new();
    signed.push(numbers[p]);
    let mut i: usize = 0;
    while i < references.len()
        invariant
            i <= references@.len(),
            p < numbers@.len(),
            forall|i: int| 0 <= i < references@.len() ==> (#[trigger] references@[i])
                < numbers@.len(),
            c == naturals(numbers@),
            to == targets(references@),
            signed@.len() == i + 1,
            signed@[0] == numbers@[p as int],
            forall|j: int| 0 <= j < i ==> signed@[j + 1] == #[trigger] c[to[j]] as u16,
        decreases references@.len() - i,
    {
        assert(c[to[i as int]] == numbers@[references@[i as int] as int]);
        signed.push(numbers[references[i]]);
        i += 1;
    }
    assert(signed@ =~= signature(c, to, c[p as int])) by {
        assert forall|k: int| 0 <= k < signed@.len() implies #[trigger] signed@[k] == signature(
            c,
            to,
            c[p as int],
        )[k] by {
            if k > 0 {
                assert(signed@[(k - 1) + 1] == c[to[k - 1]] as u16);
            }
        }
    }
    signed
}

/// Partitions items into classes by their keys and references.
pub fn classify(keys: &Vec<Vec<u16>>, references: &Vec<Vec<usize>>) -> (numbers: Vec<u16>)
    requires
        keys@.len() <= 0x1_0000,
        references@.len() == keys@.len(),
        within(all_targets(references@), keys@.len()),
    ensures
        naturals(numbers@) == classes(ordered(keys@), all_targets(references@)),
{
    let n: usize = keys.len();
    let ghost to = all_targets(references@);
    proof {
        distinct_is_bounded(ordered(keys@), keys@.len());
    }
    let mut numbers = number(keys);
    let ghost mut values = ordered(keys@);
    assert(rank(values).len() == n);
    assert(naturals(numbers@).len() == numbers@.len());
    let ghost mut left: nat = (n * n) as nat;
    loop
        invariant
            n == keys@.len(),
            n <= 0x1_0000,
            references@.len() == n,
            to == all_targets(references@),
            within(to, n as nat),
            values.len() == n,
            naturals(numbers@) == rank(values),
            numbers@.len() == n,
            left + total(rank(values), n as nat) >= n * n,
            refined(rank(values), to, left) == classes(ordered(keys@), to),
        decreases left,
    {
        let mut signed: Vec<Vec<u16>> = Vec::new();
        let mut p: usize = 0;
        let ghost c = rank(values);
        while p < n
            invariant
                p <= n,
                n == keys@.len(),
                references@.len() == n,
                to == all_targets(references@),
                within(to, n as nat),
                c == naturals(numbers@),
                c.len() == n,
                numbers@.len() == n,
                signed@.len() == p,
                forall|q: int| 0 <= q < p ==> (#[trigger] signed@[q])@ == signatures(c, to)[q],
            decreases n - p,
        {
            assert(to[p as int] == targets(references@[p as int]@));
            assert forall|i: int| 0 <= i < references@[p as int]@.len() implies (
            #[trigger] references@[p as int]@[i]) < n by {
                assert(0 <= to[p as int][i] < n);
            }
            signed.push(sign(&numbers, &references[p], p));
            p += 1;
        }
        assert(ordered(signed@) =~= signatures(c, to));
        proof {
            distinct_is_bounded(ordered(signed@), signed@.len());
        }
        let next = number(&signed);
        assert(naturals(next@).len() == next@.len());
        assert(rank(signatures(c, to)).len() == n);
        let mut same: bool = true;
        let mut i: usize = 0;
        while i < n
            invariant
                i <= n,
                numbers@.len() == n,
                next@.len() == n,
                same == forall|j: int| 0 <= j < i ==> #[trigger] next@[j] == numbers@[j],
            decreases n - i,
        {
            if next[i] != numbers[i] {
                assert(next@[i as int] != numbers@[i as int]);
                same = false;
            }
            i += 1;
        }
        proof {
            refinement_raises(values, to);
        }
        if same {
            proof {
                assert(refine(c, to) =~= c);
                refined_stays(c, to, left);
            }
            return numbers;
        }
        proof {
            let after = refine(c, to);
            totals_compare(c, after, n as nat);
            if total(c, n as nat) == total(after, n as nat) {
                assert forall|j: int| 0 <= j < n implies #[trigger] next@[j] == numbers@[j] by {
                    assert(c[j] == after[j]);
                    assert(after[j] == next@[j]);
                }
            }
            let s = signatures(c, to);
            assert forall|p: int| 0 <= p < after.len() implies #[trigger] after[p] < n by {
                rank_orders(s, p, p);
            }
            total_bounded(after, n as nat, n as nat);
            assert(left > 0);
            values = s;
            left = (left - 1) as nat;
        }
        numbers = next;
    }
}

} // verus!
