//! Graphs of definitions: walks, reachability and strongly connected components.
use vstd::prelude::*;

verus! {

/// A graph, as the matrix of its edges.
pub type Graph = Seq<Seq<bool>>;

pub open spec fn square(g: Graph) -> bool {
    forall|i: int| 0 <= i < g.len() ==> (#[trigger] g[i]).len() == g.len()
}

pub open spec fn edge(g: Graph, u: int, v: int) -> bool {
    0 <= u < g.len() && 0 <= v < g.len() && g[u][v]
}

/// A path of at most `steps` edges leads from `u` to `v`.
pub open spec fn leads(g: Graph, u: int, v: int, steps: nat) -> bool
    decreases steps,
{
    u == v || (steps > 0 && exists|m: int|
        #[trigger] edge(g, u, m) && leads(g, m, v, (steps - 1) as nat))
}

/// A path leads from `u` to `v`.
pub open spec fn reaches(g: Graph, u: int, v: int) -> bool {
    exists|steps: nat| #[trigger] leads(g, u, v, steps)
}

/// Each leads to the other.
pub open spec fn mutual(g: Graph, u: int, v: int) -> bool {
    reaches(g, u, v) && reaches(g, v, u)
}

/// Some path of at least one edge returns to where it started.
pub open spec fn has_cycle(g: Graph) -> bool {
    exists|u: int, v: int| #[trigger] edge(g, u, v) && reaches(g, v, u)
}

proof fn leads_longer(g: Graph, u: int, v: int, a: nat, b: nat)
    requires
        leads(g, u, v, a),
        a <= b,
    ensures
        leads(g, u, v, b),
    decreases a,
{
    if u != v {
        let m = choose|m: int|
            #[trigger] edge(g, u, m) && leads(g, m, v, (a - 1) as nat);
        leads_longer(g, m, v, (a - 1) as nat, (b - 1) as nat);
        assert(edge(g, u, m) && leads(g, m, v, (b - 1) as nat));
    }
}

proof fn leads_on(g: Graph, u: int, v: int, w: int, a: nat, b: nat)
    requires
        leads(g, u, v, a),
        leads(g, v, w, b),
    ensures
        leads(g, u, w, a + b),
    decreases a,
{
    if u == v {
        leads_longer(g, u, w, b, a + b);
    } else {
        let m = choose|m: int|
            #[trigger] edge(g, u, m) && leads(g, m, v, (a - 1) as nat);
        leads_on(g, m, v, w, (a - 1) as nat, b);
        assert(edge(g, u, m) && leads(g, m, w, (a + b - 1) as nat));
    }
}

pub proof fn reaches_itself(g: Graph, u: int)
    ensures
        reaches(g, u, u),
{
    assert(leads(g, u, u, 0));
}

pub proof fn reaches_on(g: Graph, u: int, v: int, w: int)
    requires
        reaches(g, u, v),
        reaches(g, v, w),
    ensures
        reaches(g, u, w),
{
    let a = choose|steps: nat| #[trigger] leads(g, u, v, steps);
    let b = choose|steps: nat| #[trigger] leads(g, v, w, steps);
    leads_on(g, u, v, w, a, b);
}

pub proof fn edge_reaches(g: Graph, u: int, v: int)
    requires
        edge(g, u, v),
    ensures
        reaches(g, u, v),
{
    assert(leads(g, v, v, 0));
    assert(leads(g, u, v, 1));
}

/// A set that holds `u` and every successor of its members holds all that `u` reaches.
proof fn closed_sets_hold(g: Graph, marks: Seq<bool>, u: int, v: int)
    requires
        marks.len() == g.len(),
        0 <= u < g.len(),
        marks[u],
        reaches(g, u, v),
        forall|a: int, b: int| #[trigger] edge(g, a, b) && marks[a] ==> marks[b],
    ensures
        0 <= v < g.len(),
        marks[v],
{
    let steps = choose|steps: nat| #[trigger] leads(g, u, v, steps);
    closed_sets_hold_steps(g, marks, u, v, steps);
}

proof fn closed_sets_hold_steps(g: Graph, marks: Seq<bool>, u: int, v: int, steps: nat)
    requires
        marks.len() == g.len(),
        0 <= u < g.len(),
        marks[u],
        leads(g, u, v, steps),
        forall|a: int, b: int| #[trigger] edge(g, a, b) && marks[a] ==> marks[b],
    ensures
        0 <= v < g.len(),
        marks[v],
    decreases steps,
{
    if u != v {
        let m = choose|m: int|
            #[trigger] edge(g, u, m) && leads(g, m, v, (steps - 1) as nat);
        closed_sets_hold_steps(g, marks, m, v, (steps - 1) as nat);
    }
}

// ---------------------------------------------------------------------------------------------
// Depth-first walks
// ---------------------------------------------------------------------------------------------

/// The nodes met so far in the order of discovery, and those left for good in the order of
/// leaving.
#[verifier::ext_equal]
pub struct Walk {
    pub seen: Seq<int>,
    pub done: Seq<int>,
}

/// The walk after `u`, not met before, has been visited with all that is found below it. At most
/// `depth` nodes are entered one inside the other.
pub open spec fn visit(g: Graph, u: int, w: Walk, depth: nat) -> Walk
    decreases depth, 0int,
{
    if depth == 0 {
        w
    } else {
        let entered = Walk { seen: w.seen.push(u), done: w.done };
        let below = visit_below(g, u, 0, entered, (depth - 1) as nat);
        Walk { seen: below.seen, done: below.done.push(u) }
    }
}

/// The walk after the successors of `u` from `v` on have been visited, in ascending order.
pub open spec fn visit_below(g: Graph, u: int, v: int, w: Walk, depth: nat) -> Walk
    decreases depth, g.len() - v + 1,
{
    if v < 0 || v >= g.len() {
        w
    } else if edge(g, u, v) && !w.seen.contains(v) {
        visit_below(g, u, v + 1, visit(g, v, w, depth), depth)
    } else {
        visit_below(g, u, v + 1, w, depth)
    }
}

/// The walk from each of the first `n` nodes in turn.
pub open spec fn walk(g: Graph, n: nat) -> Walk
    decreases n,
{
    if n == 0 {
        Walk { seen: Seq::empty(), done: Seq::empty() }
    } else {
        let before = walk(g, (n - 1) as nat);
        if before.seen.contains(n - 1) {
            before
        } else {
            visit(g, n - 1, before, g.len())
        }
    }
}

/// The order in which a walk of the whole graph leaves the nodes.
pub open spec fn finish_order(g: Graph) -> Seq<int> {
    walk(g, g.len()).done
}

/// The order in which a walk of the whole graph meets the nodes.
pub open spec fn discovery_order(g: Graph) -> Seq<int> {
    walk(g, g.len()).seen
}


/// What holds at every moment of a walk: every node is met once and left once, and all that is
/// left has been met.
pub open spec fn orderly(g: Graph, w: Walk) -> bool {
    &&& w.seen.no_duplicates()
    &&& w.done.no_duplicates()
    &&& forall|i: int| 0 <= i < w.seen.len() ==> 0 <= #[trigger] w.seen[i] < g.len()
    &&& forall|i: int| 0 <= i < w.done.len() ==> w.seen.contains(#[trigger] w.done[i])
}

/// The node has been met but not left.
pub open spec fn active(w: Walk, u: int) -> bool {
    w.seen.contains(u) && !w.done.contains(u)
}

/// Every successor of a node that was left has been met.
pub open spec fn successors_met(g: Graph, w: Walk) -> bool {
    forall|u: int, v: int| #[trigger] edge(g, u, v) && w.done.contains(u) ==> w.seen.contains(v)
}

/// Where a node stood when it was left: `done` up to and with it.
pub open spec fn left_by(done: Seq<int>, p: int, x: int) -> bool {
    exists|q: int| 0 <= q <= p && #[trigger] done[q] == x
}

/// When a node was left, all that it reaches had been left, unless it lies on a cycle with a node
/// that was left later or not at all.
pub open spec fn settled(g: Graph, done: Seq<int>, p: int) -> bool {
    forall|x: int| #[trigger]
        reaches(g, done[p], x) ==> left_by(done, p, x) || exists|y: int| #[trigger]
            mutual(g, done[p], y) && !left_by(done, p, y)
}

/// `later` continues `earlier`.
pub open spec fn continues(earlier: Seq<int>, later: Seq<int>) -> bool {
    &&& earlier.len() <= later.len()
    &&& forall|i: int| 0 <= i < earlier.len() ==> #[trigger] later[i] == earlier[i]
}

proof fn bounded_and_distinct(s: Seq<int>, n: nat)
    requires
        s.no_duplicates(),
        forall|i: int| 0 <= i < s.len() ==> 0 <= #[trigger] s[i] < n,
    ensures
        s.len() <= n,
        s.len() == n ==> forall|x: int| 0 <= x < n ==> s.contains(x),
    decreases n,
{
    if n == 0 {
        if s.len() > 0 {
            assert(0 <= s[0] < n);
        }
    } else {
        let top = n - 1;
        if s.contains(top) {
            let i = choose|i: int| 0 <= i < s.len() && s[i] == top;
            let rest = s.remove(i);
            assert forall|j: int| 0 <= j < rest.len() implies 0 <= #[trigger] rest[j] < n - 1 by {
                assert(rest[j] == s[if j < i {
                    j
                } else {
                    j + 1
                }]);
            }
            assert(rest.no_duplicates());
            bounded_and_distinct(rest, (n - 1) as nat);
            assert forall|x: int| 0 <= x < n && s.len() == n implies s.contains(x) by {
                if x != top {
                    assert(rest.contains(x));
                    let j = choose|j: int| 0 <= j < rest.len() && rest[j] == x;
                    assert(s[if j < i {
                        j
                    } else {
                        j + 1
                    }] == x);
                }
            }
        } else {
            assert forall|j: int| 0 <= j < s.len() implies 0 <= #[trigger] s[j] < n - 1 by {
                if s[j] == top {
                    assert(s.contains(top));
                }
            }
            bounded_and_distinct(s, (n - 1) as nat);
        }
    }
}

/// The invariant of a walk, where `stack` holds the nodes entered and not left, each leading to
/// the next.
pub open spec fn walking(g: Graph, w: Walk) -> bool {
    &&& square(g)
    &&& orderly(g, w)
    &&& successors_met(g, w)
    &&& forall|p: int| 0 <= p < w.done.len() ==> settled(g, w.done, p)
}

proof fn settled_stays(g: Graph, earlier: Seq<int>, later: Seq<int>, p: int)
    requires
        continues(earlier, later),
        0 <= p < earlier.len(),
        settled(g, earlier, p),
    ensures
        settled(g, later, p),
{
    assert(later[p] == earlier[p]);
    assert forall|x: int| left_by(earlier, p, x) == left_by(later, p, x) by {
        if left_by(earlier, p, x) {
            let q = choose|q: int| 0 <= q <= p && #[trigger] earlier[q] == x;
            assert(later[q] == x);
        }
        if left_by(later, p, x) {
            let q = choose|q: int| 0 <= q <= p && #[trigger] later[q] == x;
            assert(earlier[q] == x);
        }
    }
    assert forall|x: int| #[trigger] reaches(g, later[p], x) implies left_by(later, p, x) || exists|
        y: int,
    | #[trigger] mutual(g, later[p], y) && !left_by(later, p, y) by {
        assert(reaches(g, earlier[p], x));
        if !left_by(earlier, p, x) {
            let y = choose|y: int| #[trigger] mutual(g, earlier[p], y) && !left_by(earlier, p, y);
            assert(mutual(g, later[p], y) && !left_by(later, p, y));
        }
    }
}

/// What a visit does.
proof fn visit_walks(g: Graph, u: int, w: Walk, depth: nat)
    requires
        walking(g, w),
        0 <= u < g.len(),
        !w.seen.contains(u),
        depth + w.seen.len() >= g.len(),
        forall|a: int| #[trigger] active(w, a) ==> reaches(g, a, u),
    ensures
        walking(g, visit(g, u, w, depth)),
        continues(w.seen, visit(g, u, w, depth).seen),
        continues(w.done, visit(g, u, w, depth).done),
        visit(g, u, w, depth).done.contains(u),
        forall|a: int| active(w, a) == #[trigger] active(visit(g, u, w, depth), a),
        forall|x: int| #[trigger]
            visit(g, u, w, depth).seen.contains(x) ==> w.seen.contains(x) || reaches(g, u, x),
    decreases depth, 0int,
{
    bounded_and_distinct(w.seen, g.len());
    if w.seen.len() == g.len() {
        assert(w.seen.contains(u));
    }
    assert(depth > 0);
    let entered = Walk { seen: w.seen.push(u), done: w.done };
    assert(entered.seen.contains(u)) by {
        assert(entered.seen[w.seen.len() as int] == u);
    }
    assert forall|x: int| w.seen.contains(x) implies entered.seen.contains(x) by {
        let i = choose|i: int| 0 <= i < w.seen.len() && w.seen[i] == x;
        assert(entered.seen[i] == x);
    }
    assert forall|x: int| entered.seen.contains(x) implies w.seen.contains(x) || x == u by {
        let i = choose|i: int| 0 <= i < entered.seen.len() && entered.seen[i] == x;
        if i < w.seen.len() {
            assert(w.seen[i] == x);
        }
    }
    assert(!w.done.contains(u)) by {
        if w.done.contains(u) {
            let i = choose|i: int| 0 <= i < w.done.len() && w.done[i] == u;
            assert(w.seen.contains(w.done[i]));
        }
    }
    assert(orderly(g, entered));
    assert(walking(g, entered));
    assert forall|a: int| #[trigger] active(entered, a) implies reaches(g, a, u) by {
        if a == u {
            reaches_itself(g, u);
        } else {
            assert(active(w, a));
        }
    }
    visit_below_walks(g, u, 0, entered, (depth - 1) as nat);
    let below = visit_below(g, u, 0, entered, (depth - 1) as nat);
    let after = Walk { seen: below.seen, done: below.done.push(u) };
    assert(active(entered, u));
    assert(active(below, u));
    assert forall|x: int| #[trigger] after.seen.contains(x) implies w.seen.contains(x) || reaches(
        g,
        u,
        x,
    ) by {
        assert(below.seen.contains(x));
        if entered.seen.contains(x) && x == u {
            reaches_itself(g, u);
        }
    }
    assert(after.done.contains(u)) by {
        assert(after.done[below.done.len() as int] == u);
    }
    assert forall|x: int| after.done.contains(x) == (below.done.contains(x) || x == u) by {
        if below.done.contains(x) {
            let i = choose|i: int| 0 <= i < below.done.len() && below.done[i] == x;
            assert(after.done[i] == x);
        }
        if after.done.contains(x) && x != u {
            let i = choose|i: int| 0 <= i < after.done.len() && after.done[i] == x;
            assert(below.done[i] == x);
        }
    }
    assert(orderly(g, after)) by {
        assert forall|i: int| 0 <= i < after.done.len() implies after.seen.contains(
            #[trigger] after.done[i],
        ) by {
            if i < below.done.len() {
                assert(after.done[i] == below.done[i]);
            }
        }
    }
    assert(continues(below.done, after.done));
    let p = below.done.len() as int;
    assert(after.done[p] == u);
    assert forall|x: int| left_by(after.done, p, x) == after.done.contains(x) by {
        if left_by(after.done, p, x) {
            let q = choose|q: int| 0 <= q <= p && #[trigger] after.done[q] == x;
            assert(after.done[q] == x);
        }
        if after.done.contains(x) {
            let q = choose|q: int| 0 <= q < after.done.len() && after.done[q] == x;
            assert(after.done[q] == x);
        }
    }
    assert forall|a: int| active(w, a) == #[trigger] active(after, a) by {
        assert(active(entered, a) == active(below, a));
        if a != u {
            assert(active(w, a) == active(entered, a));
        }
    }
    assert(settled(g, after.done, p)) by {
        assert forall|x: int| #[trigger] reaches(g, u, x) implies left_by(after.done, p, x)
            || exists|y: int| #[trigger] mutual(g, u, y) && !left_by(after.done, p, y) by {
            let steps = choose|steps: nat| #[trigger] leads(g, u, x, steps);
            reaches_itself(g, u);
            leaves_or_turns_back(g, after, u, u, x, steps);
        }
    }
    assert forall|q: int| 0 <= q < after.done.len() implies settled(g, after.done, q) by {
        if q < below.done.len() {
            settled_stays(g, below.done, after.done, q);
        }
    }
    assert(successors_met(g, after));
}

/// On a path from a node that is just being left, either everything has been left, or the path
/// meets a node that still leads back to it.
proof fn leaves_or_turns_back(g: Graph, w: Walk, u: int, m: int, x: int, steps: nat)
    requires
        successors_met(g, w),
        w.done.contains(m),
        reaches(g, u, m),
        leads(g, m, x, steps),
        forall|a: int| #[trigger] active(w, a) ==> reaches(g, a, u),
    ensures
        w.done.contains(x) || exists|y: int| #[trigger]
            mutual(g, u, y) && !w.done.contains(y),
    decreases steps,
{
    if m != x {
        let next = choose|next: int|
            #[trigger] edge(g, m, next) && leads(g, next, x, (steps - 1) as nat);
        assert(w.seen.contains(next));
        edge_reaches(g, m, next);
        reaches_on(g, u, m, next);
        if w.done.contains(next) {
            leaves_or_turns_back(g, w, u, next, x, (steps - 1) as nat);
        } else {
            assert(active(w, next));
            assert(mutual(g, u, next));
        }
    }
}

proof fn visit_below_walks(g: Graph, u: int, v: int, w: Walk, depth: nat)
    requires
        walking(g, w),
        0 <= u < g.len(),
        0 <= v <= g.len(),
        active(w, u),
        depth + w.seen.len() >= g.len(),
        forall|a: int| #[trigger] active(w, a) ==> reaches(g, a, u),
        forall|x: int| 0 <= x < v && #[trigger] edge(g, u, x) ==> w.seen.contains(x),
    ensures
        walking(g, visit_below(g, u, v, w, depth)),
        continues(w.seen, visit_below(g, u, v, w, depth).seen),
        continues(w.done, visit_below(g, u, v, w, depth).done),
        forall|a: int| active(w, a) == #[trigger] active(visit_below(g, u, v, w, depth), a),
        forall|x: int| #[trigger]
            edge(g, u, x) ==> visit_below(g, u, v, w, depth).seen.contains(x),
        forall|x: int| #[trigger]
            visit_below(g, u, v, w, depth).seen.contains(x) ==> w.seen.contains(x) || reaches(
                g,
                u,
                x,
            ),
    decreases depth, g.len() - v + 1,
{
    if v < g.len() {
        if edge(g, u, v) && !w.seen.contains(v) {
            assert forall|a: int| #[trigger] active(w, a) implies reaches(g, a, v) by {
                edge_reaches(g, u, v);
                reaches_on(g, a, u, v);
            }
            visit_walks(g, v, w, depth);
            let next = visit(g, v, w, depth);
            assert(active(next, u));
            assert(next.seen.contains(v)) by {
                let i = choose|i: int| 0 <= i < next.done.len() && next.done[i] == v;
                assert(next.seen.contains(next.done[i]));
            }
            assert forall|x: int| w.seen.contains(x) implies next.seen.contains(x) by {
                let i = choose|i: int| 0 <= i < w.seen.len() && w.seen[i] == x;
                assert(next.seen[i] == x);
            }
            visit_below_walks(g, u, v + 1, next, depth);
            let after = visit_below(g, u, v + 1, next, depth);
            assert forall|x: int| #[trigger] after.seen.contains(x) implies w.seen.contains(x)
                || reaches(g, u, x) by {
                if next.seen.contains(x) && !w.seen.contains(x) {
                    edge_reaches(g, u, v);
                    reaches_on(g, u, v, x);
                }
            }
        } else {
            visit_below_walks(g, u, v + 1, w, depth);
        }
    }
}

/// A walk over the first `n` nodes keeps the invariant, and leaves every node that it meets.
proof fn walk_walks(g: Graph, n: nat)
    requires
        square(g),
        n <= g.len(),
    ensures
        walking(g, walk(g, n)),
        forall|a: int| !#[trigger] active(walk(g, n), a),
        forall|x: int| 0 <= x < n ==> walk(g, n).seen.contains(x),
    decreases n,
{
    if n > 0 {
        walk_walks(g, (n - 1) as nat);
        let before = walk(g, (n - 1) as nat);
        if !before.seen.contains(n - 1) {
            visit_walks(g, n - 1, before, g.len());
            let after = visit(g, n - 1, before, g.len());
            assert forall|x: int| 0 <= x < n implies after.seen.contains(x) by {
                if x < n - 1 {
                    assert(before.seen.contains(x));
                    let i = choose|i: int| 0 <= i < before.seen.len() && before.seen[i] == x;
                    assert(after.seen[i] == x);
                } else {
                    let i = choose|i: int| 0 <= i < after.done.len() && after.done[i] == x;
                    assert(after.seen.contains(after.done[i]));
                }
            }
        }
    }
}

/// A walk of the whole graph meets and leaves every node once.
pub proof fn walks_are_complete(g: Graph)
    requires
        square(g),
    ensures
        finish_order(g).len() == g.len(),
        discovery_order(g).len() == g.len(),
        finish_order(g).no_duplicates(),
        discovery_order(g).no_duplicates(),
        forall|x: int| 0 <= x < g.len() <==> finish_order(g).contains(x),
        forall|x: int| 0 <= x < g.len() <==> discovery_order(g).contains(x),
        forall|p: int| 0 <= p < g.len() ==> settled(g, finish_order(g), p),
{
    walk_walks(g, g.len());
    let w = walk(g, g.len());
    assert forall|x: int| 0 <= x < g.len() implies w.done.contains(x) by {
        assert(!active(w, x));
    }
    assert forall|x: int| w.done.contains(x) implies 0 <= x < g.len() by {
        let i = choose|i: int| 0 <= i < w.done.len() && w.done[i] == x;
        assert(w.seen.contains(w.done[i]));
        let j = choose|j: int| 0 <= j < w.seen.len() && w.seen[j] == x;
        assert(0 <= w.seen[j] < g.len());
    }
    assert forall|i: int| 0 <= i < w.done.len() implies 0 <= #[trigger] w.done[i] < g.len() by {
        assert(w.done.contains(w.done[i]));
    }
    bounded_and_distinct(w.done, g.len());
    bounded_and_distinct(w.seen, g.len());
    covering(w.done, g.len());
    covering(w.seen, g.len());
}

proof fn covering(s: Seq<int>, n: nat)
    requires
        forall|x: int| 0 <= x < n ==> s.contains(x),
    ensures
        s.len() >= n,
    decreases n,
{
    if n > 0 {
        let top = n - 1;
        assert(s.contains(top));
        let i = choose|i: int| 0 <= i < s.len() && s[i] == top;
        let rest = s.remove(i);
        assert forall|x: int| 0 <= x < n - 1 implies rest.contains(x) by {
            assert(s.contains(x));
            let j = choose|j: int| 0 <= j < s.len() && s[j] == x;
            assert(rest[if j < i {
                j
            } else {
                j - 1
            }] == x);
        }
        covering(rest, (n - 1) as nat);
    }
}

// ---------------------------------------------------------------------------------------------
// What the order of leaving says
// ---------------------------------------------------------------------------------------------

/// Every edge leads to a node that comes earlier.
pub open spec fn topological(g: Graph, order: Seq<int>) -> bool {
    forall|p: int, v: int|
        0 <= p < order.len() && #[trigger] edge(g, order[p], v) ==> exists|q: int|
            0 <= q < p && #[trigger] order[q] == v
}

/// In a graph without cycles, the order of leaving puts every node behind all that it leads to.
pub proof fn finish_order_is_topological(g: Graph)
    requires
        square(g),
        !has_cycle(g),
    ensures
        topological(g, finish_order(g)),
{
    walks_are_complete(g);
    let order = finish_order(g);
    assert forall|p: int, v: int|
        0 <= p < order.len() && #[trigger] edge(g, order[p], v) implies exists|q: int|
        0 <= q < p && #[trigger] order[q] == v by {
        let u = order[p];
        edge_reaches(g, u, v);
        assert(settled(g, order, p));
        if !left_by(order, p, v) {
            let y = choose|y: int| #[trigger] mutual(g, u, y) && !left_by(order, p, y);
            assert(order[p] == u);
            assert(y != u);
            let steps = choose|steps: nat| #[trigger] leads(g, u, y, steps);
            let m = choose|m: int|
                #[trigger] edge(g, u, m) && leads(g, m, y, (steps - 1) as nat);
            assert(reaches(g, m, y));
            reaches_on(g, m, y, u);
            assert(has_cycle(g));
        }
        let q = choose|q: int| 0 <= q <= p && #[trigger] order[q] == v;
        if q == p {
            reaches_itself(g, u);
            assert(edge(g, u, u));
            assert(has_cycle(g));
        }
    }
}

/// The node left at `p` is the last of its component.
pub open spec fn is_last(g: Graph, p: int) -> bool {
    forall|q: int|
        p < q < g.len() ==> !mutual(g, finish_order(g)[p], #[trigger] finish_order(g)[q])
}

/// The nodes that lie on a cycle with `u`, and `u`, the last discovered first.
pub open spec fn component_of(g: Graph, u: int) -> Seq<int> {
    discovery_order(g).reverse().filter(|v: int| mutual(g, u, v))
}

/// The components whose last node is among the first `n` that are left.
pub open spec fn components_left(g: Graph, n: nat) -> Seq<Seq<int>>
    decreases n,
{
    if n == 0 {
        Seq::empty()
    } else if is_last(g, n - 1) {
        components_left(g, (n - 1) as nat).push(component_of(g, finish_order(g)[n - 1]))
    } else {
        components_left(g, (n - 1) as nat)
    }
}

/// The strongly connected components, each behind all those that it leads to.
pub open spec fn components(g: Graph) -> Seq<Seq<int>> {
    components_left(g, g.len())
}

/// What the last node of a component reaches was left before it, or with its component.
pub proof fn last_reaches_back(g: Graph, p: int, x: int)
    requires
        square(g),
        0 <= p < g.len(),
        is_last(g, p),
        reaches(g, finish_order(g)[p], x),
    ensures
        left_by(finish_order(g), p, x),
{
    walks_are_complete(g);
    let order = finish_order(g);
    assert(settled(g, order, p));
    if !left_by(order, p, x) {
        let y = choose|y: int| #[trigger] mutual(g, order[p], y) && !left_by(order, p, y);
        let marks = Seq::new(g.len(), |i: int| true);
        assert(order.contains(order[p]));
        closed_sets_hold(g, marks, order[p], y);
        assert(order.contains(y));
        let q = choose|q: int| 0 <= q < order.len() && order[q] == y;
        assert(q > p) by {
            if q <= p {
                assert(order[q] == y);
            }
        }
        assert(!mutual(g, order[p], order[q]));
    }
}

proof fn filter_keeps(s: Seq<int>, pick: spec_fn(int) -> bool)
    requires
        s.no_duplicates(),
    ensures
        s.filter(pick).no_duplicates(),
        forall|x: int| #[trigger]
            s.filter(pick).contains(x) <==> s.contains(x) && pick(x),
    decreases s.len(),
{
    reveal(Seq::filter);
    if s.len() > 0 {
        let rest = s.drop_last();
        filter_keeps(rest, pick);
        let kept = rest.filter(pick);
        assert forall|x: int| s.contains(x) == (rest.contains(x) || x == s.last()) by {
            if s.contains(x) && x != s.last() {
                let i = choose|i: int| 0 <= i < s.len() && s[i] == x;
                assert(rest[i] == x);
            }
            if rest.contains(x) {
                let i = choose|i: int| 0 <= i < rest.len() && rest[i] == x;
                assert(s[i] == x);
            }
            assert(s[s.len() - 1] == s.last());
        }
        assert(!rest.contains(s.last())) by {
            if rest.contains(s.last()) {
                let i = choose|i: int| 0 <= i < rest.len() && rest[i] == s.last();
                assert(s[i] == s[s.len() - 1]);
            }
        }
        if pick(s.last()) {
            let all = kept.push(s.last());
            assert(s.filter(pick) == all);
            assert forall|x: int| all.contains(x) == (kept.contains(x) || x == s.last()) by {
                if kept.contains(x) {
                    let i = choose|i: int| 0 <= i < kept.len() && kept[i] == x;
                    assert(all[i] == x);
                }
                assert(all[kept.len() as int] == s.last());
                if all.contains(x) && x != s.last() {
                    let i = choose|i: int| 0 <= i < all.len() && all[i] == x;
                    assert(kept[i] == x);
                }
            }
            assert(!kept.contains(s.last()));
            assert(all.no_duplicates());
        }
    }
}

/// A component holds the nodes that lie on a cycle with any of its members, each once.
pub proof fn members_of(g: Graph, u: int)
    requires
        square(g),
        0 <= u < g.len(),
    ensures
        forall|x: int| #[trigger]
            component_of(g, u).contains(x) <==> 0 <= x < g.len() && mutual(g, u, x),
        component_of(g, u).no_duplicates(),
{
    walks_are_complete(g);
    let found = discovery_order(g);
    let turned = found.reverse();
    let pick = |v: int| mutual(g, u, v);
    assert forall|x: int| turned.contains(x) == found.contains(x) by {
        if found.contains(x) {
            let i = choose|i: int| 0 <= i < found.len() && found[i] == x;
            assert(turned[found.len() - 1 - i] == x);
        }
        if turned.contains(x) {
            let i = choose|i: int| 0 <= i < turned.len() && turned[i] == x;
            assert(found[found.len() - 1 - i] == x);
        }
    }
    assert(turned.no_duplicates());
    filter_keeps(turned, pick);
}

/// The position at which the last node of component `k` is left.
proof fn component_at(g: Graph, n: nat, k: int) -> (p: int)
    requires
        0 <= k < components_left(g, n).len(),
    ensures
        0 <= p < n,
        is_last(g, p),
        k == components_left(g, p as nat).len(),
        components_left(g, n)[k] == component_of(g, finish_order(g)[p]),
    decreases n,
{
    if is_last(g, n - 1) && k == components_left(g, (n - 1) as nat).len() {
        n - 1
    } else {
        component_at(g, (n - 1) as nat, k)
    }
}

proof fn component_stays(g: Graph, p: int, n: nat)
    requires
        0 <= p < n,
        is_last(g, p),
    ensures
        components_left(g, p as nat).len() < components_left(g, n).len(),
        components_left(g, n)[components_left(g, p as nat).len() as int] == component_of(
            g,
            finish_order(g)[p],
        ),
    decreases n,
{
    if p < n - 1 {
        component_stays(g, p, (n - 1) as nat);
    }
}

/// The node of the component of `u` that is left last.
proof fn last_of(g: Graph, u: int, p: int) -> (last: int)
    requires
        square(g),
        0 <= p < g.len(),
        mutual(g, finish_order(g)[p], u),
    ensures
        p <= last < g.len(),
        is_last(g, last),
        mutual(g, finish_order(g)[last], u),
    decreases g.len() - p,
{
    let order = finish_order(g);
    if is_last(g, p) {
        p
    } else {
        let q = choose|q: int| p < q < g.len() && mutual(g, order[p], #[trigger] order[q]);
        reaches_on(g, order[q], order[p], u);
        reaches_on(g, u, order[p], order[q]);
        last_of(g, u, q)
    }
}

/// Every component has a member, lists no node twice and lists nodes of the graph.
pub proof fn components_are_listed(g: Graph, k: int)
    requires
        square(g),
        0 <= k < components(g).len(),
    ensures
        components(g)[k].len() > 0,
        components(g)[k].no_duplicates(),
        forall|p: int|
            0 <= p < components(g)[k].len() ==> 0 <= #[trigger] components(g)[k][p] < g.len(),
{
    let p = component_at(g, g.len(), k);
    let u = finish_order(g)[p];
    walks_are_complete(g);
    assert(finish_order(g).contains(u));
    members_of(g, u);
    reaches_itself(g, u);
    let members = component_of(g, u);
    assert(members.contains(u));
    assert forall|p: int| 0 <= p < members.len() implies 0 <= #[trigger] members[p] < g.len() by {
        assert(members.contains(members[p]));
    }
}

/// Every node lies in a component.
pub proof fn components_cover(g: Graph, u: int) -> (k: int)
    requires
        square(g),
        0 <= u < g.len(),
    ensures
        0 <= k < components(g).len(),
        components(g)[k].contains(u),
{
    walks_are_complete(g);
    let order = finish_order(g);
    assert(order.contains(u));
    let p = choose|p: int| 0 <= p < order.len() && order[p] == u;
    reaches_itself(g, u);
    let last = last_of(g, u, p);
    component_stays(g, last, g.len());
    assert(order.contains(order[last]));
    members_of(g, order[last]);
    components_left(g, last as nat).len() as int
}

/// What a member of a component leads to lies in the same component or in an earlier one.
pub proof fn components_come_after_what_they_reach(g: Graph, k: int, u: int, v: int)
    requires
        square(g),
        0 <= k < components(g).len(),
        components(g)[k].contains(u),
        reaches(g, u, v),
    ensures
        exists|j: int| 0 <= j <= k && #[trigger] components(g)[j].contains(v),
{
    walks_are_complete(g);
    let order = finish_order(g);
    let p = component_at(g, g.len(), k);
    assert(order.contains(order[p]));
    members_of(g, order[p]);
    reaches_on(g, order[p], u, v);
    last_reaches_back(g, p, v);
    let q = choose|q: int| 0 <= q <= p && #[trigger] order[q] == v;
    reaches_itself(g, v);
    let last = last_of(g, v, q);
    reaches_on(g, order[p], v, order[last]);
    last_reaches_back(g, p, order[last]);
    let r = choose|r: int| 0 <= r <= p && #[trigger] order[r] == order[last];
    assert(r == last);
    component_stays(g, last, g.len());
    assert(order.contains(order[last]));
    members_of(g, order[last]);
    components_grow(g, last as nat, p as nat);
    assert(components(g)[components_left(g, last as nat).len() as int].contains(v));
}

proof fn components_grow(g: Graph, a: nat, b: nat)
    requires
        a <= b,
    ensures
        components_left(g, a).len() <= components_left(g, b).len(),
    decreases b,
{
    if a < b {
        components_grow(g, a, (b - 1) as nat);
    }
}

/// The nodes of a component are those that lie on a cycle with any one of them.
pub proof fn components_are_mutual(g: Graph, k: int, x: int, y: int)
    requires
        square(g),
        0 <= k < components(g).len(),
        components(g)[k].contains(x),
    ensures
        components(g)[k].contains(y) <==> 0 <= y < g.len() && mutual(g, x, y),
{
    walks_are_complete(g);
    let p = component_at(g, g.len(), k);
    let u = finish_order(g)[p];
    assert(finish_order(g).contains(u));
    members_of(g, u);
    if components(g)[k].contains(y) {
        reaches_on(g, x, u, y);
        reaches_on(g, y, u, x);
    }
    if mutual(g, x, y) {
        reaches_on(g, u, x, y);
        reaches_on(g, y, x, u);
    }
}

/// No node lies in two components.
pub proof fn components_are_disjoint(g: Graph, j: int, k: int, x: int)
    requires
        square(g),
        0 <= j < components(g).len(),
        0 <= k < components(g).len(),
        components(g)[j].contains(x),
        components(g)[k].contains(x),
    ensures
        j == k,
{
    walks_are_complete(g);
    let order = finish_order(g);
    let p = component_at(g, g.len(), j);
    let q = component_at(g, g.len(), k);
    assert(order.contains(order[p]));
    assert(order.contains(order[q]));
    members_of(g, order[p]);
    members_of(g, order[q]);
    reaches_on(g, order[p], x, order[q]);
    reaches_on(g, order[q], x, order[p]);
    if p < q {
        assert(!mutual(g, order[p], order[q]));
    }
    if q < p {
        assert(!mutual(g, order[q], order[p]));
    }
}

/// Where every two nodes lie on a cycle, they form one component.
pub proof fn connected_graphs_are_one_component(g: Graph)
    requires
        square(g),
        g.len() > 0,
        forall|u: int, v: int| 0 <= u < g.len() && 0 <= v < g.len() ==> #[trigger] mutual(g, u, v),
    ensures
        components(g).len() == 1,
        components(g)[0].no_duplicates(),
        forall|x: int| #[trigger] components(g)[0].contains(x) <==> 0 <= x < g.len(),
{
    walks_are_complete(g);
    let n = g.len();
    let order = finish_order(g);
    no_component_before(g, (n - 1) as nat);
    assert(is_last(g, n - 1));
    assert(order.contains(order[n - 1]));
    members_of(g, order[n - 1]);
}

proof fn no_component_before(g: Graph, k: nat)
    requires
        square(g),
        k < g.len(),
        forall|u: int, v: int| 0 <= u < g.len() && 0 <= v < g.len() ==> #[trigger] mutual(g, u, v),
    ensures
        components_left(g, k).len() == 0,
    decreases k,
{
    if k > 0 {
        no_component_before(g, (k - 1) as nat);
        walks_are_complete(g);
        let order = finish_order(g);
        assert(order.contains(order[k - 1]));
        assert(order.contains(order[k as int]));
        assert(mutual(g, order[k - 1], order[k as int]));
        assert(!is_last(g, k - 1));
    }
}

/// Where the edges between the nodes of a component have images, so do its paths.
pub proof fn images_reach(
    g: Graph,
    h: Graph,
    k: int,
    image: spec_fn(int) -> int,
    x: int,
    y: int,
    steps: nat,
)
    requires
        square(g),
        square(h),
        0 <= k < components(g).len(),
        components(g)[k].contains(x),
        components(g)[k].contains(y),
        leads(g, x, y, steps),
        forall|u: int, v: int|
            components(g)[k].contains(u) && components(g)[k].contains(v) && #[trigger] edge(g, u, v)
                ==> edge(h, image(u), image(v)),
        forall|u: int| #[trigger]
            components(g)[k].contains(u) ==> 0 <= image(u) < h.len(),
    ensures
        reaches(h, image(x), image(y)),
    decreases steps,
{
    if x == y {
        reaches_itself(h, image(x));
    } else {
        let w = choose|w: int| #[trigger] edge(g, x, w) && leads(g, w, y, (steps - 1) as nat);
        components_are_mutual(g, k, x, y);
        components_are_mutual(g, k, x, w);
        edge_reaches(g, x, w);
        assert(reaches(g, w, y));
        reaches_on(g, w, y, x);
        images_reach(g, h, k, image, w, y, (steps - 1) as nat);
        edge_reaches(h, image(x), image(w));
        reaches_on(h, image(x), image(w), image(y));
    }
}

// ---------------------------------------------------------------------------------------------
// Computing them
// ---------------------------------------------------------------------------------------------

/// The graph that a matrix of edges describes.
pub open spec fn graph_of(links: Seq<Vec<bool>>) -> Graph {
    Seq::new(links.len(), |i: int| links[i]@)
}

pub open spec fn numbers(s: Seq<usize>) -> Seq<int> {
    Seq::new(s.len(), |i: int| s[i] as int)
}

/// A walk in progress.
pub struct Walker {
    pub seen: Vec<usize>,
    pub done: Vec<usize>,
    pub met: Vec<bool>,
}

impl Walker {
    pub open spec fn view(&self) -> Walk {
        Walk { seen: numbers(self.seen@), done: numbers(self.done@) }
    }

    pub open spec fn wf(&self, n: nat) -> bool {
        &&& self.met@.len() == n
        &&& forall|i: int| 0 <= i < n ==> #[trigger] self.met@[i] == self@.seen.contains(i)
    }
}

fn start(n: usize) -> (w: Walker)
    ensures
        w@ == (Walk { seen: Seq::empty(), done: Seq::empty() }),
        w.wf(n as nat),
{
    let mut met: Vec<bool> = Vec::new();
    let mut i: usize = 0;
    while i < n
        invariant
            i <= n,
            met@.len() == i,
            forall|j: int| 0 <= j < i ==> !#[trigger] met@[j],
        decreases n - i,
    {
        met.push(false);
        i += 1;
    }
    let w = Walker { seen: Vec::new(), done: Vec::new(), met };
    assert(w@.seen =~= Seq::empty());
    assert(w@.done =~= Seq::empty());
    w
}

/// Visits `u` and all that is found below it.
fn enter(links: &Vec<Vec<bool>>, u: usize, w: &mut Walker, depth: usize)
    requires
        square(graph_of(links@)),
        u < links@.len(),
        old(w).wf(links@.len()),
        !old(w)@.seen.contains(u as int),
    ensures
        final(w).wf(links@.len()),
        final(w)@ == visit(graph_of(links@), u as int, old(w)@, depth as nat),
    decreases depth, 0int,
{
    if depth == 0 {
        return;
    }
    let ghost g = graph_of(links@);
    let ghost before = w@;
    w.seen.push(u);
    w.met.set(u, true);
    proof {
        let entered = before.seen.push(u as int);
        assert(w@.seen =~= entered);
        assert forall|i: int| 0 <= i < links@.len() implies #[trigger] w.met@[i]
            == w@.seen.contains(i) by {
            if before.seen.contains(i) {
                let j = choose|j: int| 0 <= j < before.seen.len() && before.seen[j] == i;
                assert(entered[j] == i);
            }
            assert(entered[before.seen.len() as int] == u);
            if entered.contains(i) && i != u {
                let j = choose|j: int| 0 <= j < entered.len() && entered[j] == i;
                assert(before.seen[j] == i);
            }
        }
    }
    enter_below(links, u, w, depth - 1);
    let ghost below = w@;
    w.done.push(u);
    proof {
        assert(w@.done =~= below.done.push(u as int));
    }
}

fn enter_below(links: &Vec<Vec<bool>>, u: usize, w: &mut Walker, depth: usize)
    requires
        square(graph_of(links@)),
        u < links@.len(),
        old(w).wf(links@.len()),
    ensures
        final(w).wf(links@.len()),
        final(w)@ == visit_below(graph_of(links@), u as int, 0, old(w)@, depth as nat),
    decreases depth, 1int,
{
    let ghost g = graph_of(links@);
    let ghost target = visit_below(g, u as int, 0, w@, depth as nat);
    let mut v: usize = 0;
    while v < links.len()
        invariant
            v <= links@.len(),
            u < links@.len(),
            g == graph_of(links@),
            square(g),
            w.wf(links@.len()),
            target == visit_below(g, u as int, v as int, w@, depth as nat),
        decreases links@.len() - v,
    {
        assert(g[u as int] == links@[u as int]@);
        assert(g[u as int].len() == g.len());
        if links[u][v] && !w.met[v] {
            enter(links, v, w, depth);
        }
        v += 1;
    }
}

/// Walks the whole graph.
fn walk_through(links: &Vec<Vec<bool>>) -> (w: Walker)
    requires
        square(graph_of(links@)),
    ensures
        w.wf(links@.len()),
        w@ == walk(graph_of(links@), links@.len()),
{
    let ghost g = graph_of(links@);
    let mut w = start(links.len());
    let mut n: usize = 0;
    while n < links.len()
        invariant
            n <= links@.len(),
            g == graph_of(links@),
            square(g),
            w.wf(links@.len()),
            w@ == walk(g, n as nat),
        decreases links@.len() - n,
    {
        if !w.met[n] {
            enter(links, n, &mut w, links.len());
        }
        n += 1;
    }
    w
}

/// The order in which a walk leaves the nodes.
pub fn leaving_order(links: &Vec<Vec<bool>>) -> (order: Vec<usize>)
    requires
        square(graph_of(links@)),
    ensures
        numbers(order@) == finish_order(graph_of(links@)),
{
    walk_through(links).done
}

/// Which nodes `u` reaches.
fn reached_from(links: &Vec<Vec<bool>>, u: usize) -> (reached: Vec<bool>)
    requires
        square(graph_of(links@)),
        u < links@.len(),
    ensures
        reached@.len() == links@.len(),
        forall|v: int|
            0 <= v < links@.len() ==> #[trigger] reached@[v] == reaches(
                graph_of(links@),
                u as int,
                v,
            ),
{
    let ghost g = graph_of(links@);
    let mut w = start(links.len());
    let ghost empty = w@;
    proof {
        assert(walking(g, empty));
        assert forall|a: int| #[trigger] active(empty, a) implies reaches(g, a, u as int) by {}
    }
    enter(links, u, &mut w, links.len());
    proof {
        visit_walks(g, u as int, empty, g.len());
        assert forall|v: int| 0 <= v < links@.len() implies #[trigger] w.met@[v] == reaches(
            g,
            u as int,
            v,
        ) by {
            if reaches(g, u as int, v) {
                assert forall|a: int, b: int| #[trigger] edge(g, a, b) && w.met@[a] implies w.met@[b] by {
                    assert(w@.seen.contains(a));
                    assert(!active(empty, a));
                    assert(!active(w@, a));
                    assert(w@.done.contains(a));
                    assert(w@.seen.contains(b));
                }
                assert(w.met@[u as int]) by {
                    let i = choose|i: int| 0 <= i < w@.done.len() && w@.done[i] == u;
                    assert(w@.seen.contains(w@.done[i]));
                }
                closed_sets_hold(g, w.met@, u as int, v);
            }
        }
    }
    w.met
}

/// Which nodes reach which.
pub fn reachability(links: &Vec<Vec<bool>>) -> (reached: Vec<Vec<bool>>)
    requires
        square(graph_of(links@)),
    ensures
        reached@.len() == links@.len(),
        forall|u: int, v: int|
            0 <= u < links@.len() && 0 <= v < links@.len() ==> #[trigger] reached@[u]@[v]
                == reaches(graph_of(links@), u, v),
        forall|u: int| 0 <= u < links@.len() ==> (#[trigger] reached@[u])@.len() == links@.len(),
{
    let ghost g = graph_of(links@);
    let mut reached: Vec<Vec<bool>> = Vec::new();
    let mut i: usize = 0;
    while i < links.len()
        invariant
            i <= links@.len(),
            g == graph_of(links@),
            square(g),
            reached@.len() == i,
            forall|u: int, v: int|
                0 <= u < i && 0 <= v < links@.len() ==> #[trigger] reached@[u]@[v] == reaches(
                    g,
                    u,
                    v,
                ),
            forall|u: int| 0 <= u < i ==> (#[trigger] reached@[u])@.len() == links@.len(),
        decreases links@.len() - i,
    {
        reached.push(reached_from(links, i));
        i += 1;
    }
    reached
}

/// Whether the graph has a cycle.
pub fn is_cyclic(links: &Vec<Vec<bool>>) -> (cyclic: bool)
    requires
        square(graph_of(links@)),
    ensures
        cyclic == has_cycle(graph_of(links@)),
{
    let ghost g = graph_of(links@);
    let reached = reachability(links);
    let mut u: usize = 0;
    while u < links.len()
        invariant
            u <= links@.len(),
            g == graph_of(links@),
            square(g),
            reached@.len() == links@.len(),
            forall|u: int, v: int|
                0 <= u < links@.len() && 0 <= v < links@.len() ==> #[trigger] reached@[u]@[v]
                    == reaches(g, u, v),
            forall|u: int| 0 <= u < links@.len() ==> (#[trigger] reached@[u])@.len()
                == links@.len(),
            forall|a: int, b: int| a < u && #[trigger] edge(g, a, b) ==> !reaches(g, b, a),
        decreases links@.len() - u,
    {
        let mut v: usize = 0;
        while v < links.len()
            invariant
                v <= links@.len(),
                u < links@.len(),
                g == graph_of(links@),
                square(g),
                reached@.len() == links@.len(),
                forall|u: int, v: int|
                    0 <= u < links@.len() && 0 <= v < links@.len() ==> #[trigger] reached@[u]@[v]
                        == reaches(g, u, v),
                forall|u: int| 0 <= u < links@.len() ==> (#[trigger] reached@[u])@.len()
                    == links@.len(),
                forall|a: int, b: int| a < u && #[trigger] edge(g, a, b) ==> !reaches(g, b, a),
                forall|b: int| b < v && #[trigger] edge(g, u as int, b) ==> !reaches(
                    g,
                    b,
                    u as int,
                ),
            decreases links@.len() - v,
        {
            assert(g[u as int] == links@[u as int]@);
            assert(g[u as int].len() == g.len());
            if links[u][v] && reached[v][u] {
                assert(edge(g, u as int, v as int));
                return true;
            }
            v += 1;
        }
        u += 1;
    }
    false
}

/// The strongly connected components, each behind all those that it leads to.
pub fn strongly_connected_components(links: &Vec<Vec<bool>>) -> (found: Vec<Vec<usize>>)
    requires
        square(graph_of(links@)),
    ensures
        found@.len() == components(graph_of(links@)).len(),
        forall|i: int|
            0 <= i < found@.len() ==> numbers((#[trigger] found@[i])@) == components(
                graph_of(links@),
            )[i],
{
    let ghost g = graph_of(links@);
    let w = walk_through(links);
    let reached = reachability(links);
    let n: usize = links.len();
    proof {
        walks_are_complete(g);
        assert forall|i: int| 0 <= i < n implies (#[trigger] w.done@[i]) < n by {
            assert(w@.done[i] == w.done@[i]);
            assert(finish_order(g).contains(w@.done[i]));
        }
        assert forall|i: int| 0 <= i < n implies (#[trigger] w.seen@[i]) < n by {
            assert(w@.seen[i] == w.seen@[i]);
            assert(discovery_order(g).contains(w@.seen[i]));
        }
    }
    let mut found: Vec<Vec<usize>> = Vec::new();
    let mut p: usize = 0;
    while p < n
        invariant
            p <= n,
            n == links@.len(),
            g == graph_of(links@),
            g.len() == n,
            w@.done == finish_order(g),
            w@.seen == discovery_order(g),
            w.done@.len() == n,
            w.seen@.len() == n,
            forall|i: int| 0 <= i < n ==> (#[trigger] w.done@[i]) < n,
            forall|i: int| 0 <= i < n ==> (#[trigger] w.seen@[i]) < n,
            reached@.len() == n,
            forall|u: int, v: int|
                0 <= u < n && 0 <= v < n ==> #[trigger] reached@[u]@[v] == reaches(g, u, v),
            forall|u: int| 0 <= u < n ==> (#[trigger] reached@[u])@.len() == n,
            found@.len() == components_left(g, p as nat).len(),
            forall|i: int|
                0 <= i < found@.len() ==> numbers((#[trigger] found@[i])@) == components_left(
                    g,
                    p as nat,
                )[i],
        decreases n - p,
    {
        let u: usize = w.done[p];
        assert(finish_order(g)[p as int] == u);
        let mut last: bool = true;
        let mut q: usize = p + 1;
        while q < n
            invariant
                p < q <= n,
                u < n,
                n == links@.len(),
                g.len() == n,
                w@.done == finish_order(g),
                w.done@.len() == n,
                finish_order(g)[p as int] == u,
                forall|i: int| 0 <= i < n ==> (#[trigger] w.done@[i]) < n,
                reached@.len() == n,
                forall|u: int, v: int|
                    0 <= u < n && 0 <= v < n ==> #[trigger] reached@[u]@[v] == reaches(g, u, v),
                forall|u: int| 0 <= u < n ==> (#[trigger] reached@[u])@.len() == n,
                last == forall|r: int|
                    p < r < q ==> !mutual(
                        g,
                        finish_order(g)[p as int],
                        #[trigger] finish_order(g)[r],
                    ),
            decreases n - q,
        {
            let v: usize = w.done[q];
            assert(finish_order(g)[q as int] == v);
            if reached[u][v] && reached[v][u] {
                assert(mutual(g, finish_order(g)[p as int], finish_order(g)[q as int]));
                last = false;
            }
            q += 1;
        }
        assert(last == is_last(g, p as int));
        if last {
            let members = collect(&w.seen, &reached, u, Ghost(g));
            found.push(members);
        }
        p += 1;
    }
    found
}

fn collect(
    seen: &Vec<usize>,
    reached: &Vec<Vec<bool>>,
    u: usize,
    Ghost(g): Ghost<Graph>,
) -> (members: Vec<usize>)
    requires
        numbers(seen@) == discovery_order(g),
        seen@.len() == g.len(),
        u < g.len(),
        forall|i: int| 0 <= i < g.len() ==> (#[trigger] seen@[i]) < g.len(),
        reached@.len() == g.len(),
        forall|u: int, v: int|
            0 <= u < g.len() && 0 <= v < g.len() ==> #[trigger] reached@[u]@[v] == reaches(
                g,
                u,
                v,
            ),
        forall|u: int| 0 <= u < g.len() ==> (#[trigger] reached@[u])@.len() == g.len(),
    ensures
        numbers(members@) == component_of(g, u as int),
{
    let ghost turned = discovery_order(g).reverse();
    let ghost pick = |v: int| mutual(g, u as int, v);
    let mut members: Vec<usize> = Vec::new();
    let mut i: usize = 0;
    assert(turned.take(0).filter(pick) =~= Seq::empty()) by {
        reveal(Seq::filter);
    }
    assert(numbers(members@) =~= Seq::empty());
    while i < seen.len()
        invariant
            i <= seen@.len(),
            numbers(seen@) == discovery_order(g),
            turned == discovery_order(g).reverse(),
            pick == (|v: int| mutual(g, u as int, v)),
            seen@.len() == g.len(),
            u < g.len(),
            forall|i: int| 0 <= i < g.len() ==> (#[trigger] seen@[i]) < g.len(),
            reached@.len() == g.len(),
            forall|u: int, v: int|
                0 <= u < g.len() && 0 <= v < g.len() ==> #[trigger] reached@[u]@[v] == reaches(
                    g,
                    u,
                    v,
                ),
            forall|u: int| 0 <= u < g.len() ==> (#[trigger] reached@[u])@.len() == g.len(),
            numbers(members@) == turned.take(i as int).filter(pick),
        decreases seen@.len() - i,
    {
        let v: usize = seen[seen.len() - 1 - i];
        let ghost before = numbers(members@);
        assert(turned[i as int] == v);
        assert(turned.take(i + 1).drop_last() =~= turned.take(i as int));
        assert(turned.take(i + 1).last() == v);
        if reached[u][v] && reached[v][u] {
            members.push(v);
            assert(numbers(members@) =~= before.push(v as int));
        }
        proof {
            reveal(Seq::filter);
        }
        i += 1;
    }
    assert(turned.take(seen@.len() as int) =~= turned);
    members
}

} // verus!
