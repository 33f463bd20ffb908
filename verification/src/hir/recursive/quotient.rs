//! Merging the items of a class changes no number.
use vstd::prelude::*;

use crate::hir::recursive::rank::{
    below, classes, classes_are_settled, first, less, rank, refine, refined, refined_stays,
    signature, signatures, within, Ordered,
};

verus! {

/// The values among the first `n` that come before `x`.
spec fn lower(values: Seq<Ordered>, x: Ordered, n: nat) -> Set<Ordered>
    decreases n,
{
    if n == 0 {
        Set::empty()
    } else {
        let before = lower(values, x, (n - 1) as nat);
        if less(values[n - 1], x) {
            before.insert(values[n - 1])
        } else {
            before
        }
    }
}

proof fn lower_holds(values: Seq<Ordered>, x: Ordered, n: nat, v: Ordered)
    requires
        n <= values.len(),
    ensures
        lower(values, x, n).contains(v) <==> less(v, x) && exists|i: int|
            0 <= i < n && #[trigger] values[i] == v,
    decreases n,
{
    if n > 0 {
        lower_holds(values, x, (n - 1) as nat, v);
        if values[n - 1] == v {
            assert(values[n - 1] == v);
        }
    }
}

proof fn below_counts(values: Seq<Ordered>, x: Ordered, n: nat)
    requires
        n <= values.len(),
    ensures
        lower(values, x, n).finite(),
        below(values, x, n) == lower(values, x, n).len(),
    decreases n,
{
    if n > 0 {
        below_counts(values, x, (n - 1) as nat);
        let last = values[n - 1];
        lower_holds(values, x, (n - 1) as nat, last);
        if less(last, x) {
            if lower(values, x, (n - 1) as nat).contains(last) {
                let i = choose|i: int| 0 <= i < n - 1 && #[trigger] values[i] == last;
                assert(!first(values, n - 1));
            } else {
                assert(first(values, n - 1));
            }
        }
    }
}

/// Each item of `a` corresponds to the item `to[p]` of `b`, and each of `b` to some item of `a`.
pub open spec fn onto(to: Seq<int>, back: Seq<int>) -> bool {
    &&& forall|p: int| 0 <= p < to.len() ==> 0 <= #[trigger] to[p] < back.len()
    &&& forall|q: int|
        0 <= q < back.len() ==> 0 <= #[trigger] back[q] < to.len() && to[back[q]] == q
}

/// Ranks depend on nothing but the set of values.
proof fn ranks_agree(a: Seq<Ordered>, b: Seq<Ordered>, to: Seq<int>, back: Seq<int>, p: int)
    requires
        a.len() == to.len(),
        b.len() == back.len(),
        onto(to, back),
        forall|p: int| 0 <= p < a.len() ==> #[trigger] a[p] == b[to[p]],
        0 <= p < a.len(),
    ensures
        rank(a)[p] == rank(b)[to[p]],
{
    let x = a[p];
    let in_a = lower(a, x, a.len());
    let in_b = lower(b, x, b.len());
    below_counts(a, x, a.len());
    below_counts(b, x, b.len());
    assert forall|v: Ordered| in_a.contains(v) == in_b.contains(v) by {
        lower_holds(a, x, a.len(), v);
        lower_holds(b, x, b.len(), v);
        if exists|i: int| 0 <= i < a.len() && #[trigger] a[i] == v {
            let i = choose|i: int| 0 <= i < a.len() && #[trigger] a[i] == v;
            assert(b[to[i]] == v);
        }
        if exists|j: int| 0 <= j < b.len() && #[trigger] b[j] == v {
            let j = choose|j: int| 0 <= j < b.len() && #[trigger] b[j] == v;
            assert(a[back[j]] == v);
        }
    }
    assert(in_a =~= in_b);
}

/// What corresponding items refer to corresponds.
pub open spec fn linked(
    a: Seq<Seq<int>>,
    b: Seq<Seq<int>>,
    to: Seq<int>,
) -> bool {
    forall|p: int|
        0 <= p < to.len() ==> {
            &&& (#[trigger] a[p]).len() == b[to[p]].len()
            &&& forall|i: int|
                0 <= i < a[p].len() ==> to[#[trigger] a[p][i]] == b[to[p]][i]
        }
}

proof fn refinements_agree(
    a: Seq<nat>,
    from_a: Seq<Seq<int>>,
    b: Seq<nat>,
    from_b: Seq<Seq<int>>,
    to: Seq<int>,
    back: Seq<int>,
)
    requires
        a.len() == to.len(),
        b.len() == back.len(),
        onto(to, back),
        within(from_a, a.len()),
        linked(from_a, from_b, to),
        forall|p: int| 0 <= p < a.len() ==> #[trigger] a[p] == b[to[p]],
    ensures
        forall|p: int|
            0 <= p < a.len() ==> #[trigger] refine(a, from_a)[p] == refine(b, from_b)[to[p]],
{
    let sa = signatures(a, from_a);
    let sb = signatures(b, from_b);
    assert forall|p: int| 0 <= p < sa.len() implies #[trigger] sa[p] == sb[to[p]] by {
        assert(a[p] == b[to[p]]);
        let left = signature(a, from_a[p], a[p]);
        let right = signature(b, from_b[to[p]], b[to[p]]);
        assert forall|i: int| 0 <= i < left.len() implies left[i] == right[i] by {
            if i > 0 {
                let r = from_a[p][i - 1];
                assert(0 <= r < a.len());
                assert(to[from_a[p][i - 1]] == from_b[to[p]][i - 1]);
                assert(a[r] == b[to[r]]);
            }
        }
        assert(left =~= right);
    }
    assert forall|p: int| 0 <= p < a.len() implies #[trigger] refine(a, from_a)[p] == refine(
        b,
        from_b,
    )[to[p]] by {
        ranks_agree(sa, sb, to, back, p);
    }
}

proof fn rounds_agree(
    a: Seq<nat>,
    from_a: Seq<Seq<int>>,
    b: Seq<nat>,
    from_b: Seq<Seq<int>>,
    to: Seq<int>,
    back: Seq<int>,
    rounds: nat,
)
    requires
        a.len() == to.len(),
        b.len() == back.len(),
        onto(to, back),
        within(from_a, a.len()),
        linked(from_a, from_b, to),
        forall|p: int| 0 <= p < a.len() ==> #[trigger] a[p] == b[to[p]],
    ensures
        forall|p: int|
            0 <= p < a.len() ==> #[trigger] refined(a, from_a, rounds)[p] == refined(
                b,
                from_b,
                rounds,
            )[to[p]],
    decreases rounds,
{
    if rounds > 0 {
        refinements_agree(a, from_a, b, from_b, to, back);
        rounds_agree(
            refine(a, from_a),
            from_a,
            refine(b, from_b),
            from_b,
            to,
            back,
            (rounds - 1) as nat,
        );
    }
    assert forall|p: int| 0 <= p < a.len() implies #[trigger] refined(a, from_a, rounds)[p]
        == refined(b, from_b, rounds)[to[p]] by {
        if rounds == 0 {
            assert(a[p] == b[to[p]]);
        } else {
            assert(refined(refine(a, from_a), from_a, (rounds - 1) as nat)[p] == refined(
                refine(b, from_b),
                from_b,
                (rounds - 1) as nat,
            )[to[p]]);
        }
    }
}

proof fn rounds_add(numbers: Seq<nat>, references: Seq<Seq<int>>, a: nat, b: nat)
    ensures
        refined(numbers, references, a + b) == refined(
            refined(numbers, references, a),
            references,
            b,
        ),
    decreases a,
{
    if a > 0 {
        rounds_add(refine(numbers, references), references, (a - 1) as nat, b);
    }
}

/// Items that correspond, and refer to items that correspond, are of the same class.
pub proof fn classes_agree(
    a: Seq<Ordered>,
    from_a: Seq<Seq<int>>,
    b: Seq<Ordered>,
    from_b: Seq<Seq<int>>,
    to: Seq<int>,
    back: Seq<int>,
)
    requires
        a.len() == to.len(),
        b.len() == back.len(),
        b.len() <= a.len() <= 0x1_0000,
        onto(to, back),
        within(from_a, a.len()),
        within(from_b, b.len()),
        linked(from_a, from_b, to),
        forall|p: int| 0 <= p < a.len() ==> #[trigger] a[p] == b[to[p]],
    ensures
        forall|p: int|
            0 <= p < a.len() ==> #[trigger] classes(a, from_a)[p] == classes(b, from_b)[to[p]],
{
    let ra = rank(a);
    let rb = rank(b);
    assert forall|p: int| 0 <= p < ra.len() implies #[trigger] ra[p] == rb[to[p]] by {
        ranks_agree(a, b, to, back, p);
    }
    let many = a.len() * a.len();
    let few = b.len() * b.len();
    assert(few <= many) by (nonlinear_arith)
        requires
            b.len() <= a.len(),
            many == a.len() * a.len(),
            few == b.len() * b.len(),
    ;
    rounds_agree(ra, from_a, rb, from_b, to, back, many);
    classes_are_settled(b, from_b);
    rounds_add(rb, from_b, few, (many - few) as nat);
    refined_stays(classes(b, from_b), from_b, (many - few) as nat);
}

} // verus!
