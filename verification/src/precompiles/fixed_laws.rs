//! What the fixed rows hold: each modulus under itself, the coefficients of a curve and the factor
//! of its coordinates under its base field, and the factor of its scalars under its scalar field.

use crate::precompiles::fixed::{endomorphisms, moduli, parameters, Curve, FixedUint, UintDomain};
use vstd::prelude::*;

verus! {

/// The integers that the store holds from the start.
pub open spec fn all_fixed(domains: Seq<UintDomain>, curves: Seq<Curve>) -> Seq<FixedUint> {
    moduli(domains) + parameters(curves, curves.len()) + endomorphisms(curves, curves.len())
}

proof fn parameters_hold(curves: Seq<Curve>, count: nat, i: int)
    requires
        0 <= i < count <= curves.len(),
    ensures
        parameters(curves, count).len() == 2 * count,
        parameters(curves, count)[2 * i] == (
            curves[i].a_ptr,
            curves[i].base_bound_ptr,
            curves[i].a_value,
        ),
        parameters(curves, count)[2 * i + 1] == (
            curves[i].b_ptr,
            curves[i].base_bound_ptr,
            curves[i].b_value,
        ),
    decreases count,
{
    counted(curves, (count - 1) as nat);
    if i < count - 1 {
        parameters_hold(curves, (count - 1) as nat, i);
    }
}

proof fn endomorphisms_hold(curves: Seq<Curve>, count: nat, i: int) -> (at: int)
    requires
        0 <= i < count <= curves.len(),
        curves[i].endomorphism is Some,
    ensures
        0 <= at,
        at + 1 < endomorphisms(curves, count).len(),
        endomorphisms(curves, count)[at] == (
            curves[i].endomorphism->0.beta_ptr,
            curves[i].base_bound_ptr,
            curves[i].endomorphism->0.beta,
        ),
        endomorphisms(curves, count)[at + 1] == (
            curves[i].endomorphism->0.lambda_ptr,
            curves[i].scalar_bound_ptr,
            curves[i].endomorphism->0.lambda,
        ),
    decreases count,
{
    if i < count - 1 {
        endomorphisms_hold(curves, (count - 1) as nat, i)
    } else {
        endomorphisms(curves, (count - 1) as nat).len() as int
    }
}

/// Every constant of a domain or a curve is stored, under the field it is an element of.
pub proof fn constants_are_stored_under_their_field(
    domains: Seq<UintDomain>,
    curves: Seq<Curve>,
)
    ensures
        forall|i: int|
            0 <= i < domains.len() ==> all_fixed(domains, curves).contains(
                (
                    (#[trigger] domains[i]).bound_ptr,
                    domains[i].bound_ptr,
                    domains[i].minus_one,
                ),
            ),
        forall|i: int|
            0 <= i < curves.len() ==> {
                let c = #[trigger] curves[i];
                let all = all_fixed(domains, curves);
                &&& all.contains((c.a_ptr, c.base_bound_ptr, c.a_value))
                &&& all.contains((c.b_ptr, c.base_bound_ptr, c.b_value))
                &&& c.endomorphism matches Some(e) ==> all.contains(
                    (e.beta_ptr, c.base_bound_ptr, e.beta),
                ) && all.contains((e.lambda_ptr, c.scalar_bound_ptr, e.lambda))
            },
{
    let all = all_fixed(domains, curves);
    let n = curves.len();
    let first = moduli(domains);
    let second = parameters(curves, n);
    let third = endomorphisms(curves, n);
    assert forall|i: int| 0 <= i < domains.len() implies all.contains(
        ((#[trigger] domains[i]).bound_ptr, domains[i].bound_ptr, domains[i].minus_one),
    ) by {
        assert(all[i] == first[i]);
    }
    assert forall|i: int| 0 <= i < n implies {
        let c = #[trigger] curves[i];
        &&& all.contains((c.a_ptr, c.base_bound_ptr, c.a_value))
        &&& all.contains((c.b_ptr, c.base_bound_ptr, c.b_value))
        &&& c.endomorphism matches Some(e) ==> all.contains(
            (e.beta_ptr, c.base_bound_ptr, e.beta),
        ) && all.contains((e.lambda_ptr, c.scalar_bound_ptr, e.lambda))
    } by {
        parameters_hold(curves, n, i);
        assert(all[first.len() + 2 * i] == second[2 * i]);
        assert(all[first.len() + (2 * i + 1)] == second[2 * i + 1]);
        if curves[i].endomorphism is Some {
            let at = endomorphisms_hold(curves, n, i);
            assert(all[first.len() + second.len() + at] == third[at]);
            assert(all[first.len() + second.len() + (at + 1)] == third[at + 1]);
        }
    }
}

/// How many of the curves have an endomorphism.
pub open spec fn with_endomorphism(curves: Seq<Curve>) -> nat
    decreases curves.len(),
{
    if curves.len() == 0 {
        0
    } else {
        with_endomorphism(curves.drop_last()) + if curves.last().endomorphism is Some {
            1nat
        } else {
            0
        }
    }
}

proof fn counted(curves: Seq<Curve>, count: nat)
    requires
        count <= curves.len(),
    ensures
        parameters(curves, count).len() == 2 * count,
        endomorphisms(curves, count).len() == 2 * with_endomorphism(curves.take(count as int)),
    decreases count,
{
    if count > 0 {
        counted(curves, (count - 1) as nat);
        assert(curves.take(count as int).drop_last() =~= curves.take(count - 1));
    }
}

/// Nothing else is stored: one integer for each domain, two for each curve, and two more for each
/// endomorphism.
pub proof fn nothing_else_is_fixed(domains: Seq<UintDomain>, curves: Seq<Curve>)
    ensures
        all_fixed(domains, curves).len() == domains.len() + 2 * curves.len() + 2
            * with_endomorphism(curves),
{
    counted(curves, curves.len());
    assert(curves.take(curves.len() as int) =~= curves);
}

} // verus!
