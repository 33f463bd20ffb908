//! The laws of building, for definitions as they are written.
use vstd::prelude::*;

use crate::hir::codec::renaming::slotless;
use crate::hir::codec::written::{enums_are_slotless, structs_are_slotless};
use crate::hir::recursive::builder::{def_bodies, def_keys, AggregateTemplate, TemplateDef};
use crate::hir::recursive::invariance::{
    open_definitions, order_does_not_matter, recast, usable_keys,
};
use crate::hir::recursive::meaning::{built_types_unfold_to_their_definitions, unfolded};
use crate::hir::recursive::rules::build;
use crate::hir::recursive::scope::{subst, Scope};

verus! {

/// Definitions written as templates are structs and enums that refer to each other by key only.
pub proof fn templates_are_open(defs: &Vec<TemplateDef>)
    ensures
        open_definitions(def_bodies(defs@)),
{
    let bodies = def_bodies(defs@);
    assert forall|i: int| 0 <= i < bodies.len() implies {
        &&& slotless(#[trigger] bodies[i])
        &&& bodies[i] is Struct || bodies[i] is Enum
    } by {
        match &defs@[i].body {
            AggregateTemplate::Struct(s) => {
                structs_are_slotless(s);
            },
            AggregateTemplate::Enum(e) => {
                enums_are_slotless(e);
            },
        }
    }
}

/// The same definitions under other keys, and in another order, build the same types.
pub proof fn definitions_build_alike(
    defs: &Vec<TemplateDef>,
    others: &Vec<TemplateDef>,
    to: Seq<int>,
)
    requires
        usable_keys(def_keys(others@)),
        recast(
            def_keys(defs@),
            def_bodies(defs@),
            def_keys(others@),
            def_bodies(others@),
            to,
        ),
        build(def_keys(defs@), def_bodies(defs@)) is Ok,
    ensures
        build(def_keys(others@), def_bodies(others@)) is Ok,
        forall|i: int|
            0 <= i < to.len() ==> build(def_keys(others@), def_bodies(others@))->Ok_0[
                #[trigger] to[i]
            ] == build(def_keys(defs@), def_bodies(defs@))->Ok_0[i],
{
    templates_are_open(defs);
    order_does_not_matter(
        def_keys(defs@),
        def_bodies(defs@),
        def_keys(others@),
        def_bodies(others@),
        to,
    );
}

/// The type that is built for a definition unfolds to it, with the types that are built for the
/// definitions it refers to in the place of their keys.
pub proof fn definitions_are_what_types_unfold_to(defs: &Vec<TemplateDef>, i: int)
    requires
        build(def_keys(defs@), def_bodies(defs@)) is Ok,
        0 <= i < defs@.len(),
    ensures
        build(def_keys(defs@), def_bodies(defs@))->Ok_0[i] is Some,
        unfolded(build(def_keys(defs@), def_bodies(defs@))->Ok_0[i]->0) == subst(
            def_bodies(defs@)[i],
            Scope {
                keys: def_keys(defs@),
                values: build(def_keys(defs@), def_bodies(defs@))->Ok_0,
            },
        ),
{
    templates_are_open(defs);
    built_types_unfold_to_their_definitions(def_keys(defs@), def_bodies(defs@), i);
}

} // verus!
