//! Definitions that refer to one another by key, and the types that they build.
use vstd::prelude::*;

use crate::hir::layout::types_are_closed;
use crate::hir::recursive::assemble::close;
use crate::hir::recursive::builder::{
    aggregate_shape, def_bodies, def_keys, defs_wf, AggregateTemplate, RecursiveTypeError,
    TemplateDef,
};
use crate::hir::recursive::graph::{
    components, components_are_listed, components_cover, graph_of, numbers, square,
    strongly_connected_components,
};
use crate::hir::recursive::group::{
    build_component, mentions, no_slots, report, scoped, templates_close,
};
use crate::hir::recursive::key::{widen, widened};
use crate::hir::recursive::rank::comes_before;
use crate::hir::recursive::rules::{
    build, build_group, build_groups, defect_fault, is_recursive, key_fault, least_missing, mention_graph,
    reference_fault, text_less, BuildFault,
};
use crate::hir::recursive::scope::{
    defect, find, find_defect, fits, names, position, position_found, resolve, subst, texts,
    Meaning, Names, Scope,
};
use crate::hir::recursive::template::{
    enum_template_shape, enum_template_wf, struct_template_shape, struct_template_wf, template_wf,
    EnumTemplate, StructTemplate, TypeTemplate,
};
use crate::hir::shape::{has_var, Shape};
use crate::hir::types::{wf, Type};

verus! {

/// Types by key.
pub struct Definitions {
    pub names: Names,
}

impl Definitions {
    pub open spec fn view(&self) -> Scope {
        self.names@
    }

    /// Every key stands for a type.
    pub open spec fn wf(&self) -> bool {
        &&& self.names.wf()
        &&& forall|i: int|
            0 <= i < self.names.meanings@.len() ==> (#[trigger] self.names.meanings@[i]) is Done
    }

    /// No types.
    pub fn new() -> (made: Definitions)
        ensures
            made.wf(),
            made@.keys.len() == 0,
            made@.values.len() == 0,
    {
        Definitions { names: Names { keys: Vec::new(), meanings: Vec::new() } }
    }

    /// Lets `key` stand for a type, in place of what it stood for before.
    pub fn insert(&mut self, key: String, ty: Type)
        requires
            old(self).wf(),
            wf(ty),
        ensures
            final(self).wf(),
            forall|other: Seq<char>| #[trigger]
                resolve(final(self)@, other) == (if other == key@ {
                    Some(ty@)
                } else {
                    resolve(old(self)@, other)
                }),
    {
        let ghost before = self@;
        let ghost name = key@;
        proof {
            position_found(before.keys, name, 0);
        }
        match find(&self.names.keys, &key) {
            Some(i) => {
                self.names.meanings.set(i, Meaning::Done(ty));
                proof {
                    assert forall|other: Seq<char>| #[trigger]
                        resolve(self@, other) == (if other == name {
                            Some(ty@)
                        } else {
                            resolve(before, other)
                        }) by {
                        position_found(before.keys, other, 0);
                    }
                }
            },
            None => {
                self.names.keys.push(key);
                self.names.meanings.push(Meaning::Done(ty));
                proof {
                    let after = self@;
                    assert(after.keys =~= before.keys.push(name));
                    assert(after.values =~= before.values.push(Some(ty@)));
                    assert forall|other: Seq<char>| #[trigger]
                        resolve(after, other) == (if other == name {
                            Some(ty@)
                        } else {
                            resolve(before, other)
                        }) by {
                        position_found(before.keys, other, 0);
                        position_found(after.keys, other, 0);
                        let last = before.keys.len() as int;
                        assert(after.keys[last] == name);
                        match position(before.keys, other, 0) {
                            Some(i) => {
                                assert(after.keys[i] == other);
                                let j = position(after.keys, other, 0)->0;
                                if j < i {
                                    assert(after.keys[j] == before.keys[j]);
                                }
                            },
                            None => {
                                if let Some(j) = position(after.keys, other, 0) {
                                    if j < last {
                                        assert(after.keys[j] == before.keys[j]);
                                    }
                                }
                            },
                        }
                    }
                }
            },
        }
    }

    /// The type that `key` stands for.
    pub fn get(&self, key: &String) -> (found: Option<&Type>)
        requires
            self.wf(),
        ensures
            match found {
                Some(ty) => resolve(self@, key@) == Some(ty@) && wf(*ty),
                None => resolve(self@, key@) is None,
            },
    {
        match self.names.look_up(key) {
            Meaning::Done(ty) => Some(ty),
            Meaning::Slot(_) => {
                proof {
                    position_found(self@.keys, key@, 0);
                    let i = position(self@.keys, key@, 0)->0;
                    assert(self.names.meanings@[i] is Done);
                    types_are_closed(&self.names.meanings@[i]->Done_0);
                    reveal(has_var);
                }
                None
            },
            Meaning::Open => None,
        }
    }

    /// How many keys there are.
    pub fn len(&self) -> (len: usize)
        requires
            self.wf(),
        ensures
            len == self@.keys.len(),
    {
        self.names.keys.len()
    }
}

/// The type that a template describes, where `definitions` says what its names stand for.
pub fn close_template(template: &TypeTemplate, definitions: &Definitions) -> (made: Result<
    Type,
    RecursiveTypeError,
>)
    requires
        template_wf(*template),
        definitions.wf(),
        defect(subst(template@, definitions@)) is None ==> fits(
            subst(template@, definitions@),
            Seq::empty(),
        ),
    ensures
        match made {
            Ok(made) => {
                &&& defect(subst(template@, definitions@)) is None
                &&& made@ == subst(template@, definitions@)
                &&& wf(made)
            },
            Err(error) => match defect(subst(template@, definitions@)) {
                Some(found) => error@ == defect_fault(found),
                None => false,
            },
        },
{
    if let Some(found) = find_defect(template, &definitions.names) {
        return Err(report(found));
    }
    proof {
        templates_close(template, &definitions.names);
    }
    match close(template, &definitions.names) {
        Some(made) => Ok(made),
        None => vstd::pervasive::unreached(),
    }
}

/// Builds recursive struct and enum types from a set of named definitions.
///
/// Definitions refer to one another by key. They are divided into groups of definitions that
/// mention one another; every cycle has to cross a pointer, a list or a function; definitions of
/// a group that denote the same type are merged; and the order within a group depends on its
/// structure alone.
#[derive(Debug)]
pub struct RecursiveTypeBuilder {
    pub defs: Vec<TemplateDef>,
}

impl RecursiveTypeBuilder {
    /// No definitions.
    pub fn new() -> (made: RecursiveTypeBuilder)
        ensures
            made.defs@ == Seq::<TemplateDef>::empty(),
    {
        RecursiveTypeBuilder { defs: Vec::new() }
    }

    /// Defines a struct under `key`.
    ///
    /// The key tells the definition apart and is what references name. It does not become the
    /// name of the struct.
    pub fn define_struct(&mut self, key: String, template: StructTemplate)
        requires
            struct_template_wf(template),
            defs_wf(old(self).defs@),
        ensures
            defs_wf(final(self).defs@),
            def_keys(final(self).defs@) == def_keys(old(self).defs@).push(key@),
            def_bodies(final(self).defs@) == def_bodies(old(self).defs@).push(
                Shape::Struct(struct_template_shape(template)),
            ),
    {
        let ghost before = self.defs@;
        let ghost name = key@;
        self.defs.push(TemplateDef { key, body: AggregateTemplate::Struct(template) });
        assert(def_keys(self.defs@) =~= def_keys(before).push(name));
        assert(def_bodies(self.defs@) =~= def_bodies(before).push(
            Shape::Struct(struct_template_shape(template)),
        ));
    }

    /// Defines an enum under `key`.
    pub fn define_enum(&mut self, key: String, template: EnumTemplate)
        requires
            enum_template_wf(template),
            defs_wf(old(self).defs@),
        ensures
            defs_wf(final(self).defs@),
            def_keys(final(self).defs@) == def_keys(old(self).defs@).push(key@),
            def_bodies(final(self).defs@) == def_bodies(old(self).defs@).push(
                Shape::Enum(enum_template_shape(template)),
            ),
    {
        let ghost before = self.defs@;
        let ghost name = key@;
        self.defs.push(TemplateDef { key, body: AggregateTemplate::Enum(template) });
        assert(def_keys(self.defs@) =~= def_keys(before).push(name));
        assert(def_bodies(self.defs@) =~= def_bodies(before).push(
            Shape::Enum(enum_template_shape(template)),
        ));
    }

    /// Builds the type of every definition, and forgets the definitions.
    pub fn build(&mut self) -> (made: Result<Definitions, RecursiveTypeError>)
        requires
            defs_wf(old(self).defs@),
        ensures
            final(self).defs@ == Seq::<TemplateDef>::empty(),
            match made {
                Ok(made) => {
                    &&& made.wf()
                    &&& made@.keys == def_keys(old(self).defs@)
                    &&& build(def_keys(old(self).defs@), def_bodies(old(self).defs@)) == Ok::<
                        Seq<Option<Shape>>,
                        BuildFault,
                    >(made@.values)
                },
                Err(error) => build(
                    def_keys(old(self).defs@),
                    def_bodies(old(self).defs@),
                ) == Err::<Seq<Option<Shape>>, BuildFault>(error@),
            },
    {
        let mut defs: Vec<TemplateDef> = Vec::new();
        std::mem::swap(&mut defs, &mut self.defs);
        build_definitions(&defs)
    }
}

impl Default for RecursiveTypeBuilder {
    fn default() -> (made: RecursiveTypeBuilder)
        ensures
            made.defs@ == Seq::<TemplateDef>::empty(),
    {
        RecursiveTypeBuilder::new()
    }
}

/// The first definition whose key is empty or taken.
fn find_key_fault(defs: &Vec<TemplateDef>, keys: &Vec<String>) -> (found: Option<
    RecursiveTypeError,
>)
    requires
        texts(keys@) == def_keys(defs@),
    ensures
        match found {
            Some(error) => key_fault(def_keys(defs@), 0) == Some(error@),
            None => key_fault(def_keys(defs@), 0) is None,
        },
{
    let ghost all = def_keys(defs@);
    let mut i: usize = 0;
    while i < defs.len()
        invariant
            i <= defs@.len(),
            all == def_keys(defs@),
            texts(keys@) == all,
            key_fault(all, 0) == key_fault(all, i as int),
        decreases defs@.len() - i,
    {
        let key = &defs[i].key;
        assert(all[i as int] == key@);
        if is_empty(key) {
            return Some(RecursiveTypeError::EmptyName);
        }
        proof {
            position_found(all, key@, 0);
        }
        match find(keys, key) {
            Some(first) if first == i => {},
            _ => {
                return Some(RecursiveTypeError::DuplicateName(key.clone()));
            },
        }
        i += 1;
    }
    None
}

fn is_empty(text: &String) -> (empty: bool)
    ensures
        empty == (text@.len() == 0),
{
    text.as_str().unicode_len() == 0
}

/// One text comes before another, byte by byte.
pub fn text_before(a: &String, b: &String) -> (before: bool)
    ensures
        before == text_less(a@, b@),
{
    let mut left: Vec<u16> = Vec::new();
    let mut right: Vec<u16> = Vec::new();
    widen(a.as_str().as_bytes(), 0, &mut left);
    widen(b.as_str().as_bytes(), 0, &mut right);
    assert(left@ =~= widened(vstd::utf8::encode_utf8(a@), 0));
    assert(right@ =~= widened(vstd::utf8::encode_utf8(b@), 0));
    comes_before(&left, &right)
}

/// The least of the names that are no key.
fn find_least_missing(found: &Vec<String>, keys: &Vec<String>) -> (missing: Option<String>)
    ensures
        match missing {
            Some(missing) => least_missing(texts(found@), texts(keys@)) == Some(missing@),
            None => least_missing(texts(found@), texts(keys@)) is None,
        },
{
    let ghost all = texts(found@);
    let ghost known = texts(keys@);
    let mut least: Option<usize> = None;
    let mut i: usize = 0;
    while i < found.len()
        invariant
            i <= found@.len(),
            all == texts(found@),
            known == texts(keys@),
            match least {
                Some(p) => p < i && least_missing(all.take(i as int), known) == Some(
                    found@[p as int]@,
                ),
                None => least_missing(all.take(i as int), known) is None,
            },
        decreases found@.len() - i,
    {
        assert(all.take(i + 1).drop_last() =~= all.take(i as int));
        assert(all.take(i + 1)[i as int] == found@[i as int]@);
        if find(keys, &found[i]).is_none() {
            match least {
                Some(p) => {
                    if text_before(&found[i], &found[p]) {
                        least = Some(i);
                    }
                },
                None => {
                    least = Some(i);
                },
            }
        }
        i += 1;
    }
    assert(all.take(found@.len() as int) =~= all);
    match least {
        Some(p) => Some(found[p].clone()),
        None => None,
    }
}

/// The first reference that names no definition.
fn find_reference_fault(
    defs: &Vec<TemplateDef>,
    mentioned: &Vec<Vec<String>>,
    keys: &Vec<String>,
) -> (found: Option<RecursiveTypeError>)
    requires
        texts(keys@) == def_keys(defs@),
        mentions(mentioned@, defs@),
    ensures
        match found {
            Some(error) => reference_fault(def_keys(defs@), def_bodies(defs@), 0) == Some(error@),
            None => reference_fault(def_keys(defs@), def_bodies(defs@), 0) is None,
        },
{
    let ghost all = def_keys(defs@);
    let ghost bodies = def_bodies(defs@);
    let mut i: usize = 0;
    while i < mentioned.len()
        invariant
            i <= mentioned@.len(),
            all == def_keys(defs@),
            bodies == def_bodies(defs@),
            texts(keys@) == all,
            mentions(mentioned@, defs@),
            reference_fault(all, bodies, 0) == reference_fault(all, bodies, i as int),
        decreases mentioned@.len() - i,
    {
        assert(texts(mentioned@[i as int]@) == names(bodies[i as int]));
        if let Some(missing) = find_least_missing(&mentioned[i], keys) {
            return Some(RecursiveTypeError::UndefinedReference(missing));
        }
        i += 1;
    }
    None
}

/// Which definition mentions which.
fn link(defs: &Vec<TemplateDef>, mentioned: &Vec<Vec<String>>) -> (links: Vec<Vec<bool>>)
    requires
        mentions(mentioned@, defs@),
    ensures
        graph_of(links@) == mention_graph(def_keys(defs@), def_bodies(defs@)),
{
    let ghost keys = def_keys(defs@);
    let ghost bodies = def_bodies(defs@);
    let ghost g = mention_graph(keys, bodies);
    let n: usize = defs.len();
    let mut links: Vec<Vec<bool>> = Vec::new();
    let mut i: usize = 0;
    while i < n
        invariant
            i <= n,
            n == defs@.len(),
            mentions(mentioned@, defs@),
            keys == def_keys(defs@),
            bodies == def_bodies(defs@),
            g == mention_graph(keys, bodies),
            links@.len() == i,
            forall|p: int| 0 <= p < i ==> (#[trigger] links@[p])@ == g[p],
        decreases n - i,
    {
        let ghost all = names(bodies[i as int]);
        assert(texts(mentioned@[i as int]@) == all);
        let mut row: Vec<bool> = Vec::new();
        let mut j: usize = 0;
        while j < n
            invariant
                j <= n,
                i < n,
                n == defs@.len(),
                mentions(mentioned@, defs@),
                keys == def_keys(defs@),
                all == names(def_bodies(defs@)[i as int]),
                texts(mentioned@[i as int]@) == all,
                row@.len() == j,
                forall|q: int| 0 <= q < j ==> #[trigger] row@[q] == all.contains(keys[q]),
            decreases n - j,
        {
            let key = &defs[j].key;
            proof {
                assert(keys[j as int] == key@);
                position_found(all, key@, 0);
                if all.contains(key@) {
                    let p = choose|p: int| 0 <= p < all.len() && all[p] == key@;
                    assert(all[p] == key@);
                }
            }
            row.push(find(&mentioned[i], key).is_some());
            j += 1;
        }
        assert(row@ =~= g[i as int]);
        links.push(row);
        i += 1;
    }
    assert(graph_of(links@) =~= g);
    links
}

/// Builds the type of every definition.
fn build_definitions(defs: &Vec<TemplateDef>) -> (made: Result<Definitions, RecursiveTypeError>)
    requires
        defs_wf(defs@),
    ensures
        match made {
            Ok(made) => {
                &&& made.wf()
                &&& made@.keys == def_keys(defs@)
                &&& build(def_keys(defs@), def_bodies(defs@)) == Ok::<
                    Seq<Option<Shape>>,
                    BuildFault,
                >(made@.values)
            },
            Err(error) => build(def_keys(defs@), def_bodies(defs@)) == Err::<
                Seq<Option<Shape>>,
                BuildFault,
            >(error@),
        },
{
    let ghost keys = def_keys(defs@);
    let ghost bodies = def_bodies(defs@);
    let n: usize = defs.len();
    let mut taken: Vec<String> = Vec::new();
    let mut meanings: Vec<Meaning> = Vec::new();
    let mut mentioned: Vec<Vec<String>> = Vec::new();
    let mut i: usize = 0;
    while i < n
        invariant
            i <= n,
            n == defs@.len(),
            taken@.len() == i,
            meanings@.len() == i,
            mentioned@.len() == i,
            forall|p: int| 0 <= p < i ==> (#[trigger] taken@[p])@ == defs@[p].key@,
            forall|p: int| 0 <= p < i ==> (#[trigger] meanings@[p]) is Open,
            forall|p: int|
                0 <= p < i ==> texts((#[trigger] mentioned@[p])@) == names(
                    aggregate_shape(defs@[p].body),
                ),
        decreases n - i,
    {
        taken.push(defs[i].key.clone());
        meanings.push(Meaning::Open);
        mentioned.push(defs[i].body.ordered_references());
        i += 1;
    }
    assert(texts(taken@) =~= keys);
    if let Some(error) = find_key_fault(defs, &taken) {
        return Err(error);
    }
    if let Some(error) = find_reference_fault(defs, &mentioned, &taken) {
        return Err(error);
    }
    let links = link(defs, &mentioned);
    let ghost g = mention_graph(keys, bodies);
    assert(square(g));
    let found = strongly_connected_components(&links);
    let ghost groups = components(g);
    let mut scope = Names { keys: taken, meanings };
    assert(scope@.values =~= Seq::new(keys.len(), |i: int| None));
    let ghost start = scope@.values;
    let mut k: usize = 0;
    while k < found.len()
        invariant
            k <= found@.len(),
            defs_wf(defs@),
            keys == def_keys(defs@),
            bodies == def_bodies(defs@),
            g == mention_graph(keys, bodies),
            square(g),
            g.len() == defs@.len(),
            groups == components(g),
            found@.len() == groups.len(),
            forall|i: int|
                0 <= i < found@.len() ==> numbers((#[trigger] found@[i])@) == groups[i],
            mentions(mentioned@, defs@),
            scoped(&scope, defs@),
            no_slots(&scope),
            build(keys, bodies) == build_groups(keys, bodies, groups, 0, start),
            build_groups(keys, bodies, groups, 0, start) == build_groups(
                keys,
                bodies,
                groups,
                k as int,
                scope@.values,
            ),
            forall|j: int, i: int|
                0 <= j < k && #[trigger] groups[j].contains(i) && 0 <= i < defs@.len()
                    ==> scope@.values[i] is Some,
        decreases found@.len() - k,
    {
        let ghost before = scope@.values;
        proof {
            components_are_listed(g, k as int);
            let members = found@[k as int]@;
            assert(numbers(members) == groups[k as int]);
            assert forall|p: int| 0 <= p < members.len() implies (#[trigger] members[p])
                < defs@.len() by {
                assert(numbers(members)[p] == members[p]);
            }
        }
        match build_component(defs, &mentioned, &found[k], &mut scope) {
            Ok(_) => {},
            Err(error) => {
                return Err(error);
            },
        }
        proof {
            let after = scope@.values;
            assert forall|j: int, i: int|
                0 <= j < k + 1 && #[trigger] groups[j].contains(i) && 0 <= i
                    < defs@.len() implies after[i] is Some by {
                groups_are_filled(keys, bodies, groups[k as int], before, after, i);
            }
        }
        k += 1;
    }
    proof {
        assert forall|i: int| 0 <= i < scope.meanings@.len() implies (#[trigger] scope.meanings@[i])
            is Done by {
            let j = components_cover(g, i);
            assert(groups[j].contains(i));
            assert(scope@.values[i] is Some);
        }
    }
    Ok(Definitions { names: scope })
}

/// Building a component gives each of its members a type, and takes none away.
proof fn groups_are_filled(
    keys: Seq<Seq<char>>,
    bodies: Seq<Shape>,
    component: Seq<int>,
    before: Seq<Option<Shape>>,
    after: Seq<Option<Shape>>,
    i: int,
)
    requires
        component.len() > 0,
        0 <= component[0] < before.len(),
        build_group(keys, bodies, component, before) == Ok::<Seq<Option<Shape>>, BuildFault>(after),
        0 <= i < before.len(),
    ensures
        component.contains(i) ==> after[i] is Some,
        before[i] is Some ==> after[i] is Some,
{
    if !is_recursive(keys, bodies, component) {
        if component.contains(i) {
            let p = choose|p: int| 0 <= p < component.len() && component[p] == i;
            assert(p == 0);
        }
    }
}

} // verus!
