use std::collections::hash_map::DefaultHasher;
use std::hash::{Hash, Hasher};
use std::mem::size_of;
use std::sync::Arc;

use miden_foundation::hir::recursive::builder::RecursiveTypeError;
use miden_foundation::hir::recursive::definitions::{
    close_template, Definitions, RecursiveTypeBuilder,
};
use miden_foundation::hir::recursive::shown::show_type;
use miden_foundation::hir::recursive::template::{
    EnumTemplate, FieldTemplate, StructTemplate, TypeTemplate, VariantTemplate,
};
use miden_foundation::hir::shape::TypeRepr;
use miden_foundation::hir::types::{
    CallConv, EnumRef, EnumType, StructRef, StructType, Type, Variant, MAX_RECURSIVE_GROUP_SIZE,
};

fn field(name: &str, ty: TypeTemplate) -> FieldTemplate {
    FieldTemplate::named(name.to_string(), ty)
}

fn rec(key: &str) -> TypeTemplate {
    TypeTemplate::rec(key.to_string())
}

fn ptr(key: &str) -> TypeTemplate {
    TypeTemplate::ptr(rec(key))
}

fn closed(ty: Type) -> TypeTemplate {
    TypeTemplate::Type(ty)
}

fn named(name: &str, fields: Vec<FieldTemplate>) -> StructTemplate {
    StructTemplate::named(name.to_string(), TypeRepr::Default, fields)
}

fn anonymous(fields: Vec<FieldTemplate>) -> StructTemplate {
    StructTemplate::new(TypeRepr::Default, fields)
}

fn define(builder: &mut RecursiveTypeBuilder, key: &str, template: StructTemplate) {
    builder.define_struct(key.to_string(), template);
}

fn get<'a>(built: &'a Definitions, key: &str) -> &'a Type {
    built.get(&key.to_string()).expect("definition should exist")
}

fn node_builder() -> RecursiveTypeBuilder {
    let mut builder = RecursiveTypeBuilder::new();
    define(
        &mut builder,
        "Node",
        named("Node", vec![field("value", closed(Type::U32)), field("next", ptr("Node"))]),
    );
    builder
}

fn build(mut builder: RecursiveTypeBuilder) -> Definitions {
    builder.build().expect("should build")
}

fn struct_ref(ty: &Type) -> &StructRef {
    let Type::Struct(found) = ty else { panic!("expected a struct, got {ty:?}") };
    found
}

fn pointee(ty: &Type) -> &Type {
    ty.pointee().expect("expected a pointer")
}

#[test]
fn a_recursive_type_prints_without_unfolding_forever() {
    let built = build(node_builder());
    let printed = get(&built, "Node").to_text();

    assert!(printed.contains("Node"), "expected the name in {printed:?}");
    assert_eq!(printed, "struct Node");
}

fn node_under_key(key: &str) -> Definitions {
    let mut builder = RecursiveTypeBuilder::new();
    define(
        &mut builder,
        key,
        named("Node", vec![field("value", closed(Type::U32)), field("next", ptr(key))]),
    );
    build(builder)
}

#[test]
fn the_binding_key_does_not_affect_identity() {
    assert_eq!(
        get(&node_under_key("left::Node"), "left::Node"),
        get(&node_under_key("right::Node"), "right::Node")
    );
}

#[test]
fn a_mutual_group_is_ordered_structurally_not_by_key() {
    fn pair(a_key: &str, b_key: &str) -> Definitions {
        let mut builder = RecursiveTypeBuilder::new();
        define(&mut builder, a_key, named("Apple", vec![field("z", ptr(b_key))]));
        define(&mut builder, b_key, named("Zebra", vec![field("a", ptr(a_key))]));
        build(builder)
    }

    assert_eq!(
        get(&pair("z::Apple", "a::Zebra"), "z::Apple"),
        get(&pair("apple", "zebra"), "apple")
    );
}

#[test]
fn anonymous_definitions_order_independently_of_declaration_order() {
    fn cycle(order: [usize; 3]) -> Definitions {
        let names = ["a", "b", "c"];
        let mut builder = RecursiveTypeBuilder::new();
        for slot in order {
            let next = names[(slot + 1) % 3];
            define(&mut builder, names[slot], anonymous(vec![field("next", ptr(next))]));
        }
        build(builder)
    }

    assert_eq!(get(&cycle([0, 1, 2]), "a"), get(&cycle([2, 1, 0]), "a"));
    assert_eq!(get(&cycle([0, 1, 2]), "a"), get(&cycle([1, 2, 0]), "a"));
}

#[test]
fn definitions_that_denote_the_same_type_are_merged() {
    let names = ["a", "b", "c"];
    let mut builder = RecursiveTypeBuilder::new();
    for slot in 0..3 {
        let next = names[(slot + 1) % 3];
        define(&mut builder, names[slot], anonymous(vec![field("next", ptr(next))]));
    }
    let built = build(builder);

    assert_eq!(get(&built, "a"), get(&built, "b"));
    assert_eq!(get(&built, "a"), get(&built, "c"));
    let a = struct_ref(get(&built, "a"));
    assert_eq!(a.as_recursive().expect("recursive").group_len(), 1);
}

#[test]
fn definitions_sharing_a_name_across_modules_are_one_type() {
    fn pair(order: [usize; 2]) -> Definitions {
        let keys = ["lib::m1::A", "lib::m2::A"];
        let mut builder = RecursiveTypeBuilder::new();
        for slot in order {
            let other = keys[(slot + 1) % 2];
            define(&mut builder, keys[slot], named("A", vec![field("b", ptr(other))]));
        }
        build(builder)
    }

    let forward = pair([0, 1]);
    let reversed = pair([1, 0]);
    assert_eq!(get(&forward, "lib::m1::A"), get(&forward, "lib::m2::A"));
    assert_eq!(get(&forward, "lib::m1::A"), get(&reversed, "lib::m1::A"));
}

#[test]
fn definitions_that_differ_are_kept_apart() {
    let mut builder = RecursiveTypeBuilder::new();
    for (key, name, to) in [("p", "N", "m"), ("m", "M", "q"), ("q", "N", "n"), ("n", "O", "p")] {
        define(&mut builder, key, named(name, vec![field("f", ptr(to))]));
    }
    let built = build(builder);

    assert_ne!(get(&built, "p"), get(&built, "q"));
    let p = struct_ref(get(&built, "p"));
    assert_eq!(p.as_recursive().expect("recursive").group_len(), 4);
}

#[test]
fn definitions_differing_only_outside_the_group_are_kept_apart() {
    let mut builder = RecursiveTypeBuilder::new();
    define(&mut builder, "X", named("X", vec![field("v", closed(Type::U8))]));
    define(&mut builder, "Y", named("Y", vec![field("v", closed(Type::U32))]));
    define(
        &mut builder,
        "p",
        named("N", vec![field("next", ptr("q")), field("payload", rec("X"))]),
    );
    define(
        &mut builder,
        "q",
        named("N", vec![field("next", ptr("p")), field("payload", rec("Y"))]),
    );
    let built = build(builder);

    assert_ne!(get(&built, "p"), get(&built, "q"));
}

#[test]
fn definitions_differing_in_signature_shape_are_kept_apart() {
    let mut builder = RecursiveTypeBuilder::new();
    let takes = TypeTemplate::function(CallConv::Fast, vec![rec("b")], vec![]);
    let gives = TypeTemplate::function(CallConv::Fast, vec![], vec![rec("a")]);
    define(&mut builder, "a", named("N", vec![field("f", takes)]));
    define(&mut builder, "b", named("N", vec![field("f", gives)]));
    let built = build(builder);

    assert_ne!(get(&built, "a"), get(&built, "b"));
}

#[test]
fn definitions_naming_equal_external_types_still_merge() {
    let mut builder = RecursiveTypeBuilder::new();
    for key in ["X", "Y"] {
        define(&mut builder, key, named("Payload", vec![field("v", closed(Type::U8))]));
    }
    define(
        &mut builder,
        "p",
        named("N", vec![field("next", ptr("q")), field("payload", rec("X"))]),
    );
    define(
        &mut builder,
        "q",
        named("N", vec![field("next", ptr("p")), field("payload", rec("Y"))]),
    );
    let built = build(builder);

    assert_eq!(get(&built, "X"), get(&built, "Y"));
    assert_eq!(get(&built, "p"), get(&built, "q"));
}

#[test]
fn type_size_is_pinned() {
    assert_eq!(size_of::<Type>(), 24);
    assert_eq!(size_of::<StructRef>(), 16);
    assert_eq!(size_of::<EnumRef>(), 16);
}

#[test]
fn a_recursive_pointee_equals_the_definition_it_points_at() {
    let built = build(node_builder());
    let node = get(&built, "Node");
    let unfolded = struct_ref(node).get();

    assert_eq!(pointee(&unfolded.fields()[1].ty), node);
}

#[test]
fn the_binding_key_is_distinct_from_the_display_name() {
    let mut builder = RecursiveTypeBuilder::new();
    define(
        &mut builder,
        "lib::list::Node",
        named("Node", vec![field("next", ptr("lib::list::Node"))]),
    );
    let built = build(builder);
    let node = struct_ref(get(&built, "lib::list::Node"));

    assert_eq!(node.name().as_deref(), Some("Node"));
    assert_eq!(node.get().name().as_deref(), Some("Node"));
    let rec = node.as_recursive().expect("should be recursive");
    assert_eq!(rec.name().as_deref(), Some("Node"));
}

#[test]
fn an_unnamed_aggregate_keeps_its_key_out_of_its_name() {
    let mut builder = RecursiveTypeBuilder::new();
    define(&mut builder, "lib::anon::Node", anonymous(vec![field("next", ptr("lib::anon::Node"))]));
    let built = build(builder);
    let node = struct_ref(get(&built, "lib::anon::Node"));

    assert_eq!(node.name(), None);
    assert_eq!(node.get().name(), None);
}

#[test]
fn unfolding_preserves_field_names_and_offsets() {
    let built = build(node_builder());
    let unfolded = struct_ref(get(&built, "Node")).get();

    assert_eq!(unfolded.name().as_deref(), Some("Node"));
    assert_eq!(unfolded.fields()[0].name.as_deref(), Some("value"));
    assert_eq!(unfolded.fields()[0].offset, 0);
    assert_eq!(unfolded.fields()[1].name.as_deref(), Some("next"));
    assert_eq!(unfolded.fields()[1].offset, 4);
}

#[test]
fn independently_built_recursive_types_are_equal_and_hash_equal() {
    fn hash_of(ty: &Type) -> u64 {
        let mut hasher = DefaultHasher::new();
        ty.hash(&mut hasher);
        hasher.finish()
    }

    let (first, second) = (build(node_builder()), build(node_builder()));
    assert_eq!(get(&first, "Node"), get(&second, "Node"));
    assert_eq!(hash_of(get(&first, "Node")), hash_of(get(&second, "Node")));
}

#[test]
fn recursion_through_a_list_barrier() {
    let mut builder = RecursiveTypeBuilder::new();
    let children = field("children", TypeTemplate::list(rec("Tree")));
    define(&mut builder, "Tree", named("Tree", vec![children]));
    let built = build(builder);
    let tree = get(&built, "Tree");

    assert_eq!(tree.size_in_bytes(), 8);
    assert_eq!(tree.min_alignment(), 4);

    let body = struct_ref(tree).get();
    let Type::List(element) = &body.fields()[0].ty else { panic!("expected a list") };
    assert_eq!(element.as_ref(), tree);
}

#[test]
fn recursion_through_a_function_barrier() {
    let mut builder = RecursiveTypeBuilder::new();
    let call = TypeTemplate::function(CallConv::Fast, vec![rec("Callback")], vec![]);
    define(&mut builder, "Callback", named("Callback", vec![field("call", call)]));
    let built = build(builder);
    let callback = get(&built, "Callback");

    assert_eq!(callback.size_in_bytes(), 4);

    let body = struct_ref(callback).get();
    let Type::Function(signature) = &body.fields()[0].ty else { panic!("expected a function") };
    assert_eq!(&signature.params()[0], callback);
}

#[test]
fn recursion_nested_arbitrarily_deep_below_a_barrier() {
    let mut builder = RecursiveTypeBuilder::new();
    let option = TypeTemplate::struct_type(
        TypeRepr::Default,
        vec![field("some", rec("Node")), field("none", closed(Type::U8))],
    );
    define(&mut builder, "Node", named("Node", vec![field("next", TypeTemplate::ptr(option))]));
    let built = build(builder);
    let node = get(&built, "Node");

    assert_eq!(node.size_in_bytes(), 4);

    let body = struct_ref(node).get();
    let option = struct_ref(pointee(&body.fields()[0].ty)).get();
    assert_eq!(&option.fields()[0].ty, node);
}

#[test]
fn definitions_differing_only_in_name_or_body_are_unequal() {
    fn one(name: &str, payload: Type) -> Definitions {
        let mut builder = RecursiveTypeBuilder::new();
        define(
            &mut builder,
            name,
            named(name, vec![field("payload", closed(payload)), field("next", ptr(name))]),
        );
        build(builder)
    }

    let base = one("Node", Type::U32);
    let base = get(&base, "Node");
    assert_ne!(get(&one("Other", Type::U32), "Other"), base, "different name, same body");
    assert_ne!(get(&one("Node", Type::I32), "Node"), base, "same name, different body");
    assert_eq!(get(&one("Node", Type::U32), "Node"), base);
}

#[test]
fn mutually_recursive_structs_through_pointers() {
    let mut builder = RecursiveTypeBuilder::new();
    define(&mut builder, "A", anonymous(vec![field("b", ptr("B"))]));
    define(&mut builder, "B", anonymous(vec![field("a", ptr("A"))]));
    let built = build(builder);
    let (a, b) = (get(&built, "A"), get(&built, "B"));
    assert_eq!(a.size_in_bytes(), 4);
    assert_eq!(b.size_in_bytes(), 4);

    let a_body = struct_ref(a).get();
    let to_b = pointee(&a_body.fields()[0].ty);
    assert_eq!(to_b, b);
    let b_body = struct_ref(to_b).get();
    assert_eq!(pointee(&b_body.fields()[0].ty), a);
}

#[test]
fn a_cycle_is_guarded_even_when_one_edge_is_not() {
    let mut builder = RecursiveTypeBuilder::new();
    define(&mut builder, "A", anonymous(vec![field("b", rec("B"))]));
    define(&mut builder, "B", anonymous(vec![field("a", ptr("A"))]));
    let built = build(builder);

    assert_eq!(get(&built, "A").size_in_bytes(), 4);
    assert_eq!(get(&built, "B").size_in_bytes(), 4);
}

#[test]
fn definition_order_does_not_affect_the_result() {
    fn pair(reversed: bool) -> Definitions {
        let mut builder = RecursiveTypeBuilder::new();
        let keys = if reversed { ["B", "A"] } else { ["A", "B"] };
        for key in keys {
            let (name, other) = if key == "A" { ("b", "B") } else { ("a", "A") };
            define(&mut builder, key, anonymous(vec![field(name, ptr(other))]));
        }
        build(builder)
    }

    let (forward, reversed) = (pair(false), pair(true));
    assert_eq!(get(&forward, "A"), get(&reversed, "A"));
    assert_eq!(get(&forward, "B"), get(&reversed, "B"));
}

fn refused(mut builder: RecursiveTypeBuilder) -> RecursiveTypeError {
    match builder.build() {
        Ok(_) => panic!("should not build"),
        Err(error) => error,
    }
}

#[test]
fn direct_recursion_is_rejected() {
    let mut builder = RecursiveTypeBuilder::new();
    define(&mut builder, "T", anonymous(vec![field("value", rec("T"))]));

    let error = refused(builder);
    assert!(matches!(&error, RecursiveTypeError::UnguardedRecursion(key) if key == "T"));
    assert!(error.message().contains("infinite size"));
}

#[test]
fn recursion_through_a_fixed_array_alone_is_rejected() {
    let mut builder = RecursiveTypeBuilder::new();
    let values = field("values", TypeTemplate::array(rec("T"), 1));
    define(&mut builder, "T", anonymous(vec![values]));

    let error = refused(builder);
    assert!(matches!(error, RecursiveTypeError::UnguardedRecursion(key) if key == "T"));
}

#[test]
fn a_wholly_unguarded_mutual_cycle_is_rejected() {
    let mut builder = RecursiveTypeBuilder::new();
    define(&mut builder, "A", anonymous(vec![field("b", rec("B"))]));
    define(&mut builder, "B", anonymous(vec![field("a", rec("A"))]));

    assert!(matches!(refused(builder), RecursiveTypeError::UnguardedRecursion(_)));
}

#[test]
fn a_reference_to_an_undefined_type_is_rejected() {
    let mut builder = RecursiveTypeBuilder::new();
    define(&mut builder, "T", anonymous(vec![field("other", ptr("Missing"))]));

    let error = refused(builder);
    assert!(matches!(&error, RecursiveTypeError::UndefinedReference(key) if key == "Missing"));
    assert_eq!(
        error.message(),
        "invalid recursive type: reference to undefined type 'Missing'"
    );
}

#[test]
fn duplicate_definition_names_are_rejected() {
    let mut builder = RecursiveTypeBuilder::new();
    define(&mut builder, "T", anonymous(vec![field("a", closed(Type::U8))]));
    define(&mut builder, "T", anonymous(vec![field("b", closed(Type::U8))]));

    assert!(matches!(refused(builder), RecursiveTypeError::DuplicateName(key) if key == "T"));
}

fn ring(count: usize) -> RecursiveTypeBuilder {
    let mut builder = RecursiveTypeBuilder::new();
    for i in 0..count {
        let next = format!("T{:03}", (i + 1) % count);
        define(&mut builder, &format!("T{i:03}"), anonymous(vec![field("next", ptr(&next))]));
    }
    builder
}

#[test]
fn a_group_larger_than_the_cap_is_rejected() {
    let count = MAX_RECURSIVE_GROUP_SIZE + 1;
    assert!(matches!(
        refused(ring(count)),
        RecursiveTypeError::GroupTooLarge(_, n) if n == count
    ));
}

#[test]
fn a_group_at_the_cap_is_accepted() {
    let built = build(ring(MAX_RECURSIVE_GROUP_SIZE));
    assert_eq!(built.len(), MAX_RECURSIVE_GROUP_SIZE);
    assert_eq!(get(&built, "T000").size_in_bytes(), 4);
}

#[test]
fn an_empty_key_is_rejected() {
    let mut builder = RecursiveTypeBuilder::new();
    define(&mut builder, "", anonymous(vec![]));
    assert!(matches!(refused(builder), RecursiveTypeError::EmptyName));
}

#[test]
fn an_invalid_enum_definition_is_rejected() {
    let mut builder = RecursiveTypeBuilder::new();
    builder.define_enum(
        "E".to_string(),
        EnumTemplate::new(
            "E".to_string(),
            Type::U8,
            vec![
                VariantTemplate::c_like("A".to_string(), Some(0)),
                VariantTemplate::new("A".to_string(), ptr("E"), Some(1)),
            ],
        ),
    );
    let error = refused(builder);
    assert!(matches!(&error, RecursiveTypeError::InvalidDefinition(_)));
    assert_eq!(
        error.message(),
        "invalid recursive type: invalid enum variant: 'A' cannot be defined twice in the same enum"
    );
}

#[test]
fn a_definition_that_cannot_be_laid_out_is_rejected() {
    let mut builder = RecursiveTypeBuilder::new();
    let many = TypeTemplate::array(ptr("T"), 0x4000_0000);
    define(&mut builder, "T", anonymous(vec![field("many", many)]));
    assert!(matches!(refused(builder), RecursiveTypeError::TooLarge(key) if key == "T"));
}

#[test]
fn building_forgets_the_definitions() {
    let mut builder = node_builder();
    assert_eq!(builder.build().expect("should build").len(), 1);
    assert_eq!(builder.build().expect("should build").len(), 0);
}

#[test]
fn definitions_without_recursion_are_ordinary_types() {
    let mut builder = RecursiveTypeBuilder::new();
    define(&mut builder, "Outer", named("Outer", vec![field("inner", rec("Inner"))]));
    define(&mut builder, "Inner", named("Inner", vec![field("x", closed(Type::U16))]));
    let built = build(builder);

    let outer = struct_ref(get(&built, "Outer"));
    assert!(!outer.is_recursive());
    assert_eq!(&outer.get().fields()[0].ty, get(&built, "Inner"));
    assert_eq!(outer.size(), 2);
}

#[test]
fn a_template_is_closed_by_what_is_defined() {
    let built = build(node_builder());
    let list = close_template(&TypeTemplate::list(rec("Node")), &built).expect("should close");
    let Type::List(element) = &list else { panic!("expected a list") };
    assert_eq!(element.as_ref(), get(&built, "Node"));

    let error = close_template(&ptr("Missing"), &built).unwrap_err();
    assert!(matches!(error, RecursiveTypeError::UndefinedReference(key) if key == "Missing"));
}

#[test]
fn structs_are_told_from_other_types() {
    let built = build(node_builder());
    let node = struct_ref(get(&built, "Node")).get();
    let ty = Type::Struct(StructRef::Plain(node));
    assert_eq!(StructType::from_type(ty).expect("a struct").fields().len(), 2);
    assert_eq!(StructType::from_type(Type::U8).unwrap_err(), Type::U8);
}

#[test]
fn merged_definitions_unfold_to_what_they_define() {
    let mut builder = RecursiveTypeBuilder::new();
    define(
        &mut builder,
        "even",
        named("Cell", vec![field("value", closed(Type::U32)), field("next", ptr("odd"))]),
    );
    define(
        &mut builder,
        "odd",
        named("Cell", vec![field("value", closed(Type::U32)), field("next", ptr("even"))]),
    );
    let built = build(builder);

    for (key, other) in [("even", "odd"), ("odd", "even")] {
        let unfolded = struct_ref(get(&built, key)).get();
        assert_eq!(unfolded.fields().len(), 2);
        assert_eq!(unfolded.fields()[0].ty, Type::U32);
        assert_eq!(pointee(&unfolded.fields()[1].ty), get(&built, other));
    }
}

#[test]
fn a_completed_recursive_type_orders_after_an_integer() {
    let node = get(&build(node_builder()), "Node").clone();
    let mut builder = RecursiveTypeBuilder::new();
    define(
        &mut builder,
        "holds_a_node",
        named("N", vec![field("x", closed(node)), field("next", ptr("holds_a_byte"))]),
    );
    define(
        &mut builder,
        "holds_a_byte",
        named("N", vec![field("x", closed(Type::I8)), field("next", ptr("holds_a_node"))]),
    );
    let built = build(builder);

    for (key, position) in [("holds_a_byte", 0), ("holds_a_node", 1)] {
        let StructRef::Rec(found) = struct_ref(get(&built, key)) else {
            panic!("expected a recursive type")
        };
        assert_eq!(found.index, position);
        assert_eq!(found.group.defs.len(), 2);
    }
}

#[test]
fn unfolding_keeps_name_size_and_alignment() {
    let built = build(node_builder());
    let node = struct_ref(get(&built, "Node"));
    let unfolded = node.get();
    assert_eq!(unfolded.name(), node.name());
    assert_eq!(unfolded.size(), node.size());
    assert_eq!(unfolded.min_alignment(), node.min_alignment());
    assert_ne!(&Type::Struct(StructRef::Plain(unfolded)), get(&built, "Node"));
}

#[test]
fn completed_types_are_ordered_by_all_that_is_seen_of_them() {
    let mut builder = node_builder();
    let call = TypeTemplate::function(
        CallConv::Extern("a \"b\"\n".to_string()),
        vec![ptr("List"), closed(Type::Felt)],
        vec![TypeTemplate::array(TypeTemplate::list(rec("Node")), 3)],
    );
    builder.define_enum(
        "List".to_string(),
        EnumTemplate::new(
            "List".to_string(),
            Type::U16,
            vec![
                VariantTemplate::c_like("Nil".to_string(), Some(7)),
                VariantTemplate::new("Cons".to_string(), call, None),
            ],
        ),
    );
    let variants = vec![
        Variant::new("A".to_string(), Type::U64, None),
        Variant::c_like("B".to_string(), Some(9)),
    ];
    let choice = EnumType::new("Choice".to_string(), Type::U8, variants).expect("an enum");
    let choice = Type::Enum(EnumRef::Plain(Arc::new(choice)));
    let inner = StructTemplate::new(TypeRepr::packed(2), vec![field("p", ptr("Node"))]);
    define(
        &mut builder,
        "Outer",
        anonymous(vec![
            field("inner", TypeTemplate::Struct(Box::new(inner))),
            field("self", ptr("Outer")),
            field("closed", closed(Type::U64)),
            field("choice", closed(choice)),
        ]),
    );
    let built = build(builder);
    for key in ["Node", "List", "Outer"] {
        let ty = get(&built, key);
        let mut shown = Vec::new();
        show_type(ty, &mut shown);
        assert_eq!(String::from_utf8(shown).expect("a text"), format!("{ty:?}"));
    }
}

#[test]
fn completed_types_of_one_name_order_by_the_text_of_their_size() {
    fn node(value: Type) -> Type {
        let mut builder = RecursiveTypeBuilder::new();
        let fields = vec![field("value", closed(value)), field("next", ptr("Node"))];
        define(&mut builder, "Node", named("Node", fields));
        let ty = get(&build(builder), "Node").clone();
        ty
    }
    let mut builder = RecursiveTypeBuilder::new();
    for (key, other, held) in [("a", "b", Type::U32), ("b", "a", Type::U64)] {
        let fields = vec![field("x", closed(node(held))), field("next", ptr(other))];
        define(&mut builder, key, named("N", fields));
    }
    let built = build(builder);

    // Sizes are 8 and 12, and the text of the latter comes first.
    for (key, position) in [("b", 0), ("a", 1)] {
        let StructRef::Rec(found) = struct_ref(get(&built, key)) else {
            panic!("expected a recursive type")
        };
        assert_eq!(found.index, position);
    }
}
