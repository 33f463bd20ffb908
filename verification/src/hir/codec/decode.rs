//! Reading types from bytes.
use std::sync::Arc;
use vstd::prelude::*;

use crate::hir::codec::encode::{width_of, TAG_RECURSIVE_GROUP, TAG_RECURSIVE_REF, TAG_VARIADIC};
use crate::hir::codec::group::read_recursive_group;
use crate::hir::codec::parse::{
    at_depth, at_depth_parses, oversized_array, parse, parse_atom, parse_closed, parse_compound,
    parse_entries, parse_entry, parse_enum, parse_field, parse_fields, parse_function,
    parse_payload, parse_struct, parse_unfold, parse_variant, parse_variants, Counted, DecodeFault,
    Inner, Input, MAX_TYPE_NESTING,
};
use crate::hir::codec::reader::{stepped, DecodeError, Reader};
use crate::hir::enum_type::{can_discriminate, EnumProblem, InvalidEnumTypeError};
use crate::hir::layout::{measure, round_up};
use crate::hir::metrics::{align_up, field_metrics, metrics, one_sized_field};
use crate::hir::shape::{FieldShape, Shape, VariantShape};
use crate::hir::struct_type::{named_shapes, named_wf, NameAndType};
use crate::hir::types::{
    enum_shape, enum_wf, function_shape, function_wf, label, shape, shape_unfold, shapes,
    struct_shape, struct_wf, variant_shape, variant_shapes, variants_wf, wf, wf_unfold, ArrayType,
    EnumRef, EnumType, FunctionType, PointerType, StructRef, StructType, Type, Variant,
};

verus! {

impl Type {
    /// Reads a type.
    pub fn read_from(source: &mut Reader) -> (read: Result<Type, DecodeError>)
        requires
            old(source).wf(),
        ensures
            final(source).wf(),
            read matches Ok(t) ==> wf(t),
            stepped(
                read,
                read->Ok_0@,
                final(source)@,
                parse(old(source)@, MAX_TYPE_NESTING as nat, None),
            ),
    {
        read_type(source, MAX_TYPE_NESTING)
    }
}

impl FunctionType {
    /// Reads a function type.
    pub fn read_from(source: &mut Reader) -> (read: Result<FunctionType, DecodeError>)
        requires
            old(source).wf(),
        ensures
            final(source).wf(),
            read matches Ok(f) ==> function_wf(f),
            stepped(
                read,
                function_shape(read->Ok_0),
                final(source)@,
                parse_function(old(source)@, at_depth(MAX_TYPE_NESTING as nat), None),
            ),
    {
        read_function(source, MAX_TYPE_NESTING)
    }
}

/// The type that a tag stands for by itself.
fn read_atom(tag: u8) -> (read: Result<Type, DecodeError>)
    ensures
        match read {
            Ok(t) => parse_atom(tag) == Ok::<Shape, DecodeFault>(t@) && wf(t),
            Err(error) => parse_atom(tag) == Err::<Shape, DecodeFault>(error@),
        },
{
    let made = match tag {
        0 => Type::Unknown,
        1 => Type::Never,
        2 => Type::I1,
        3 => Type::I8,
        4 => Type::U8,
        5 => Type::I16,
        6 => Type::U16,
        7 => Type::I32,
        8 => Type::U32,
        9 => Type::I64,
        10 => Type::U64,
        11 => Type::I128,
        12 => Type::U128,
        13 => Type::U256,
        14 => Type::F64,
        15 => Type::Felt,
        _ => {
            return Err(
                if tag == TAG_VARIADIC {
                    DecodeError::VariadicOutsideSignature
                } else if tag == TAG_RECURSIVE_REF {
                    DecodeError::BackReferenceOutsideGroup
                } else {
                    DecodeError::InvalidTag(tag)
                },
            );
        },
    };
    proof {
        shape_unfold(&made);
        wf_unfold(&made);
    }
    Ok(made)
}

/// Reads a type that nests at most `depth` deep.
pub fn read_type(source: &mut Reader, depth: usize) -> (read: Result<Type, DecodeError>)
    requires
        old(source).wf(),
    ensures
        final(source).wf(),
        read matches Ok(t) ==> wf(t),
        stepped(read, read->Ok_0@, final(source)@, parse(old(source)@, depth as nat, None)),
    decreases depth, 0nat,
{
    proof {
        parse_unfold(source@, depth as nat, None);
        reveal(parse_closed);
    }
    let tag: u8 = match source.read_byte() {
        Ok(tag) => tag,
        Err(error) => {
            return Err(error);
        },
    };
    if (16 <= tag && tag <= 21) || tag == TAG_RECURSIVE_GROUP {
        if depth == 0 {
            return Err(DecodeError::NestingTooDeep);
        }
        if tag == TAG_RECURSIVE_GROUP {
            read_recursive_group(source, depth - 1)
        } else {
            read_compound(source, tag, depth - 1)
        }
    } else {
        read_atom(tag)
    }
}

/// Whether an array of `n` elements is larger than 32 bits can count.
fn is_oversized(element: &Type, n: usize) -> (oversized: bool)
    requires
        wf(*element),
    ensures
        oversized == oversized_array(element@, n as nat, None),
{
    let ghost m = metrics(element@, Seq::empty());
    let ghost padded = align_up(m.bytes(), m.align);
    let limit: u64 = u32::MAX as u64;
    match measure(element) {
        None => {
            proof {
                assert(m.bytes() > 0x1_0000_0000);
                assert(padded >= m.bytes()) by {
                    crate::hir::layout::align_bounds(element);
                };
                if n > 0 {
                    assert(padded * n >= padded) by (nonlinear_arith)
                        requires
                            n >= 1,
                            padded >= 0,
                    ;
                } else {
                    assert(padded * n == 0) by (nonlinear_arith)
                        requires
                            n == 0,
                    ;
                }
            }
            n > 0
        },
        Some(measure) => {
            let size: u64 = measure.bytes();
            match round_up(size, measure.align as u64) {
                None => {
                    proof {
                        if n > 0 {
                            assert(padded * n >= padded) by (nonlinear_arith)
                                requires
                                    n >= 1,
                                    padded >= 0,
                            ;
                        } else {
                            assert(padded * n == 0) by (nonlinear_arith)
                                requires
                                    n == 0,
                            ;
                        }
                    }
                    n > 0
                },
                Some(padded) => match padded.checked_mul(n as u64) {
                    Some(total) => total > limit,
                    None => true,
                },
            }
        },
    }
}

/// Reads what follows the tag of a type with parts.
fn read_compound(source: &mut Reader, tag: u8, depth: usize) -> (read: Result<Type, DecodeError>)
    requires
        old(source).wf(),
        16 <= tag <= 21,
    ensures
        final(source).wf(),
        read matches Ok(t) ==> wf(t),
        stepped(
            read,
            read->Ok_0@,
            final(source)@,
            parse_compound(old(source)@, tag, at_depth(depth as nat), None),
        ),
    decreases depth, 8nat,
{
    proof {
        reveal(parse_compound);
        at_depth_parses(depth as nat);
    }
    let made = if tag == 16 {
        let addrspace = match source.read_addrspace() {
            Ok(addrspace) => addrspace,
            Err(error) => {
                return Err(error);
            },
        };
        match read_type(source, depth) {
            Ok(pointee) => Type::Ptr(Arc::new(PointerType { addrspace, pointee })),
            Err(error) => {
                return Err(error);
            },
        }
    } else if tag == 17 {
        match read_struct(source, depth) {
            Ok(made) => Type::Struct(StructRef::Plain(Arc::new(made))),
            Err(error) => {
                return Err(error);
            },
        }
    } else if tag == 18 {
        let len: usize = match source.read_count() {
            Ok(len) => len,
            Err(error) => {
                return Err(error);
            },
        };
        match read_type(source, depth) {
            Ok(ty) => {
                if is_oversized(&ty, len) {
                    return Err(DecodeError::ArrayTooLarge);
                }
                Type::Array(Arc::new(ArrayType { ty, len }))
            },
            Err(error) => {
                return Err(error);
            },
        }
    } else if tag == 19 {
        match read_type(source, depth) {
            Ok(element) => Type::List(Arc::new(element)),
            Err(error) => {
                return Err(error);
            },
        }
    } else if tag == 20 {
        match read_function(source, depth) {
            Ok(made) => Type::Function(Arc::new(made)),
            Err(error) => {
                return Err(error);
            },
        }
    } else {
        match read_enum(source, depth) {
            Ok(made) => Type::Enum(EnumRef::Plain(Arc::new(made))),
            Err(error) => {
                return Err(error);
            },
        }
    };
    proof {
        shape_unfold(&made);
        wf_unfold(&made);
    }
    Ok(made)
}

/// Reads an entry of a signature, the last of which may be variadic.
fn read_signature_type(source: &mut Reader, depth: usize, last: bool) -> (read: Result<
    Type,
    DecodeError,
>)
    requires
        old(source).wf(),
    ensures
        final(source).wf(),
        read matches Ok(t) ==> wf(t),
        stepped(
            read,
            read->Ok_0@,
            final(source)@,
            parse_entry(old(source)@, at_depth(depth as nat), None, last),
        ),
    decreases depth, 1nat,
{
    proof {
        reveal(parse_entry);
        at_depth_parses(depth as nat);
    }
    match source.peek() {
        None => Err(DecodeError::UnexpectedEof),
        Some(tag) => if tag == TAG_VARIADIC {
            match source.read_byte() {
                Ok(_) => if last {
                    let made = Type::Variadic;
                    proof {
                        shape_unfold(&made);
                        wf_unfold(&made);
                    }
                    Ok(made)
                } else {
                    Err(DecodeError::VariadicNotLast)
                },
                Err(error) => Err(error),
            }
        } else {
            read_type(source, depth)
        },
    }
}

pub proof fn entry_faults_stay(
    s: Input,
    inner: Inner,
    group: Option<nat>,
    total: nat,
    i: nat,
    n: nat,
)
    requires
        i <= n,
        parse_entries(s, inner, group, total, i) is Err,
    ensures
        parse_entries(s, inner, group, total, n) == parse_entries(s, inner, group, total, i),
    decreases n,
{
    if i < n {
        entry_faults_stay(s, inner, group, total, i, (n - 1) as nat);
    }
}

/// Reads a list of `n` entries of a signature.
fn read_signature_types(source: &mut Reader, depth: usize, n: usize) -> (read: Result<
    Vec<Type>,
    DecodeError,
>)
    requires
        old(source).wf(),
    ensures
        final(source).wf(),
        read matches Ok(types) ==> forall|i: int|
            0 <= i < types@.len() ==> wf(#[trigger] types@[i]),
        stepped(
            read,
            shapes(read->Ok_0@),
            final(source)@,
            parse_entries(old(source)@, at_depth(depth as nat), None, n as nat, n as nat),
        ),
    decreases depth, 2nat,
{
    let ghost start = source@;
    let mut types: Vec<Type> = Vec::new();
    assert(shapes(types@) =~= Seq::empty());
    let mut i: usize = 0;
    while i < n
        invariant
            i <= n,
            start == old(source)@,
            source.wf(),
            forall|j: int| 0 <= j < types@.len() ==> wf(#[trigger] types@[j]),
            parse_entries(start, at_depth(depth as nat), None, n as nat, i as nat) == Ok::<
                (Seq<Shape>, Input),
                DecodeFault,
            >((shapes(types@), source@)),
        decreases n - i,
    {
        let ghost before = types@;
        match read_signature_type(source, depth, i + 1 == n) {
            Ok(t) => {
                types.push(t);
                assert(shapes(types@) =~= shapes(before).push(t@));
            },
            Err(error) => {
                proof {
                    entry_faults_stay(
                        start,
                        at_depth(depth as nat),
                        None,
                        n as nat,
                        (i + 1) as nat,
                        n as nat,
                    );
                }
                return Err(error);
            },
        }
        i += 1;
    }
    Ok(types)
}

/// Reads a function type.
pub fn read_function(source: &mut Reader, depth: usize) -> (read: Result<
    FunctionType,
    DecodeError,
>)
    requires
        old(source).wf(),
    ensures
        final(source).wf(),
        read matches Ok(f) ==> function_wf(f),
        stepped(
            read,
            function_shape(read->Ok_0),
            final(source)@,
            parse_function(old(source)@, at_depth(depth as nat), None),
        ),
    decreases depth, 3nat,
{
    proof {
        reveal(parse_function);
    }
    let abi = match source.read_call_conv() {
        Ok(abi) => abi,
        Err(error) => {
            return Err(error);
        },
    };
    let arity: usize = match source.read_counted(Counted::Params) {
        Ok(arity) => arity,
        Err(error) => {
            return Err(error);
        },
    };
    let params = match read_signature_types(source, depth, arity) {
        Ok(params) => params,
        Err(error) => {
            return Err(error);
        },
    };
    let arity: usize = match source.read_counted(Counted::Results) {
        Ok(arity) => arity,
        Err(error) => {
            return Err(error);
        },
    };
    match read_signature_types(source, depth, arity) {
        Ok(results) => Ok(FunctionType { abi, params, results }),
        Err(error) => Err(error),
    }
}

/// Reads a field.
fn read_field(source: &mut Reader, depth: usize) -> (read: Result<NameAndType, DecodeError>)
    requires
        old(source).wf(),
    ensures
        final(source).wf(),
        read matches Ok(field) ==> wf(field.ty),
        stepped(
            read,
            (FieldShape { name: label(read->Ok_0.name), ty: shape(read->Ok_0.ty) }),
            final(source)@,
            parse_field(old(source)@, at_depth(depth as nat), None),
        ),
    decreases depth, 1nat,
{
    proof {
        reveal(parse_field);
        at_depth_parses(depth as nat);
    }
    let name = match source.read_label() {
        Ok(name) => name,
        Err(error) => {
            return Err(error);
        },
    };
    match read_type(source, depth) {
        Ok(ty) => {
            let small: bool = match measure(&ty) {
                Some(measure) => measure.bytes() <= u32::MAX as u64,
                None => false,
            };
            if small {
                Ok(NameAndType { name, ty })
            } else {
                Err(DecodeError::FieldTooLarge)
            }
        },
        Err(error) => Err(error),
    }
}

pub proof fn field_faults_stay(s: Input, inner: Inner, group: Option<nat>, i: nat, n: nat)
    requires
        i <= n,
        parse_fields(s, inner, group, i) is Err,
    ensures
        parse_fields(s, inner, group, n) == parse_fields(s, inner, group, i),
    decreases n,
{
    if i < n {
        field_faults_stay(s, inner, group, i, (n - 1) as nat);
    }
}

/// Reads `n` fields.
fn read_fields(source: &mut Reader, depth: usize, n: u8) -> (read: Result<
    Vec<NameAndType>,
    DecodeError,
>)
    requires
        old(source).wf(),
    ensures
        final(source).wf(),
        read matches Ok(fields) ==> named_wf(fields@),
        stepped(
            read,
            named_shapes(read->Ok_0@),
            final(source)@,
            parse_fields(old(source)@, at_depth(depth as nat), None, n as nat),
        ),
    decreases depth, 2nat,
{
    let ghost start = source@;
    let mut fields: Vec<NameAndType> = Vec::new();
    assert(named_shapes(fields@) =~= Seq::empty());
    let mut i: u8 = 0;
    while i < n
        invariant
            i <= n,
            start == old(source)@,
            source.wf(),
            named_wf(fields@),
            parse_fields(start, at_depth(depth as nat), None, i as nat) == Ok::<
                (Seq<FieldShape>, Input),
                DecodeFault,
            >((named_shapes(fields@), source@)),
        decreases n - i,
    {
        let ghost before = fields@;
        match read_field(source, depth) {
            Ok(field) => {
                fields.push(field);
                assert(named_shapes(fields@) =~= named_shapes(before).push(
                    FieldShape { name: label(field.name), ty: shape(field.ty) },
                ));
            },
            Err(error) => {
                proof {
                    field_faults_stay(start, at_depth(depth as nat), None, (i + 1) as nat, n as nat);
                }
                return Err(error);
            },
        }
        i += 1;
    }
    Ok(fields)
}

/// Whether more than one field has a size.
fn several_sized(fields: &Vec<NameAndType>) -> (several: bool)
    requires
        named_wf(fields@),
    ensures
        several == !one_sized_field(field_metrics(named_shapes(fields@), Seq::empty())),
{
    let ghost all = field_metrics(named_shapes(fields@), Seq::empty());
    let mut found: bool = false;
    let ghost mut first: int = 0;
    let mut i: usize = 0;
    while i < fields.len()
        invariant
            i <= fields@.len(),
            named_wf(fields@),
            all == field_metrics(named_shapes(fields@), Seq::empty()),
            found ==> 0 <= first < i && all[first].bytes() != 0,
            found ==> forall|j: int| 0 <= j < i && j != first ==> (#[trigger] all[j]).bytes() == 0,
            !found ==> forall|j: int| 0 <= j < i ==> (#[trigger] all[j]).bytes() == 0,
        decreases fields@.len() - i,
    {
        let field = &fields[i].ty;
        assert(all[i as int] == metrics(field@, Seq::empty()));
        let sized: bool = match measure(field) {
            Some(measure) => measure.bytes() != 0,
            None => true,
        };
        if sized {
            if found {
                assert(all[first].bytes() != 0 && all[i as int].bytes() != 0);
                return true;
            }
            found = true;
            proof {
                first = i as int;
            }
        }
        i += 1;
    }
    false
}

/// Reads a struct.
fn read_struct(source: &mut Reader, depth: usize) -> (read: Result<StructType, DecodeError>)
    requires
        old(source).wf(),
    ensures
        final(source).wf(),
        read matches Ok(made) ==> struct_wf(made),
        stepped(
            read,
            struct_shape(read->Ok_0),
            final(source)@,
            parse_struct(old(source)@, at_depth(depth as nat), None),
        ),
    decreases depth, 3nat,
{
    proof {
        reveal(parse_struct);
    }
    let name = match source.read_label() {
        Ok(name) => name,
        Err(error) => {
            return Err(error);
        },
    };
    let repr = match source.read_type_repr() {
        Ok(repr) => repr,
        Err(error) => {
            return Err(error);
        },
    };
    let n: u8 = match source.read_byte() {
        Ok(n) => n,
        Err(error) => {
            return Err(error);
        },
    };
    let fields = match read_fields(source, depth, n) {
        Ok(fields) => fields,
        Err(error) => {
            return Err(error);
        },
    };
    if repr.is_transparent() && several_sized(&fields) {
        return Err(DecodeError::TransparentFields);
    }
    match StructType::try_from_parts(name, repr, fields) {
        Some(made) => Ok(made),
        None => Err(DecodeError::StructTooLarge),
    }
}

/// Reads a payload, if there is one.
fn read_payload(source: &mut Reader, depth: usize) -> (read: Result<Option<Type>, DecodeError>)
    requires
        old(source).wf(),
    ensures
        final(source).wf(),
        read matches Ok(Some(value)) ==> wf(value),
        stepped(
            read,
            (match read->Ok_0 {
                Some(value) => Some(shape(value)),
                None => None,
            }),
            final(source)@,
            parse_payload(old(source)@, at_depth(depth as nat), None),
        ),
    decreases depth, 1nat,
{
    proof {
        reveal(parse_payload);
        at_depth_parses(depth as nat);
    }
    match source.read_flag() {
        Ok(true) => match read_type(source, depth) {
            Ok(value) => Ok(Some(value)),
            Err(error) => Err(error),
        },
        Ok(false) => Ok(None),
        Err(error) => Err(error),
    }
}

/// Reads a variant.
fn read_variant(source: &mut Reader, depth: usize, width: usize) -> (read: Result<
    Variant,
    DecodeError,
>)
    requires
        old(source).wf(),
        width <= 16,
    ensures
        final(source).wf(),
        read matches Ok(variant) ==> (variant.value matches Some(value) ==> wf(value)),
        stepped(
            read,
            variant_shape(read->Ok_0),
            final(source)@,
            parse_variant(old(source)@, at_depth(depth as nat), None, width as nat),
        ),
    decreases depth, 2nat,
{
    proof {
        reveal(parse_variant);
    }
    let name = match source.read_text() {
        Ok(name) => name,
        Err(error) => {
            return Err(error);
        },
    };
    let value = match read_payload(source, depth) {
        Ok(value) => value,
        Err(error) => {
            return Err(error);
        },
    };
    match source.read_discriminant_value(width) {
        Ok(discriminant_value) => Ok(Variant { name, discriminant_value, value }),
        Err(error) => Err(error),
    }
}

pub proof fn variant_faults_stay(
    s: Input,
    inner: Inner,
    group: Option<nat>,
    width: nat,
    i: nat,
    n: nat,
)
    requires
        i <= n,
        parse_variants(s, inner, group, width, i) is Err,
    ensures
        parse_variants(s, inner, group, width, n) == parse_variants(s, inner, group, width, i),
    decreases n,
{
    if i < n {
        variant_faults_stay(s, inner, group, width, i, (n - 1) as nat);
    }
}

/// Reads `n` variants.
fn read_variants(source: &mut Reader, depth: usize, width: usize, n: usize) -> (read: Result<
    Vec<Variant>,
    DecodeError,
>)
    requires
        old(source).wf(),
        width <= 16,
    ensures
        final(source).wf(),
        read matches Ok(variants) ==> variants_wf(variants@),
        stepped(
            read,
            variant_shapes(read->Ok_0@),
            final(source)@,
            parse_variants(old(source)@, at_depth(depth as nat), None, width as nat, n as nat),
        ),
    decreases depth, 3nat,
{
    let ghost start = source@;
    let mut variants: Vec<Variant> = Vec::new();
    assert(variant_shapes(variants@) =~= Seq::empty());
    let mut i: usize = 0;
    while i < n
        invariant
            i <= n,
            width <= 16,
            start == old(source)@,
            source.wf(),
            variants_wf(variants@),
            parse_variants(start, at_depth(depth as nat), None, width as nat, i as nat) == Ok::<
                (Seq<VariantShape>, Input),
                DecodeFault,
            >((variant_shapes(variants@), source@)),
        decreases n - i,
    {
        let ghost before = variants@;
        match read_variant(source, depth, width) {
            Ok(variant) => {
                variants.push(variant);
                assert(variant_shapes(variants@) =~= variant_shapes(before).push(
                    variant_shape(variant),
                ));
            },
            Err(error) => {
                proof {
                    variant_faults_stay(
                        start,
                        at_depth(depth as nat),
                        None,
                        width as nat,
                        (i + 1) as nat,
                        n as nat,
                    );
                }
                return Err(error);
            },
        }
        i += 1;
    }
    Ok(variants)
}

/// Reads an enum.
fn read_enum(source: &mut Reader, depth: usize) -> (read: Result<EnumType, DecodeError>)
    requires
        old(source).wf(),
    ensures
        final(source).wf(),
        read matches Ok(made) ==> enum_wf(made),
        stepped(
            read,
            enum_shape(read->Ok_0),
            final(source)@,
            parse_enum(old(source)@, at_depth(depth as nat), None),
        ),
    decreases depth, 4nat,
{
    proof {
        reveal(parse_enum);
        at_depth_parses(depth as nat);
    }
    let name = match source.read_text() {
        Ok(name) => name,
        Err(error) => {
            return Err(error);
        },
    };
    let discriminant = match read_type(source, depth) {
        Ok(discriminant) => discriminant,
        Err(error) => {
            return Err(error);
        },
    };
    if !can_discriminate(&discriminant) {
        return Err(
            DecodeError::InvalidEnum(InvalidEnumTypeError::InvalidDiscriminantType(discriminant)),
        );
    }
    let n: usize = match source.read_count() {
        Ok(n) => n,
        Err(error) => {
            return Err(error);
        },
    };
    let width: usize = width_of(&discriminant);
    let variants = match read_variants(source, depth, width, n) {
        Ok(variants) => variants,
        Err(error) => {
            return Err(error);
        },
    };
    match EnumType::try_new(name, discriminant, variants) {
        Ok(made) => Ok(made),
        Err(EnumProblem::Invalid(error)) => Err(DecodeError::InvalidEnum(error)),
        Err(EnumProblem::TooLarge) => Err(DecodeError::EnumTooLarge),
    }
}

} // verus!
