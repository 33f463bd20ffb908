//! Reading recursive groups from bytes.
use vstd::prelude::*;

use crate::hir::codec::decode::{
    entry_faults_stay, field_faults_stay, read_type, variant_faults_stay,
};
use crate::hir::codec::encode::{discriminant_width, width_of, TAG_RECURSIVE_REF, TAG_VARIADIC};
use crate::hir::codec::parse::{
    assembled, at_depth, at_depth_parses, least_maximum, least_size, least_sum, order_fault,
    oversized_array, parse, parse_bodies, parse_compound, parse_entries, parse_entry, parse_enum,
    parse_field, parse_fields, parse_function, parse_group, parse_kinds, parse_open, parse_payload,
    parse_struct, parse_unfold, parse_variant, parse_variants, slot_key, slot_keys, Counted,
    DecodeFault, Inner, Input,
};
use crate::hir::codec::reader::{stepped, DecodeError, Reader};
use crate::hir::enum_type::{can_discriminate, InvalidEnumTypeError};
use crate::hir::layout::{measure, round_up};
use crate::hir::metrics::metrics_unfold;
use crate::hir::recursive::builder::{def_bodies, def_keys, defs_wf};
use crate::hir::recursive::definitions::{Definitions, RecursiveTypeBuilder};
use crate::hir::recursive::rules::build;
use crate::hir::recursive::scope::{meaning, texts, Meaning};
use crate::hir::recursive::template::{
    enum_template_shape, enum_template_wf, field_template_shapes, struct_template_shape,
    struct_template_wf, template_shape, template_shape_unfold, template_shapes, template_wf,
    variant_template_shape, variant_template_shapes, EnumTemplate, FieldTemplate, FunctionTemplate,
    StructTemplate, TypeTemplate, VariantTemplate,
};
use crate::hir::shape::{FieldShape, FunctionShape, Shape, VariantShape};
use crate::hir::types::{
    abi_shape, enum_shape, field_shapes, label, shape_unfold, variant_shapes, wf, wf_unfold,
    EnumRef, EnumType, StructRef, StructType, Type, MAX_RECURSIVE_GROUP_SIZE,
};
use crate::text::digit;

verus! {

// ---------------------------------------------------------------------------------------------
// Sizes
// ---------------------------------------------------------------------------------------------

/// A size, if it fits 64 bits.
pub open spec fn sized_as(size: Option<u64>, expected: Option<nat>) -> bool {
    match size {
        Some(size) => expected == Some(size as nat),
        None => expected is None,
    }
}

/// The size of a type without parts, or of a definition of another group, padded to its
/// alignment.
fn padded_size(t: &Type) -> (size: Option<u64>)
    requires
        wf(*t),
        !(t is Ptr || t is Array || t is List || t is Function),
        !(t matches Type::Struct(StructRef::Plain(_))),
        !(t matches Type::Enum(EnumRef::Plain(_))),
    ensures
        sized_as(size, least_size(t@)),
{
    proof {
        shape_unfold(t);
        wf_unfold(t);
        metrics_unfold(t@, Seq::empty());
    }
    match measure(t) {
        Some(measure) => {
            let size: u64 = measure.bytes();
            round_up(size, measure.align as u64)
        },
        None => None,
    }
}

/// How large a completed type inside a group is at least.
fn known_size_of_type(t: &Type) -> (size: Option<u64>)
    requires
        wf(*t),
    ensures
        sized_as(size, least_size(t@)),
    decreases *t,
{
    proof {
        shape_unfold(t);
        wf_unfold(t);
    }
    match t {
        Type::Ptr(_) => Some(4),
        Type::Function(_) => Some(4),
        Type::List(_) => Some(8),
        Type::Array(a) => match known_size_of_type(&a.ty) {
            Some(size) => size.checked_mul(a.len as u64),
            None => None,
        },
        Type::Struct(StructRef::Plain(s)) => known_size_of_struct(s),
        Type::Enum(EnumRef::Plain(e)) => known_size_of_enum(e),
        _ => padded_size(t),
    }
}

proof fn least_sum_fails(fields: Seq<FieldShape>, i: int)
    requires
        0 <= i <= fields.len(),
        least_sum(fields.take(i)) is None,
    ensures
        least_sum(fields) is None,
    decreases fields.len() - i,
{
    if i < fields.len() {
        assert(fields.take(i + 1).drop_last() =~= fields.take(i));
        least_sum_fails(fields, i + 1);
    } else {
        assert(fields.take(i) =~= fields);
    }
}

proof fn least_maximum_fails(variants: Seq<VariantShape>, discriminant: nat, i: int)
    requires
        0 <= i <= variants.len(),
        least_maximum(variants.take(i), discriminant) is None,
    ensures
        least_maximum(variants, discriminant) is None,
    decreases variants.len() - i,
{
    if i < variants.len() {
        assert(variants.take(i + 1).drop_last() =~= variants.take(i));
        least_maximum_fails(variants, discriminant, i + 1);
    } else {
        assert(variants.take(i) =~= variants);
    }
}

fn known_size_of_struct(s: &StructType) -> (size: Option<u64>)
    requires
        forall|i: int| 0 <= i < s.fields@.len() ==> wf((#[trigger] s.fields@[i]).ty),
    ensures
        sized_as(size, least_sum(field_shapes(s.fields@))),
    decreases *s,
{
    let ghost all = field_shapes(s.fields@);
    let mut total: u64 = 0;
    let mut i: usize = 0;
    while i < s.fields.len()
        invariant
            i <= s.fields@.len(),
            all == field_shapes(s.fields@),
            forall|i: int| 0 <= i < s.fields@.len() ==> wf((#[trigger] s.fields@[i]).ty),
            least_sum(all.take(i as int)) == Some(total as nat),
        decreases s.fields@.len() - i,
    {
        assert(all.take(i + 1).drop_last() =~= all.take(i as int));
        assert(all.take(i + 1)[i as int] == all[i as int]);
        let next: Option<u64> = match known_size_of_type(&s.fields[i].ty) {
            Some(size) => total.checked_add(size),
            None => None,
        };
        match next {
            Some(next) => {
                total = next;
            },
            None => {
                proof {
                    least_sum_fails(all, i + 1);
                }
                return None;
            },
        }
        i += 1;
    }
    assert(all.take(s.fields@.len() as int) =~= all);
    Some(total)
}

fn known_size_of_enum(e: &EnumType) -> (size: Option<u64>)
    requires
        forall|i: int|
            0 <= i < e.variants@.len() ==> ((#[trigger] e.variants@[i]).value matches Some(value)
                ==> wf(value)),
    ensures
        sized_as(size, least_size(Shape::Enum(enum_shape(*e)))),
    decreases *e,
{
    let ghost all = variant_shapes(e.variants@);
    let width: usize = width_of(&e.discriminant);
    if e.variants.len() == 0 {
        return Some(0);
    }
    let mut total: u64 = width as u64;
    let mut i: usize = 0;
    while i < e.variants.len()
        invariant
            i <= e.variants@.len(),
            all == variant_shapes(e.variants@),
            forall|i: int|
                0 <= i < e.variants@.len() ==> ((#[trigger] e.variants@[i]).value matches Some(
                    value,
                ) ==> wf(value)),
            width == discriminant_width(e.discriminant@),
            least_maximum(all.take(i as int), width as nat) == Some(total as nat),
        decreases e.variants@.len() - i,
    {
        assert(all.take(i + 1).drop_last() =~= all.take(i as int));
        assert(all.take(i + 1)[i as int] == all[i as int]);
        if let Some(value) = &e.variants[i].value {
            match known_size_of_type(value) {
                Some(size) => {
                    if total < size {
                        total = size;
                    }
                },
                None => {
                    proof {
                        least_maximum_fails(all, width as nat, i + 1);
                    }
                    return None;
                },
            }
        }
        i += 1;
    }
    assert(all.take(e.variants@.len() as int) =~= all);
    Some(total)
}

/// How large a template is at least, where that does not depend on a definition still being
/// read.
fn known_min_size(t: &TypeTemplate) -> (size: Option<u64>)
    requires
        template_wf(*t),
    ensures
        sized_as(size, least_size(t@)),
    decreases *t,
{
    proof {
        template_shape_unfold(t);
        reveal(template_wf);
    }
    match t {
        TypeTemplate::Type(ty) => known_size_of_type(ty),
        TypeTemplate::Rec(_) => None,
        // References have a fixed size whatever they refer to.
        TypeTemplate::Ptr(_, _) => Some(4),
        TypeTemplate::Function(_) => Some(4),
        TypeTemplate::List(_) => Some(8),
        TypeTemplate::Array(element, len) => match known_min_size(element) {
            Some(size) => size.checked_mul(*len as u64),
            None => None,
        },
        TypeTemplate::Struct(s) => known_min_size_of_struct(s),
        TypeTemplate::Enum(e) => known_min_size_of_enum(e),
    }
}

/// The sizes of the fields of a struct together.
fn known_min_size_of_struct(s: &StructTemplate) -> (size: Option<u64>)
    requires
        struct_template_wf(*s),
    ensures
        sized_as(size, least_sum(field_template_shapes(s.fields@))),
    decreases *s,
{
    let ghost all = field_template_shapes(s.fields@);
    let mut total: u64 = 0;
    let mut i: usize = 0;
    while i < s.fields.len()
        invariant
            i <= s.fields@.len(),
            struct_template_wf(*s),
            all == field_template_shapes(s.fields@),
            least_sum(all.take(i as int)) == Some(total as nat),
        decreases s.fields@.len() - i,
    {
        assert(all.take(i + 1).drop_last() =~= all.take(i as int));
        assert(all.take(i + 1)[i as int] == all[i as int]);
        let next: Option<u64> = match known_min_size(&s.fields[i].ty) {
            Some(size) => total.checked_add(size),
            None => None,
        };
        match next {
            Some(next) => {
                total = next;
            },
            None => {
                proof {
                    least_sum_fails(all, i + 1);
                }
                return None;
            },
        }
        i += 1;
    }
    assert(all.take(s.fields@.len() as int) =~= all);
    Some(total)
}

/// The largest of the payloads of an enum, or its discriminant. Without variants it takes no room.
fn known_min_size_of_enum(e: &EnumTemplate) -> (size: Option<u64>)
    requires
        enum_template_wf(*e),
    ensures
        sized_as(size, least_size(Shape::Enum(enum_template_shape(*e)))),
    decreases *e,
{
    let ghost all = variant_template_shapes(e.variants@);
    let width: usize = width_of(&e.discriminant);
    if e.variants.len() == 0 {
        return Some(0);
    }
    let mut total: u64 = width as u64;
    let mut i: usize = 0;
    while i < e.variants.len()
        invariant
            i <= e.variants@.len(),
            enum_template_wf(*e),
            all == variant_template_shapes(e.variants@),
            width == discriminant_width(e.discriminant@),
            least_maximum(all.take(i as int), width as nat) == Some(total as nat),
        decreases e.variants@.len() - i,
    {
        assert(all.take(i + 1).drop_last() =~= all.take(i as int));
        assert(all.take(i + 1)[i as int] == all[i as int]);
        assert(all[i as int] == variant_template_shape(e.variants@[i as int]));
        if let Some(value) = &e.variants[i].value {
            match known_min_size(value) {
                Some(size) => {
                    if total < size {
                        total = size;
                    }
                },
                None => {
                    proof {
                        least_maximum_fails(all, width as nat, i + 1);
                    }
                    return None;
                },
            }
        }
        i += 1;
    }
    assert(all.take(e.variants@.len() as int) =~= all);
    Some(total)
}

/// Whether an array of `len` elements is too large, as far as that is known.
fn is_oversized(element: &TypeTemplate, len: usize, Ghost(n): Ghost<nat>) -> (oversized: bool)
    requires
        template_wf(*element),
    ensures
        oversized == oversized_array(element@, len as nat, Some(n)),
{
    match known_min_size(element) {
        Some(size) => match size.checked_mul(len as u64) {
            Some(total) => total > u32::MAX as u64,
            None => true,
        },
        None => false,
    }
}

// ---------------------------------------------------------------------------------------------
// Templates
// ---------------------------------------------------------------------------------------------

/// The key under which definition `i` of a group is read.
fn slot_name(i: usize) -> (key: String)
    requires
        i < 100,
    ensures
        key@ == slot_key(i as nat),
{
    let mut key: String = "#".to_owned();
    proof {
        reveal_strlit("#");
    }
    if i >= 10 {
        key.append(digit(i / 10));
    }
    key.append(digit(i % 10));
    assert(key@ =~= slot_key(i as nat));
    key
}

/// The keys under which the definitions of a group are read.
fn slot_names(n: usize) -> (keys: Vec<String>)
    requires
        n <= 100,
    ensures
        texts(keys@) == slot_keys(n as nat),
        keys@.len() == n,
{
    let mut keys: Vec<String> = Vec::new();
    let mut i: usize = 0;
    while i < n
        invariant
            i <= n,
            n <= 100,
            keys@.len() == i,
            forall|j: int| 0 <= j < i ==> (#[trigger] keys@[j])@ == slot_key(j as nat),
        decreases n - i,
    {
        keys.push(slot_name(i));
        i += 1;
    }
    assert(texts(keys@) =~= slot_keys(n as nat));
    keys
}

/// Reads a type inside a group, where a back-reference may occur.
fn read_template(source: &mut Reader, keys: &Vec<String>, depth: usize) -> (read: Result<
    TypeTemplate,
    DecodeError,
>)
    requires
        old(source).wf(),
        texts(keys@) == slot_keys(keys@.len()),
    ensures
        final(source).wf(),
        read matches Ok(t) ==> template_wf(t),
        stepped(
            read,
            read->Ok_0@,
            final(source)@,
            parse(old(source)@, depth as nat, Some(keys@.len())),
        ),
    decreases depth, 4nat,
{
    proof {
        parse_unfold(source@, depth as nat, Some(keys@.len()));
        parse_unfold(source@, depth as nat, None);
        reveal(parse_open);
    }
    let tag: u8 = match source.peek() {
        Some(tag) => tag,
        None => {
            return Err(DecodeError::UnexpectedEof);
        },
    };
    if tag == TAG_RECURSIVE_REF {
        if let Err(error) = source.read_byte() {
            return Err(error);
        }
        match source.read_u16() {
            Ok(index) => {
                if (index as usize) < keys.len() {
                    let key: String = keys[index as usize].clone();
                    assert(texts(keys@)[index as int] == key@);
                    let made = TypeTemplate::Rec(key);
                    proof {
                        template_shape_unfold(&made);
                        reveal(template_wf);
                    }
                    Ok(made)
                } else {
                    Err(DecodeError::BackReferenceOutOfRange(index))
                }
            },
            Err(error) => Err(error),
        }
    } else if 16 <= tag && tag <= 21 {
        if depth == 0 {
            return Err(DecodeError::NestingTooDeep);
        }
        match source.read_byte() {
            Ok(tag) => read_template_parts(source, tag, keys, depth - 1),
            Err(error) => Err(error),
        }
    } else {
        match read_type(source, depth) {
            Ok(ty) => {
                let made = TypeTemplate::Type(ty);
                proof {
                    template_shape_unfold(&made);
                    reveal(template_wf);
                }
                Ok(made)
            },
            Err(error) => Err(error),
        }
    }
}

/// Reads what follows the tag of a type with parts.
fn read_template_parts(
    source: &mut Reader,
    tag: u8,
    keys: &Vec<String>,
    depth: usize,
) -> (read: Result<TypeTemplate, DecodeError>)
    requires
        old(source).wf(),
        texts(keys@) == slot_keys(keys@.len()),
        16 <= tag <= 21,
    ensures
        final(source).wf(),
        read matches Ok(t) ==> template_wf(t),
        stepped(
            read,
            read->Ok_0@,
            final(source)@,
            parse_compound(old(source)@, tag, at_depth(depth as nat), Some(keys@.len())),
        ),
    decreases depth, 9nat,
{
    proof {
        reveal(parse_compound);
        at_depth_parses(depth as nat);
        reveal(template_wf);
    }
    let made = if tag == 16 {
        let addrspace = match source.read_addrspace() {
            Ok(addrspace) => addrspace,
            Err(error) => {
                return Err(error);
            },
        };
        match read_template(source, keys, depth) {
            Ok(pointee) => TypeTemplate::Ptr(addrspace, Box::new(pointee)),
            Err(error) => {
                return Err(error);
            },
        }
    } else if tag == 17 {
        match read_open_struct_body(source, keys, depth) {
            Ok(made) => TypeTemplate::Struct(Box::new(made)),
            Err(error) => {
                return Err(error);
            },
        }
    } else if tag == 18 {
        let len: usize = match source.read_count() {
            Ok(len) => len,
            Err(error) => {
                return Err(error);
            },
        };
        match read_template(source, keys, depth) {
            Ok(element) => {
                if is_oversized(&element, len, Ghost(keys@.len())) {
                    return Err(DecodeError::ArrayTooLarge);
                }
                TypeTemplate::Array(Box::new(element), len)
            },
            Err(error) => {
                return Err(error);
            },
        }
    } else if tag == 19 {
        match read_template(source, keys, depth) {
            Ok(element) => TypeTemplate::List(Box::new(element)),
            Err(error) => {
                return Err(error);
            },
        }
    } else if tag == 20 {
        match read_function_template(source, keys, depth) {
            Ok(made) => TypeTemplate::Function(Box::new(made)),
            Err(error) => {
                return Err(error);
            },
        }
    } else {
        match read_open_enum_body(source, keys, depth) {
            Ok(made) => TypeTemplate::Enum(Box::new(made)),
            Err(error) => {
                return Err(error);
            },
        }
    };
    proof {
        template_shape_unfold(&made);
    }
    Ok(made)
}

/// Reads an entry of a signature inside a group, the last of which may be variadic.
fn read_signature_template(
    source: &mut Reader,
    keys: &Vec<String>,
    depth: usize,
    last: bool,
) -> (read: Result<TypeTemplate, DecodeError>)
    requires
        old(source).wf(),
        texts(keys@) == slot_keys(keys@.len()),
    ensures
        final(source).wf(),
        read matches Ok(t) ==> template_wf(t),
        stepped(
            read,
            read->Ok_0@,
            final(source)@,
            parse_entry(old(source)@, at_depth(depth as nat), Some(keys@.len()), last),
        ),
    decreases depth, 5nat,
{
    proof {
        reveal(parse_entry);
        at_depth_parses(depth as nat);
    }
    match source.peek() {
        None => Err(DecodeError::UnexpectedEof),
        Some(tag) => if tag == TAG_VARIADIC {
            match source.read_byte() {
                Ok(_) => if last {
                    let made = TypeTemplate::Type(Type::Variadic);
                    proof {
                        shape_unfold(&Type::Variadic);
                        wf_unfold(&Type::Variadic);
                        template_shape_unfold(&made);
                        reveal(template_wf);
                    }
                    Ok(made)
                } else {
                    Err(DecodeError::VariadicNotLast)
                },
                Err(error) => Err(error),
            }
        } else {
            read_template(source, keys, depth)
        },
    }
}

/// Reads a list of `n` entries of a signature inside a group.
fn read_signature_templates(
    source: &mut Reader,
    keys: &Vec<String>,
    depth: usize,
    n: usize,
) -> (read: Result<Vec<TypeTemplate>, DecodeError>)
    requires
        old(source).wf(),
        texts(keys@) == slot_keys(keys@.len()),
    ensures
        final(source).wf(),
        read matches Ok(types) ==> forall|i: int|
            0 <= i < types@.len() ==> template_wf(#[trigger] types@[i]),
        stepped(
            read,
            template_shapes(read->Ok_0@),
            final(source)@,
            parse_entries(
                old(source)@,
                at_depth(depth as nat),
                Some(keys@.len()),
                n as nat,
                n as nat,
            ),
        ),
    decreases depth, 6nat,
{
    let ghost start = source@;
    let ghost group = Some(keys@.len());
    let mut types: Vec<TypeTemplate> = Vec::new();
    assert(template_shapes(types@) =~= Seq::empty());
    let mut i: usize = 0;
    while i < n
        invariant
            i <= n,
            start == old(source)@,
            source.wf(),
            group == Some(keys@.len()),
            texts(keys@) == slot_keys(keys@.len()),
            forall|j: int| 0 <= j < types@.len() ==> template_wf(#[trigger] types@[j]),
            parse_entries(start, at_depth(depth as nat), group, n as nat, i as nat) == Ok::<
                (Seq<Shape>, Input),
                DecodeFault,
            >((template_shapes(types@), source@)),
        decreases n - i,
    {
        let ghost before = types@;
        match read_signature_template(source, keys, depth, i + 1 == n) {
            Ok(t) => {
                types.push(t);
                assert(template_shapes(types@) =~= template_shapes(before).push(t@));
            },
            Err(error) => {
                proof {
                    entry_faults_stay(
                        start,
                        at_depth(depth as nat),
                        group,
                        n as nat,
                        (i + 1) as nat,
                        n as nat,
                    );
                }
                return Err(error);
            },
        }
        i += 1;
    }
    Ok(types)
}

pub open spec fn function_template_shape(f: FunctionTemplate) -> FunctionShape {
    FunctionShape {
        abi: abi_shape(f.abi),
        params: template_shapes(f.params@),
        results: template_shapes(f.results@),
    }
}

/// Reads a function type inside a group.
fn read_function_template(source: &mut Reader, keys: &Vec<String>, depth: usize) -> (read: Result<
    FunctionTemplate,
    DecodeError,
>)
    requires
        old(source).wf(),
        texts(keys@) == slot_keys(keys@.len()),
    ensures
        final(source).wf(),
        read matches Ok(f) ==> {
            &&& forall|i: int| 0 <= i < f.params@.len() ==> template_wf(#[trigger] f.params@[i])
            &&& forall|i: int| 0 <= i < f.results@.len() ==> template_wf(#[trigger] f.results@[i])
        },
        stepped(
            read,
            function_template_shape(read->Ok_0),
            final(source)@,
            parse_function(old(source)@, at_depth(depth as nat), Some(keys@.len())),
        ),
    decreases depth, 7nat,
{
    proof {
        reveal(parse_function);
    }
    let abi = match source.read_call_conv() {
        Ok(abi) => abi,
        Err(error) => {
            return Err(error);
        },
    };
    let arity: usize = match source.read_counted(Counted::Params) {
        Ok(arity) => arity,
        Err(error) => {
            return Err(error);
        },
    };
    let params = match read_signature_templates(source, keys, depth, arity) {
        Ok(params) => params,
        Err(error) => {
            return Err(error);
        },
    };
    let arity: usize = match source.read_counted(Counted::Results) {
        Ok(arity) => arity,
        Err(error) => {
            return Err(error);
        },
    };
    match read_signature_templates(source, keys, depth, arity) {
        Ok(results) => Ok(FunctionTemplate { abi, params, results }),
        Err(error) => Err(error),
    }
}

pub open spec fn field_template_shape(field: FieldTemplate) -> FieldShape {
    FieldShape { name: label(field.name), ty: template_shape(field.ty) }
}

/// Reads a field inside a group.
fn read_open_field(source: &mut Reader, keys: &Vec<String>, depth: usize) -> (read: Result<
    FieldTemplate,
    DecodeError,
>)
    requires
        old(source).wf(),
        texts(keys@) == slot_keys(keys@.len()),
    ensures
        final(source).wf(),
        read matches Ok(field) ==> template_wf(field.ty),
        stepped(
            read,
            field_template_shape(read->Ok_0),
            final(source)@,
            parse_field(old(source)@, at_depth(depth as nat), Some(keys@.len())),
        ),
    decreases depth, 5nat,
{
    proof {
        reveal(parse_field);
        at_depth_parses(depth as nat);
    }
    let name = match source.read_label() {
        Ok(name) => name,
        Err(error) => {
            return Err(error);
        },
    };
    match read_template(source, keys, depth) {
        Ok(ty) => Ok(FieldTemplate { name, ty }),
        Err(error) => Err(error),
    }
}

/// Reads `n` fields inside a group.
fn read_open_fields(source: &mut Reader, keys: &Vec<String>, depth: usize, n: u8) -> (read: Result<
    Vec<FieldTemplate>,
    DecodeError,
>)
    requires
        old(source).wf(),
        texts(keys@) == slot_keys(keys@.len()),
    ensures
        final(source).wf(),
        read matches Ok(fields) ==> forall|i: int|
            0 <= i < fields@.len() ==> template_wf((#[trigger] fields@[i]).ty),
        stepped(
            read,
            field_template_shapes(read->Ok_0@),
            final(source)@,
            parse_fields(old(source)@, at_depth(depth as nat), Some(keys@.len()), n as nat),
        ),
    decreases depth, 6nat,
{
    let ghost start = source@;
    let ghost group = Some(keys@.len());
    let mut fields: Vec<FieldTemplate> = Vec::new();
    assert(field_template_shapes(fields@) =~= Seq::empty());
    let mut i: u8 = 0;
    while i < n
        invariant
            i <= n,
            start == old(source)@,
            source.wf(),
            group == Some(keys@.len()),
            texts(keys@) == slot_keys(keys@.len()),
            forall|j: int| 0 <= j < fields@.len() ==> template_wf((#[trigger] fields@[j]).ty),
            parse_fields(start, at_depth(depth as nat), group, i as nat) == Ok::<
                (Seq<FieldShape>, Input),
                DecodeFault,
            >((field_template_shapes(fields@), source@)),
        decreases n - i,
    {
        let ghost before = fields@;
        match read_open_field(source, keys, depth) {
            Ok(field) => {
                fields.push(field);
                assert(field_template_shapes(fields@) =~= field_template_shapes(before).push(
                    field_template_shape(field),
                ));
            },
            Err(error) => {
                proof {
                    field_faults_stay(
                        start,
                        at_depth(depth as nat),
                        group,
                        (i + 1) as nat,
                        n as nat,
                    );
                }
                return Err(error);
            },
        }
        i += 1;
    }
    Ok(fields)
}

/// Reads the body of a struct inside a group.
fn read_open_struct_body(source: &mut Reader, keys: &Vec<String>, depth: usize) -> (read: Result<
    StructTemplate,
    DecodeError,
>)
    requires
        old(source).wf(),
        texts(keys@) == slot_keys(keys@.len()),
    ensures
        final(source).wf(),
        read matches Ok(made) ==> struct_template_wf(made),
        stepped(
            read,
            struct_template_shape(read->Ok_0),
            final(source)@,
            parse_struct(old(source)@, at_depth(depth as nat), Some(keys@.len())),
        ),
    decreases depth, 7nat,
{
    proof {
        reveal(parse_struct);
    }
    let name = match source.read_label() {
        Ok(name) => name,
        Err(error) => {
            return Err(error);
        },
    };
    let repr = match source.read_type_repr() {
        Ok(repr) => repr,
        Err(error) => {
            return Err(error);
        },
    };
    let n: u8 = match source.read_byte() {
        Ok(n) => n,
        Err(error) => {
            return Err(error);
        },
    };
    match read_open_fields(source, keys, depth, n) {
        Ok(fields) => Ok(StructTemplate { name, repr, fields }),
        Err(error) => Err(error),
    }
}

/// Reads a payload inside a group, if there is one.
fn read_open_payload(source: &mut Reader, keys: &Vec<String>, depth: usize) -> (read: Result<
    Option<TypeTemplate>,
    DecodeError,
>)
    requires
        old(source).wf(),
        texts(keys@) == slot_keys(keys@.len()),
    ensures
        final(source).wf(),
        read matches Ok(Some(value)) ==> template_wf(value),
        stepped(
            read,
            (match read->Ok_0 {
                Some(value) => Some(template_shape(value)),
                None => None,
            }),
            final(source)@,
            parse_payload(old(source)@, at_depth(depth as nat), Some(keys@.len())),
        ),
    decreases depth, 5nat,
{
    proof {
        reveal(parse_payload);
        at_depth_parses(depth as nat);
    }
    match source.read_flag() {
        Ok(true) => match read_template(source, keys, depth) {
            Ok(value) => Ok(Some(value)),
            Err(error) => Err(error),
        },
        Ok(false) => Ok(None),
        Err(error) => Err(error),
    }
}

/// Reads a variant inside a group.
fn read_open_variant(
    source: &mut Reader,
    keys: &Vec<String>,
    depth: usize,
    width: usize,
) -> (read: Result<VariantTemplate, DecodeError>)
    requires
        old(source).wf(),
        texts(keys@) == slot_keys(keys@.len()),
        width <= 16,
    ensures
        final(source).wf(),
        read matches Ok(variant) ==> (variant.value matches Some(value) ==> template_wf(value)),
        stepped(
            read,
            variant_template_shape(read->Ok_0),
            final(source)@,
            parse_variant(
                old(source)@,
                at_depth(depth as nat),
                Some(keys@.len()),
                width as nat,
            ),
        ),
    decreases depth, 6nat,
{
    proof {
        reveal(parse_variant);
    }
    let name = match source.read_text() {
        Ok(name) => name,
        Err(error) => {
            return Err(error);
        },
    };
    let value = match read_open_payload(source, keys, depth) {
        Ok(value) => value,
        Err(error) => {
            return Err(error);
        },
    };
    match source.read_discriminant_value(width) {
        Ok(discriminant_value) => Ok(VariantTemplate { name, value, discriminant_value }),
        Err(error) => Err(error),
    }
}

/// Reads `n` variants inside a group.
fn read_open_variants(
    source: &mut Reader,
    keys: &Vec<String>,
    depth: usize,
    width: usize,
    n: usize,
) -> (read: Result<Vec<VariantTemplate>, DecodeError>)
    requires
        old(source).wf(),
        texts(keys@) == slot_keys(keys@.len()),
        width <= 16,
    ensures
        final(source).wf(),
        read matches Ok(variants) ==> forall|i: int|
            0 <= i < variants@.len() ==> ((#[trigger] variants@[i]).value matches Some(value)
                ==> template_wf(value)),
        stepped(
            read,
            variant_template_shapes(read->Ok_0@),
            final(source)@,
            parse_variants(
                old(source)@,
                at_depth(depth as nat),
                Some(keys@.len()),
                width as nat,
                n as nat,
            ),
        ),
    decreases depth, 7nat,
{
    let ghost start = source@;
    let ghost group = Some(keys@.len());
    let mut variants: Vec<VariantTemplate> = Vec::new();
    assert(variant_template_shapes(variants@) =~= Seq::empty());
    let mut i: usize = 0;
    while i < n
        invariant
            i <= n,
            width <= 16,
            start == old(source)@,
            source.wf(),
            group == Some(keys@.len()),
            texts(keys@) == slot_keys(keys@.len()),
            forall|j: int|
                0 <= j < variants@.len() ==> ((#[trigger] variants@[j]).value matches Some(value)
                    ==> template_wf(value)),
            parse_variants(start, at_depth(depth as nat), group, width as nat, i as nat) == Ok::<
                (Seq<VariantShape>, Input),
                DecodeFault,
            >((variant_template_shapes(variants@), source@)),
        decreases n - i,
    {
        let ghost before = variants@;
        match read_open_variant(source, keys, depth, width) {
            Ok(variant) => {
                variants.push(variant);
                assert(variant_template_shapes(variants@) =~= variant_template_shapes(before).push(
                    variant_template_shape(variant),
                ));
            },
            Err(error) => {
                proof {
                    variant_faults_stay(
                        start,
                        at_depth(depth as nat),
                        group,
                        width as nat,
                        (i + 1) as nat,
                        n as nat,
                    );
                }
                return Err(error);
            },
        }
        i += 1;
    }
    Ok(variants)
}

/// Reads the body of an enum inside a group.
fn read_open_enum_body(source: &mut Reader, keys: &Vec<String>, depth: usize) -> (read: Result<
    EnumTemplate,
    DecodeError,
>)
    requires
        old(source).wf(),
        texts(keys@) == slot_keys(keys@.len()),
    ensures
        final(source).wf(),
        read matches Ok(made) ==> enum_template_wf(made),
        stepped(
            read,
            enum_template_shape(read->Ok_0),
            final(source)@,
            parse_enum(old(source)@, at_depth(depth as nat), Some(keys@.len())),
        ),
    decreases depth, 8nat,
{
    proof {
        reveal(parse_enum);
        at_depth_parses(depth as nat);
    }
    let name = match source.read_text() {
        Ok(name) => name,
        Err(error) => {
            return Err(error);
        },
    };
    let discriminant = match read_type(source, depth) {
        Ok(discriminant) => discriminant,
        Err(error) => {
            return Err(error);
        },
    };
    if !can_discriminate(&discriminant) {
        return Err(
            DecodeError::InvalidEnum(InvalidEnumTypeError::InvalidDiscriminantType(discriminant)),
        );
    }
    let n: usize = match source.read_counted(Counted::Variants) {
        Ok(n) => n,
        Err(error) => {
            return Err(error);
        },
    };
    let width: usize = width_of(&discriminant);
    match read_open_variants(source, keys, depth, width, n) {
        Ok(variants) => Ok(EnumTemplate { name, discriminant, variants }),
        Err(error) => Err(error),
    }
}

proof fn kind_faults_stay(s: Input, i: nat, n: nat)
    requires
        i <= n,
        parse_kinds(s, i) is Err,
    ensures
        parse_kinds(s, n) == parse_kinds(s, i),
    decreases n,
{
    if i < n {
        kind_faults_stay(s, i, (n - 1) as nat);
    }
}

/// Reads the kinds of `n` definitions: `true` for an enum.
fn read_kinds(source: &mut Reader, n: u16) -> (read: Result<Vec<bool>, DecodeError>)
    requires
        old(source).wf(),
    ensures
        final(source).wf(),
        read matches Ok(kinds) ==> kinds@.len() == n,
        stepped(read, read->Ok_0@, final(source)@, parse_kinds(old(source)@, n as nat)),
{
    let ghost start = source@;
    let mut kinds: Vec<bool> = Vec::new();
    assert(kinds@ =~= Seq::empty());
    let mut i: u16 = 0;
    while i < n
        invariant
            i <= n,
            start == old(source)@,
            source.wf(),
            kinds@.len() == i,
            parse_kinds(start, i as nat) == Ok::<(Seq<bool>, Input), DecodeFault>(
                (kinds@, source@),
            ),
        decreases n - i,
    {
        let next = match source.read_byte() {
            Ok(0) => Ok(false),
            Ok(1) => Ok(true),
            Ok(tag) => Err(DecodeError::InvalidKind(tag)),
            Err(error) => Err(error),
        };
        match next {
            Ok(kind) => {
                kinds.push(kind);
            },
            Err(error) => {
                proof {
                    kind_faults_stay(start, (i + 1) as nat, n as nat);
                }
                return Err(error);
            },
        }
        i += 1;
    }
    Ok(kinds)
}

proof fn body_faults_stay(s: Input, inner: Inner, kinds: Seq<bool>, i: nat, n: nat)
    requires
        i <= n,
        parse_bodies(s, inner, kinds, i) is Err,
    ensures
        parse_bodies(s, inner, kinds, n) == parse_bodies(s, inner, kinds, i),
    decreases n,
{
    if i < n {
        body_faults_stay(s, inner, kinds, i, (n - 1) as nat);
    }
}

/// Reads the bodies of a group as definitions.
fn read_bodies(source: &mut Reader, keys: &Vec<String>, depth: usize, kinds: &Vec<bool>) -> (read:
    Result<RecursiveTypeBuilder, DecodeError>)
    requires
        old(source).wf(),
        texts(keys@) == slot_keys(keys@.len()),
        kinds@.len() == keys@.len(),
    ensures
        final(source).wf(),
        read matches Ok(builder) ==> {
            &&& defs_wf(builder.defs@)
            &&& def_keys(builder.defs@) == slot_keys(keys@.len())
        },
        stepped(
            read,
            def_bodies(read->Ok_0.defs@),
            final(source)@,
            parse_bodies(old(source)@, at_depth(depth as nat), kinds@, kinds@.len()),
        ),
    decreases depth, 9nat,
{
    let ghost start = source@;
    let ghost n = kinds@.len();
    let mut builder = RecursiveTypeBuilder::new();
    assert(def_bodies(builder.defs@) =~= Seq::empty());
    assert(def_keys(builder.defs@) =~= slot_keys(n).take(0));
    let mut i: usize = 0;
    while i < kinds.len()
        invariant
            i <= kinds@.len(),
            n == kinds@.len(),
            kinds@.len() == keys@.len(),
            start == old(source)@,
            source.wf(),
            texts(keys@) == slot_keys(keys@.len()),
            defs_wf(builder.defs@),
            def_keys(builder.defs@) == slot_keys(n).take(i as int),
            parse_bodies(start, at_depth(depth as nat), kinds@, i as nat) == Ok::<
                (Seq<Shape>, Input),
                DecodeFault,
            >((def_bodies(builder.defs@), source@)),
        decreases kinds@.len() - i,
    {
        let key: String = keys[i].clone();
        proof {
            assert(texts(keys@)[i as int] == key@);
            assert(slot_keys(n).take(i + 1) =~= slot_keys(n).take(i as int).push(key@));
        }
        let fault: Option<DecodeError> = if kinds[i] {
            match read_open_enum_body(source, keys, depth) {
                Ok(body) => {
                    builder.define_enum(key, body);
                    None
                },
                Err(error) => Some(error),
            }
        } else {
            match read_open_struct_body(source, keys, depth) {
                Ok(body) => {
                    builder.define_struct(key, body);
                    None
                },
                Err(error) => Some(error),
            }
        };
        if let Some(error) = fault {
            proof {
                body_faults_stay(start, at_depth(depth as nat), kinds@, (i + 1) as nat, n);
            }
            return Err(error);
        }
        i += 1;
    }
    assert(slot_keys(n).take(n as int) =~= slot_keys(n));
    Ok(builder)
}

/// The first definition that was not built as it was written.
fn find_order_fault(built: &Definitions) -> (found: Option<DecodeError>)
    requires
        built.wf(),
    ensures
        match found {
            Some(error) => order_fault(built@.values, 0) == Some(error@),
            None => order_fault(built@.values, 0) is None,
        },
{
    let ghost all = built@.values;
    let n: usize = built.names.meanings.len();
    let mut i: usize = 0;
    while i < n
        invariant
            i <= n,
            n == all.len(),
            n == built.names.meanings@.len(),
            built.wf(),
            all == built@.values,
            order_fault(all, 0) == order_fault(all, i as int),
        decreases n - i,
    {
        assert(all[i as int] == meaning(built.names.meanings@[i as int]));
        assert(built.names.meanings@[i as int] is Done);
        let rec = match &built.names.meanings[i] {
            Meaning::Done(ty) => {
                proof {
                    shape_unfold(ty);
                }
                match ty {
                    Type::Struct(StructRef::Rec(rec)) => Some(rec),
                    Type::Enum(EnumRef::Rec(rec)) => Some(rec),
                    _ => None,
                }
            },
            _ => None,
        };
        match rec {
            Some(rec) => {
                if !(rec.index as usize == i && rec.group.defs.len() == n) {
                    return Some(DecodeError::NotCanonical);
                }
            },
            None => {
                return Some(DecodeError::NotOneGroup);
            },
        }
        i += 1;
    }
    None
}

/// Builds the type that the definitions of a group describe, where `root` selects one of them.
fn assemble_group(builder: RecursiveTypeBuilder, root: u16) -> (made: Result<Type, DecodeError>)
    requires
        defs_wf(builder.defs@),
        def_keys(builder.defs@) == slot_keys(builder.defs@.len()),
        root < builder.defs@.len(),
    ensures
        match made {
            Ok(made) => {
                &&& wf(made)
                &&& assembled(def_bodies(builder.defs@), root as nat) == Ok::<Shape, DecodeFault>(
                    made@,
                )
            },
            Err(error) => assembled(def_bodies(builder.defs@), root as nat) == Err::<
                Shape,
                DecodeFault,
            >(error@),
        },
{
    let mut builder = builder;
    let ghost bodies = def_bodies(builder.defs@);
    assert(def_keys(builder.defs@).len() == bodies.len());
    let built = match builder.build() {
        Ok(built) => built,
        Err(error) => {
            return Err(DecodeError::InvalidGroup(error));
        },
    };
    if let Some(error) = find_order_fault(&built) {
        return Err(error);
    }
    proof {
        assert(built@.keys.len() == built@.values.len());
        assert(built@.values[root as int] == meaning(built.names.meanings@[root as int]));
        assert(built.names.meanings@[root as int] is Done);
    }
    match &built.names.meanings[root as usize] {
        Meaning::Done(ty) => Ok(ty.clone()),
        _ => vstd::pervasive::unreached(),
    }
}

/// Reads what follows the tag of a group, and builds the group anew from its definitions, so that
/// every rule is checked and every layout worked out again.
pub fn read_recursive_group(source: &mut Reader, depth: usize) -> (read: Result<Type, DecodeError>)
    requires
        old(source).wf(),
    ensures
        final(source).wf(),
        read matches Ok(t) ==> wf(t),
        stepped(
            read,
            read->Ok_0@,
            final(source)@,
            parse_group(old(source)@, at_depth(depth as nat)),
        ),
    decreases depth, 10nat,
{
    proof {
        reveal(parse_group);
    }
    let count: u16 = match source.read_u16() {
        Ok(count) => count,
        Err(error) => {
            return Err(error);
        },
    };
    if count == 0 {
        return Err(DecodeError::EmptyGroup);
    }
    if count as usize > MAX_RECURSIVE_GROUP_SIZE {
        return Err(DecodeError::GroupTooLarge(count));
    }
    if let Some(error) = source.exceeded(Counted::Definitions, count as usize) {
        return Err(error);
    }
    let kinds = match read_kinds(source, count) {
        Ok(kinds) => kinds,
        Err(error) => {
            return Err(error);
        },
    };
    let keys = slot_names(count as usize);
    let builder = match read_bodies(source, &keys, depth, &kinds) {
        Ok(builder) => builder,
        Err(error) => {
            return Err(error);
        },
    };
    let root: u16 = match source.read_u16() {
        Ok(root) => root,
        Err(error) => {
            return Err(error);
        },
    };
    if root >= count {
        return Err(DecodeError::RootOutOfRange(root));
    }
    proof {
        assert(def_keys(builder.defs@).len() == builder.defs@.len());
    }
    assemble_group(builder, root)
}

} // verus!
