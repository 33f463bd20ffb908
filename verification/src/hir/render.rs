//! How types are laid out as text.
use miden_formatting::prettier::{indent, nl, text as native_text, Document as NativeDocument};
use vstd::prelude::*;

use crate::hir::shape::{
    AbiShape, AddressSpace, EnumShape, FieldShape, FunctionShape, Shape, StructShape, TypeRepr,
    VariantShape,
};
use crate::hir::types::{
    abi_shape, enum_shape, field_shapes, function_shape, label, shape, shape_unfold, shapes,
    struct_shape, variant_shapes, ArrayType, CallConv, EnumRef, EnumType,
    FunctionType, OpenAggregate, PointerType, RecTypeRef, StructField, StructRef, StructType, Type,
    Variant,
};
use crate::text::{decimal_text, push_number};

verus! {

// ---------------------------------------------------------------------------------------------
// Layouts
// ---------------------------------------------------------------------------------------------

/// How a text may be laid out.
#[verifier::ext_equal]
pub enum Layout {
    Empty,
    Newline,
    Text(Seq<char>),
    /// One after the other.
    Both(Box<Layout>, Box<Layout>),
    /// Indented after each line break.
    Indented(u32, Box<Layout>),
    /// The first, where it fits the line; else the second.
    Either(Box<Layout>, Box<Layout>),
}

pub open spec fn both(a: Layout, b: Layout) -> Layout {
    Layout::Both(Box::new(a), Box::new(b))
}

/// A text as it is.
pub open spec fn plain(text: &str) -> Layout {
    Layout::Text(text@)
}

/// The items, separated by commas.
pub open spec fn in_line(items: Seq<Layout>) -> Layout
    decreases items.len(),
{
    if items.len() == 0 {
        Layout::Empty
    } else if items.len() == 1 {
        items[0]
    } else {
        both(both(in_line(items.drop_last()), plain(", ")), items.last())
    }
}

/// The items behind an opening text, separated by commas.
pub open spec fn behind(opening: Layout, items: Seq<Layout>) -> Layout
    decreases items.len(),
{
    if items.len() == 0 {
        opening
    } else if items.len() == 1 {
        both(opening, items[0])
    } else {
        both(both(behind(opening, items.drop_last()), plain(", ")), items.last())
    }
}

/// The items, each on a line of its own.
pub open spec fn line_by_line(items: Seq<Layout>) -> Layout
    decreases items.len(),
{
    if items.len() == 0 {
        Layout::Empty
    } else if items.len() == 1 {
        both(Layout::Newline, items[0])
    } else {
        both(both(line_by_line(items.drop_last()), Layout::Newline), items.last())
    }
}

/// The items between braces, on one line or line by line.
pub open spec fn braced(items: Seq<Layout>) -> Layout {
    both(
        both(
            plain("{"),
            Layout::Either(
                Box::new(in_line(items)),
                Box::new(Layout::Indented(4, Box::new(line_by_line(items)))),
            ),
        ),
        plain("}"),
    )
}

/// The name of a type without parts.
pub open spec fn atom_name(t: Shape) -> Seq<char> {
    match t {
        Shape::Unknown => "?"@,
        Shape::Never => "!"@,
        Shape::Variadic => "..."@,
        Shape::I1 => "i1"@,
        Shape::I8 => "i8"@,
        Shape::U8 => "u8"@,
        Shape::I16 => "i16"@,
        Shape::U16 => "u16"@,
        Shape::I32 => "i32"@,
        Shape::U32 => "u32"@,
        Shape::I64 => "i64"@,
        Shape::U64 => "u64"@,
        Shape::I128 => "i128"@,
        Shape::U128 => "u128"@,
        Shape::U256 => "u256"@,
        Shape::F64 => "f64"@,
        Shape::Felt => "felt"@,
        _ => Seq::empty(),
    }
}

pub open spec fn addrspace_name(addrspace: AddressSpace) -> Seq<char> {
    match addrspace {
        AddressSpace::Byte => "byte"@,
        AddressSpace::Element => "element"@,
    }
}

pub open spec fn repr_layout(repr: TypeRepr) -> Layout {
    match repr {
        TypeRepr::Default => Layout::Empty,
        TypeRepr::Transparent => plain("transparent"),
        TypeRepr::Align(align) => Layout::Text(
            "align("@ + decimal_text(align as nat) + ")"@,
        ),
        TypeRepr::Packed(align) => Layout::Text(
            "packed("@ + decimal_text(align as nat) + ")"@,
        ),
    }
}

pub open spec fn abi_name(abi: AbiShape) -> Seq<char> {
    match abi {
        AbiShape::Fast => "fast"@,
        AbiShape::C => "C"@,
        AbiShape::Wasm => "wasm"@,
        AbiShape::ComponentModel => "component-model"@,
        AbiShape::Extern(name) => name,
    }
}

/// A recursive type is shown by its name, so that showing it comes to an end.
pub open spec fn named_layout(body: Shape) -> Layout {
    match body {
        Shape::Struct(s) => match s.name {
            Some(name) => Layout::Text("struct "@ + name),
            None => plain("struct <anon>"),
        },
        Shape::Enum(e) => Layout::Text("enum "@ + e.name),
        _ => Layout::Empty,
    }
}

/// How a type is shown.
pub open spec fn layout_of(t: Shape) -> Layout
    decreases t,
{
    match t {
        Shape::Ptr(addrspace, pointee) => both(
            both(
                both(
                    both(plain("ptr<"), Layout::Text(addrspace_name(addrspace))),
                    plain(", "),
                ),
                layout_of(*pointee),
            ),
            plain(">"),
        ),
        Shape::Struct(s) => struct_layout(s),
        Shape::Enum(e) => enum_layout(e),
        Shape::Array(element, n) => both(
            both(
                both(both(plain("["), layout_of(*element)), plain("; ")),
                Layout::Text(decimal_text(n)),
            ),
            plain("]"),
        ),
        Shape::List(element) => both(both(plain("list<"), layout_of(*element)), plain(">")),
        Shape::Function(f) => function_layout(f),
        Shape::Rec(definitions, i) => if i < definitions.len() {
            named_layout(definitions[i as int])
        } else {
            Layout::Empty
        },
        _ => Layout::Text(atom_name(t)),
    }
}

pub open spec fn layouts(types: Seq<Shape>) -> Seq<Layout>
    decreases types,
{
    if types.len() == 0 {
        Seq::empty()
    } else {
        layouts(types.drop_last()).push(layout_of(types[types.len() - 1]))
    }
}

/// How a function type is shown: its convention, its parameters, and its results if it has any.
pub open spec fn function_layout(f: FunctionShape) -> Layout
    decreases f,
{
    let head = both(
        both(
            both(plain("extern"), Layout::Text(" \""@ + abi_name(f.abi) + "\" "@)),
            plain("fn"),
        ),
        both(behind(plain("("), layouts(f.params)), plain(")")),
    );
    if f.results.len() == 0 {
        head
    } else {
        both(both(head, plain(" -> ")), in_line(layouts(f.results)))
    }
}

/// How a struct is shown: its name and its representation where it has them, and its fields.
pub open spec fn struct_layout(s: StructShape) -> Layout
    decreases s,
{
    let name = match s.name {
        Some(name) => both(Layout::Text(name), plain(" ")),
        None => Layout::Empty,
    };
    let titled = both(plain("struct "), name);
    let header = if s.repr is Default {
        titled
    } else {
        both(both(both(titled, plain("#[repr(")), repr_layout(s.repr)), plain(")] "))
    };
    both(header, braced(field_layouts(s.fields)))
}

pub open spec fn field_layout(name: Option<Seq<char>>, ty: Layout) -> Layout {
    match name {
        Some(name) => both(both(Layout::Text(name), plain(" : ")), ty),
        None => ty,
    }
}

pub open spec fn field_layouts(fields: Seq<FieldShape>) -> Seq<Layout>
    decreases fields,
{
    if fields.len() == 0 {
        Seq::empty()
    } else {
        let last = fields[fields.len() - 1];
        field_layouts(fields.drop_last()).push(field_layout(last.name, layout_of(last.ty)))
    }
}

/// How an enum is shown: its name, its discriminant and its variants.
pub open spec fn enum_layout(e: EnumShape) -> Layout
    decreases e,
{
    both(
        both(
            both(both(plain("enum "), Layout::Text(e.name)), plain(" : ")),
            layout_of(*e.discriminant),
        ),
        braced(variant_layouts(e.variants)),
    )
}

pub open spec fn variant_layout(
    name: Seq<char>,
    value: Option<Layout>,
    discriminant_value: Option<u128>,
) -> Layout {
    let variant = match value {
        Some(value) => both(both(both(Layout::Text(name), plain("(")), value), plain(")")),
        None => Layout::Text(name),
    };
    match discriminant_value {
        Some(value) => both(
            both(variant, plain(" = ")),
            Layout::Text(decimal_text(value as nat)),
        ),
        None => variant,
    }
}

pub open spec fn variant_layouts(variants: Seq<VariantShape>) -> Seq<Layout>
    decreases variants,
{
    if variants.len() == 0 {
        Seq::empty()
    } else {
        let last = variants[variants.len() - 1];
        variant_layouts(variants.drop_last()).push(
            variant_layout(
                last.name,
                match last.value {
                    Some(value) => Some(layout_of(value)),
                    None => None,
                },
                last.discriminant_value,
            ),
        )
    }
}

// ---------------------------------------------------------------------------------------------
// Documents
// ---------------------------------------------------------------------------------------------

/// How a text may be laid out.
#[derive(Debug, PartialEq, Eq)]
pub enum Document {
    Empty,
    Newline,
    Text(String),
    /// One after the other.
    Concat(Box<Document>, Box<Document>),
    /// Indented after each line break.
    Indent(u32, Box<Document>),
    /// The first, where it fits the line; else the second.
    Choice(Box<Document>, Box<Document>),
}

impl Document {
    pub open spec fn view(&self) -> Layout
        decreases *self,
    {
        match *self {
            Document::Empty => Layout::Empty,
            Document::Newline => Layout::Newline,
            Document::Text(text) => Layout::Text(text@),
            Document::Concat(a, b) => both(a.view(), b.view()),
            Document::Indent(by, inner) => Layout::Indented(by, Box::new(inner.view())),
            Document::Choice(a, b) => Layout::Either(Box::new(a.view()), Box::new(b.view())),
        }
    }

    /// A copy.
    pub fn copy(&self) -> (copy: Document)
        ensures
            copy@ == self@,
        decreases *self,
    {
        match self {
            Document::Empty => Document::Empty,
            Document::Newline => Document::Newline,
            Document::Text(text) => Document::Text(text.clone()),
            Document::Concat(a, b) => Document::Concat(Box::new(a.copy()), Box::new(b.copy())),
            Document::Indent(by, inner) => Document::Indent(*by, Box::new(inner.copy())),
            Document::Choice(a, b) => Document::Choice(Box::new(a.copy()), Box::new(b.copy())),
        }
    }

    /// The deepest indentation of this document, and the number of characters of all its parts.
    fn extent(&self) -> (extent: (u64, u64))
        ensures
            extent.0 == if indentation(self@) > u64::MAX {
                u64::MAX as nat
            } else {
                indentation(self@)
            },
            extent.1 == if characters(self@) > u64::MAX {
                u64::MAX as nat
            } else {
                characters(self@)
            },
        decreases *self,
    {
        match self {
            Document::Empty => (0, 0),
            Document::Newline => (0, 0),
            Document::Text(text) => (0, text.as_str().unicode_len() as u64),
            Document::Concat(a, b) => {
                let (x, y) = (a.extent(), b.extent());
                (if x.0 < y.0 {
                    y.0
                } else {
                    x.0
                }, x.1.saturating_add(y.1))
            },
            Document::Indent(by, inner) => {
                let x = inner.extent();
                (x.0.saturating_add(*by as u64), x.1)
            },
            Document::Choice(a, b) => {
                let (x, y) = (a.extent(), b.extent());
                (if x.0 < y.0 {
                    y.0
                } else {
                    x.0
                }, x.1.saturating_add(y.1))
            },
        }
    }

    /// Whether this document is neither too deep nor too long to be printed.
    pub fn is_printable(&self) -> (is: bool)
        ensures
            is == printable(self@),
    {
        let (depth, length) = self.extent();
        depth <= MAX_COLUMNS as u64 && length <= MAX_PRINTED
    }

    /// The text of this document, in lines of the given width where it can be broken.
    pub fn print(&self, width: usize) -> (text: String)
        requires
            printable(self@),
            width <= MAX_COLUMNS,
        ensures
            text@ == printed(self@, width as nat),
    {
        pretty(self, width)
    }
}

/// The widest line, in columns, that a text can be broken to, and the deepest indentation.
pub const MAX_COLUMNS: usize = 0xFFFF;

/// The longest text that can be printed, in characters, each of which takes at most three columns.
pub const MAX_PRINTED: u64 = 0x5555_0000;

/// The deepest indentation of a layout.
pub open spec fn indentation(layout: Layout) -> nat
    decreases layout,
{
    match layout {
        Layout::Both(a, b) | Layout::Either(a, b) => {
            let (x, y) = (indentation(*a), indentation(*b));
            if x < y {
                y
            } else {
                x
            }
        },
        Layout::Indented(by, inner) => by as nat + indentation(*inner),
        _ => 0,
    }
}

/// The number of characters of all parts of a layout.
pub open spec fn characters(layout: Layout) -> nat
    decreases layout,
{
    match layout {
        Layout::Both(a, b) | Layout::Either(a, b) => characters(*a) + characters(*b),
        Layout::Indented(_, inner) => characters(*inner),
        Layout::Text(text) => text.len(),
        _ => 0,
    }
}

/// A layout is neither too deep nor too long to be printed.
pub open spec fn printable(layout: Layout) -> bool {
    indentation(layout) <= MAX_COLUMNS && characters(layout) <= MAX_PRINTED
}

/// The text of a layout, in lines of the given width where it can be broken.
pub uninterp spec fn printed(layout: Layout, width: nat) -> Seq<char>;

/// A document of the outside crate.
#[verifier::external_type_specification]
#[verifier::external_body]
pub struct ExDocument(NativeDocument);

/// Turns a document into one of `miden_formatting::prettier`, part by part, by its constructors
/// `text`, `nl`, `indent`, `+` and `|`.
#[verifier::external_body]
fn native(doc: &Document) -> (made: NativeDocument) {
    match doc {
        Document::Empty => NativeDocument::Empty,
        Document::Newline => nl(),
        Document::Text(text) => native_text(text),
        Document::Concat(a, b) => native(a) + native(b),
        Document::Indent(by, inner) => indent(*by, native(inner)),
        Document::Choice(a, b) => native(a) | native(b),
    }
}

/// Prints a document, by the `Display` formatting of `miden_formatting::prettier::Document`, which
/// counts columns in 32 bits and indents by at most 65535. The text is a function of the document
/// and the width. Where lines are broken is not said here.
#[verifier::external_body]
fn pretty(doc: &Document, width: usize) -> (text: String)
    requires
        printable(doc@),
        width <= MAX_COLUMNS,
    ensures
        text@ == printed(doc@, width as nat),
{
    format!("{:width$}", native(doc), width = width)
}

fn text(s: &str) -> (doc: Document)
    ensures
        doc@ == plain(s),
{
    Document::Text(s.to_owned())
}

fn join(a: Document, b: Document) -> (doc: Document)
    ensures
        doc@ == both(a@, b@),
{
    Document::Concat(Box::new(a), Box::new(b))
}

fn shift(by: u32, inner: Document) -> (doc: Document)
    ensures
        doc@ == Layout::Indented(by, Box::new(inner@)),
{
    Document::Indent(by, Box::new(inner))
}

fn either(a: Document, b: Document) -> (doc: Document)
    ensures
        doc@ == Layout::Either(Box::new(a@), Box::new(b@)),
{
    Document::Choice(Box::new(a), Box::new(b))
}

/// What the documents of a list are.
pub open spec fn views(docs: Seq<Document>) -> Seq<Layout> {
    Seq::new(docs.len(), |i: int| docs[i]@)
}

fn join_behind(opening: Document, items: &Vec<Document>) -> (doc: Document)
    ensures
        doc@ == behind(opening@, views(items@)),
{
    let ghost all = views(items@);
    let ghost first = opening@;
    let mut doc: Document = opening;
    let mut i: usize = 0;
    while i < items.len()
        invariant
            i <= items@.len(),
            all == views(items@),
            doc@ == behind(first, all.take(i as int)),
        decreases items@.len() - i,
    {
        proof {
            assert(all.take(i + 1).drop_last() =~= all.take(i as int));
        }
        if i > 0 {
            doc = join(doc, text(", "));
        }
        doc = join(doc, items[i].copy());
        i += 1;
    }
    assert(all.take(items@.len() as int) =~= all);
    doc
}

fn join_in_line(items: &Vec<Document>) -> (doc: Document)
    ensures
        doc@ == in_line(views(items@)),
{
    let ghost all = views(items@);
    let mut doc: Document = Document::Empty;
    let mut i: usize = 0;
    while i < items.len()
        invariant
            i <= items@.len(),
            all == views(items@),
            doc@ == in_line(all.take(i as int)),
        decreases items@.len() - i,
    {
        proof {
            assert(all.take(i + 1).drop_last() =~= all.take(i as int));
        }
        doc = if i > 0 {
            join(join(doc, text(", ")), items[i].copy())
        } else {
            items[i].copy()
        };
        i += 1;
    }
    assert(all.take(items@.len() as int) =~= all);
    doc
}

fn join_lines(items: &Vec<Document>) -> (doc: Document)
    ensures
        doc@ == line_by_line(views(items@)),
{
    let ghost all = views(items@);
    let mut doc: Document = Document::Empty;
    let mut i: usize = 0;
    while i < items.len()
        invariant
            i <= items@.len(),
            all == views(items@),
            doc@ == line_by_line(all.take(i as int)),
        decreases items@.len() - i,
    {
        proof {
            assert(all.take(i + 1).drop_last() =~= all.take(i as int));
        }
        doc = if i > 0 {
            join(join(doc, Document::Newline), items[i].copy())
        } else {
            join(Document::Newline, items[i].copy())
        };
        i += 1;
    }
    assert(all.take(items@.len() as int) =~= all);
    doc
}

fn brace(items: &Vec<Document>) -> (doc: Document)
    ensures
        doc@ == braced(views(items@)),
{
    let choice = either(join_in_line(items), shift(4, join_lines(items)));
    join(join(text("{"), choice), text("}"))
}

// ---------------------------------------------------------------------------------------------
// Showing types
// ---------------------------------------------------------------------------------------------

/// A number in decimal digits.
fn number(before: &str, n: u128, after: &str) -> (doc: Document)
    ensures
        doc@ == Layout::Text(before@ + decimal_text(n as nat) + after@),
{
    let mut shown: String = String::new();
    push_number(&mut shown, before, n, after);
    assert(shown@ =~= before@ + decimal_text(n as nat) + after@);
    Document::Text(shown)
}

fn bare_number(n: u128) -> (doc: Document)
    ensures
        doc@ == Layout::Text(decimal_text(n as nat)),
{
    proof {
        reveal_strlit("");
    }
    let doc = number("", n, "");
    assert(""@ + decimal_text(n as nat) + ""@ =~= decimal_text(n as nat));
    doc
}

fn render_all(types: &Vec<Type>) -> (docs: Vec<Document>)
    ensures
        views(docs@) == layouts(shapes(types@)),
    decreases *types,
{
    let ghost all = shapes(types@);
    let mut docs: Vec<Document> = Vec::new();
    let mut i: usize = 0;
    assert(views(docs@) =~= layouts(all.take(0)));
    while i < types.len()
        invariant
            i <= types@.len(),
            all == shapes(types@),
            views(docs@) == layouts(all.take(i as int)),
        decreases types@.len() - i,
    {
        let ghost before = docs@;
        let doc = types[i].render();
        docs.push(doc);
        proof {
            assert(all.take(i + 1).drop_last() =~= all.take(i as int));
            assert(views(docs@) =~= views(before).push(doc@));
        }
        i += 1;
    }
    assert(all.take(types@.len() as int) =~= all);
    docs
}

impl AddressSpace {
    /// How this address space is shown.
    pub fn render(&self) -> (doc: Document)
        ensures
            doc@ == Layout::Text(addrspace_name(*self)),
    {
        match self {
            AddressSpace::Byte => text("byte"),
            AddressSpace::Element => text("element"),
        }
    }
}

impl TypeRepr {
    /// How this representation is shown.
    pub fn render(&self) -> (doc: Document)
        ensures
            doc@ == repr_layout(*self),
    {
        match self {
            TypeRepr::Default => Document::Empty,
            TypeRepr::Transparent => text("transparent"),
            TypeRepr::Align(align) => number("align(", *align as u128, ")"),
            TypeRepr::Packed(align) => number("packed(", *align as u128, ")"),
        }
    }
}

impl CallConv {
    /// How this convention is shown.
    pub fn render(&self) -> (doc: Document)
        ensures
            doc@ == Layout::Text(abi_name(abi_shape(*self))),
    {
        text(self.as_str())
    }
}

impl PointerType {
    /// How this pointer type is shown.
    pub fn render(&self) -> (doc: Document)
        ensures
            doc@ == layout_of(Shape::Ptr(self.addrspace, Box::new(shape(self.pointee)))),
        decreases *self,
    {
        let space = join(text("ptr<"), self.addrspace.render());
        join(join(join(space, text(", ")), self.pointee.render()), text(">"))
    }
}

impl ArrayType {
    /// How this array type is shown.
    pub fn render(&self) -> (doc: Document)
        ensures
            doc@ == layout_of(Shape::Array(Box::new(shape(self.ty)), self.len as nat)),
        decreases *self,
    {
        let element = join(join(text("["), self.ty.render()), text("; "));
        join(join(element, bare_number(self.len as u128)), text("]"))
    }
}

impl FunctionType {
    /// How this function type is shown.
    pub fn render(&self) -> (doc: Document)
        ensures
            doc@ == function_layout(function_shape(*self)),
        decreases *self,
    {
        let mut convention: String = " \"".to_owned();
        convention.append(self.abi.as_str());
        convention.append("\" ");
        assert(convention@ =~= " \""@ + abi_name(abi_shape(self.abi)) + "\" "@);
        let params = join(join_behind(text("("), &render_all(&self.params)), text(")"));
        let abi = join(text("extern"), Document::Text(convention));
        let head = join(join(abi, text("fn")), params);
        if self.results.len() == 0 {
            return head;
        }
        join(join(head, text(" -> ")), join_in_line(&render_all(&self.results)))
    }
}

impl StructField {
    /// How this field is shown.
    pub fn render(&self) -> (doc: Document)
        ensures
            doc@ == field_layout(label(self.name), layout_of(shape(self.ty))),
        decreases *self,
    {
        let ty = self.ty.render();
        match &self.name {
            Some(name) => join(join(text(name.as_str()), text(" : ")), ty),
            None => ty,
        }
    }
}

impl StructType {
    /// How this struct is shown.
    pub fn render(&self) -> (doc: Document)
        ensures
            doc@ == struct_layout(struct_shape(*self)),
        decreases *self,
    {
        let name = match &self.name {
            Some(name) => join(text(name.as_str()), text(" ")),
            None => Document::Empty,
        };
        let titled = join(text("struct "), name);
        let header = match self.repr {
            TypeRepr::Default => titled,
            _ => join(join(join(titled, text("#[repr(")), self.repr.render()), text(")] ")),
        };
        let ghost all = field_shapes(self.fields@);
        let mut docs: Vec<Document> = Vec::new();
        let mut i: usize = 0;
        assert(views(docs@) =~= field_layouts(all.take(0)));
        while i < self.fields.len()
            invariant
                i <= self.fields@.len(),
                all == field_shapes(self.fields@),
                views(docs@) == field_layouts(all.take(i as int)),
            decreases self.fields@.len() - i,
        {
            let ghost before = docs@;
            let doc = self.fields[i].render();
            docs.push(doc);
            proof {
                assert(all.take(i + 1).drop_last() =~= all.take(i as int));
                assert(views(docs@) =~= views(before).push(doc@));
            }
            i += 1;
        }
        assert(all.take(self.fields@.len() as int) =~= all);
        join(header, brace(&docs))
    }
}

impl Variant {
    /// How this variant is shown.
    pub fn render(&self) -> (doc: Document)
        ensures
            doc@ == variant_layout(
                self.name@,
                match self.value {
                    Some(value) => Some(layout_of(shape(value))),
                    None => None,
                },
                self.discriminant_value,
            ),
        decreases *self,
    {
        let name = text(self.name.as_str());
        let variant = match &self.value {
            Some(value) => join(join(join(name, text("(")), value.render()), text(")")),
            None => name,
        };
        match self.discriminant_value {
            Some(value) => join(join(variant, text(" = ")), bare_number(value)),
            None => variant,
        }
    }
}

impl EnumType {
    /// How this enum is shown.
    pub fn render(&self) -> (doc: Document)
        ensures
            doc@ == enum_layout(enum_shape(*self)),
        decreases *self,
    {
        let name = join(join(text("enum "), text(self.name.as_str())), text(" : "));
        let header = join(name, self.discriminant.render());
        let ghost all = variant_shapes(self.variants@);
        let mut docs: Vec<Document> = Vec::new();
        let mut i: usize = 0;
        assert(views(docs@) =~= variant_layouts(all.take(0)));
        while i < self.variants.len()
            invariant
                i <= self.variants@.len(),
                all == variant_shapes(self.variants@),
                views(docs@) == variant_layouts(all.take(i as int)),
            decreases self.variants@.len() - i,
        {
            let ghost before = docs@;
            let doc = self.variants[i].render();
            docs.push(doc);
            proof {
                assert(all.take(i + 1).drop_last() =~= all.take(i as int));
                assert(views(docs@) =~= views(before).push(doc@));
            }
            i += 1;
        }
        assert(all.take(self.variants@.len() as int) =~= all);
        join(header, brace(&docs))
    }
}

impl RecTypeRef {
    /// How a recursive type is shown: by its name.
    fn render_name(&self) -> (doc: Document)
        ensures
            doc@ == layout_of(shape(Type::Struct(StructRef::Rec(*self)))),
            doc@ == layout_of(shape(Type::Enum(EnumRef::Rec(*self)))),
    {
        proof {
            shape_unfold(&Type::Struct(StructRef::Rec(*self)));
            shape_unfold(&Type::Enum(EnumRef::Rec(*self)));
        }
        if self.index as usize >= self.group.defs.len() {
            return Document::Empty;
        }
        match &self.group.defs[self.index as usize].body {
            OpenAggregate::Struct(s) => match &s.name {
                Some(name) => {
                    let mut shown: String = "struct ".to_owned();
                    shown.append(name.as_str());
                    Document::Text(shown)
                },
                None => text("struct <anon>"),
            },
            OpenAggregate::Enum(e) => {
                let mut shown: String = "enum ".to_owned();
                shown.append(e.name.as_str());
                Document::Text(shown)
            },
        }
    }
}

impl StructRef {
    /// How this struct is shown.
    pub fn render(&self) -> (doc: Document)
        ensures
            doc@ == layout_of(shape(Type::Struct(*self))),
        decreases *self,
    {
        proof {
            shape_unfold(&Type::Struct(*self));
        }
        match self {
            StructRef::Plain(s) => s.render(),
            StructRef::Rec(r) => r.render_name(),
        }
    }
}

impl EnumRef {
    /// How this enum is shown.
    pub fn render(&self) -> (doc: Document)
        ensures
            doc@ == layout_of(shape(Type::Enum(*self))),
        decreases *self,
    {
        proof {
            shape_unfold(&Type::Enum(*self));
        }
        match self {
            EnumRef::Plain(e) => e.render(),
            EnumRef::Rec(r) => r.render_name(),
        }
    }
}

impl Type {
    /// How this type is shown.
    pub fn render(&self) -> (doc: Document)
        ensures
            doc@ == layout_of(self@),
        decreases *self,
    {
        proof {
            shape_unfold(self);
        }
        match self {
            Type::Unknown => text("?"),
            Type::Never => text("!"),
            Type::Variadic => text("..."),
            Type::I1 => text("i1"),
            Type::I8 => text("i8"),
            Type::U8 => text("u8"),
            Type::I16 => text("i16"),
            Type::U16 => text("u16"),
            Type::I32 => text("i32"),
            Type::U32 => text("u32"),
            Type::I64 => text("i64"),
            Type::U64 => text("u64"),
            Type::I128 => text("i128"),
            Type::U128 => text("u128"),
            Type::U256 => text("u256"),
            Type::F64 => text("f64"),
            Type::Felt => text("felt"),
            Type::Ptr(p) => p.render(),
            Type::Struct(s) => s.render(),
            Type::Enum(e) => e.render(),
            Type::Array(a) => a.render(),
            Type::List(element) => join(join(text("list<"), element.render()), text(">")),
            Type::Function(f) => f.render(),
        }
    }

    /// The text of this type, in lines of eighty columns where it can be broken.
    pub fn to_text(&self) -> (text: String)
        requires
            printable(layout_of(self@)),
        ensures
            text@ == printed(layout_of(self@), 80),
    {
        self.render().print(80)
    }
}

} // verus!
