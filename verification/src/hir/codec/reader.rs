//! Reading bytes, numbers and texts off an input.
use vstd::prelude::*;
use vstd::slice::slice_subrange;
use vstd::utf8::{decode_utf8, valid_utf8};

use crate::hir::codec::bytes::{from_le, from_le_bounded, pow256_values, read_usize, vint_len_of};
use crate::hir::codec::parse::{
    advance, excess, parse_abi, parse_addrspace, parse_alignment, parse_byte, parse_bytes,
    parse_count, parse_counted, parse_discriminant, parse_flag, parse_label, parse_number,
    parse_repr, parse_text, Counted, DecodeFault, Input, Step,
};
use crate::hir::enum_type::InvalidEnumTypeError;
use crate::hir::layout::alignment_is_valid;
use crate::hir::recursive::builder::RecursiveTypeError;
use crate::hir::shape::{AddressSpace, TypeRepr};
use crate::hir::types::{abi_shape, label, CallConv};

verus! {

/// Why bytes stand for no type.
#[derive(Debug)]
pub enum DecodeError {
    /// The input ends too early.
    UnexpectedEof,
    /// More bytes are asked for than may still be read.
    BudgetExhausted(usize, usize),
    /// A byte is neither 0 nor 1.
    NotBoolean(u8),
    /// A number does not fit `usize`.
    ValueTooLarge,
    /// A count is larger than the number of bytes that may still be read.
    TooMany(Counted, usize, usize),
    /// A text is not UTF-8.
    InvalidUtf8,
    /// Types nest too deep.
    NestingTooDeep,
    InvalidTag(u8),
    InvalidAddressSpace(u8),
    InvalidCallConv(u8),
    InvalidRepr(u8),
    InvalidKind(u8),
    AlignmentNotPowerOfTwo,
    PackedAlignmentNotPowerOfTwo,
    /// The size of a field exceeds 32 bits.
    FieldTooLarge,
    /// A transparent struct has more than one field with a size.
    TransparentFields,
    /// The layout of a struct exceeds 32 bits.
    StructTooLarge,
    /// The size of an array exceeds 32 bits.
    ArrayTooLarge,
    VariadicOutsideSignature,
    VariadicNotLast,
    BackReferenceOutsideGroup,
    BackReferenceOutOfRange(u16),
    EmptyGroup,
    GroupTooLarge(u16),
    RootOutOfRange(u16),
    InvalidEnum(InvalidEnumTypeError),
    /// The layout of an enum exceeds 32 bits.
    EnumTooLarge,
    InvalidGroup(RecursiveTypeError),
    /// The definitions of a group are not in canonical order.
    NotCanonical,
    /// The definitions of a group do not all mention one another.
    NotOneGroup,
}

impl DecodeError {
    pub open spec fn view(&self) -> DecodeFault {
        match *self {
            DecodeError::UnexpectedEof => DecodeFault::UnexpectedEof,
            DecodeError::BudgetExhausted(n, left) => DecodeFault::BudgetExhausted(
                n as nat,
                left as nat,
            ),
            DecodeError::NotBoolean(byte) => DecodeFault::NotBoolean(byte),
            DecodeError::ValueTooLarge => DecodeFault::ValueTooLarge,
            DecodeError::TooMany(what, n, left) => DecodeFault::TooMany(
                what,
                n as nat,
                left as nat,
            ),
            DecodeError::InvalidUtf8 => DecodeFault::InvalidUtf8,
            DecodeError::NestingTooDeep => DecodeFault::NestingTooDeep,
            DecodeError::InvalidTag(tag) => DecodeFault::InvalidTag(tag),
            DecodeError::InvalidAddressSpace(tag) => DecodeFault::InvalidAddressSpace(tag),
            DecodeError::InvalidCallConv(tag) => DecodeFault::InvalidCallConv(tag),
            DecodeError::InvalidRepr(tag) => DecodeFault::InvalidRepr(tag),
            DecodeError::InvalidKind(tag) => DecodeFault::InvalidKind(tag),
            DecodeError::AlignmentNotPowerOfTwo => DecodeFault::AlignmentNotPowerOfTwo,
            DecodeError::PackedAlignmentNotPowerOfTwo => DecodeFault::PackedAlignmentNotPowerOfTwo,
            DecodeError::FieldTooLarge => DecodeFault::FieldTooLarge,
            DecodeError::TransparentFields => DecodeFault::TransparentFields,
            DecodeError::StructTooLarge => DecodeFault::StructTooLarge,
            DecodeError::ArrayTooLarge => DecodeFault::ArrayTooLarge,
            DecodeError::VariadicOutsideSignature => DecodeFault::VariadicOutsideSignature,
            DecodeError::VariadicNotLast => DecodeFault::VariadicNotLast,
            DecodeError::BackReferenceOutsideGroup => DecodeFault::BackReferenceOutsideGroup,
            DecodeError::BackReferenceOutOfRange(i) => DecodeFault::BackReferenceOutOfRange(
                i as nat,
            ),
            DecodeError::EmptyGroup => DecodeFault::EmptyGroup,
            DecodeError::GroupTooLarge(n) => DecodeFault::GroupTooLarge(n as nat),
            DecodeError::RootOutOfRange(i) => DecodeFault::RootOutOfRange(i as nat),
            DecodeError::InvalidEnum(error) => DecodeFault::InvalidEnum(error@),
            DecodeError::EnumTooLarge => DecodeFault::EnumTooLarge,
            DecodeError::InvalidGroup(error) => DecodeFault::InvalidGroup(error@),
            DecodeError::NotCanonical => DecodeFault::NotCanonical,
            DecodeError::NotOneGroup => DecodeFault::NotOneGroup,
        }
    }
}

/// An input that is read from front to back, with a limit on the bytes that may be read or
/// without one.
pub struct Reader<'a> {
    pub bytes: &'a [u8],
    pub at: usize,
    pub budget: Option<usize>,
}

/// What the result of a step says, where the value that was read is `value`.
pub open spec fn stepped<T, V>(
    result: Result<T, DecodeError>,
    value: V,
    left: Input,
    expected: Step<V>,
) -> bool {
    match result {
        Ok(_) => expected == Ok::<(V, Input), DecodeFault>((value, left)),
        Err(error) => expected == Err::<(V, Input), DecodeFault>(error@),
    }
}

/// Makes a text of bytes, by `String::from_utf8`, which accepts UTF-8 and nothing else.
#[verifier::external_body]
fn text_of(bytes: Vec<u8>) -> (text: Option<String>)
    ensures
        match text {
            Some(text) => valid_utf8(bytes@) && text@ == decode_utf8(bytes@),
            None => !valid_utf8(bytes@),
        },
{
    String::from_utf8(bytes).ok()
}

/// The number whose bytes, the least significant first, are given.
fn number_of(bytes: &[u8]) -> (value: u128)
    requires
        bytes@.len() <= 16,
    ensures
        value == from_le(bytes@),
{
    let n: usize = bytes.len();
    let mut value: u128 = 0;
    let mut i: usize = n;
    proof {
        pow256_values();
    }
    assert(bytes@.skip(n as int) =~= Seq::empty());
    while i > 0
        invariant
            i <= n,
            n == bytes@.len(),
            n <= 16,
            value == from_le(bytes@.skip(i as int)),
        decreases i,
    {
        i -= 1;
        proof {
            let rest = bytes@.skip(i as int);
            assert(rest.drop_first() =~= bytes@.skip(i + 1));
            from_le_bounded(rest);
            powers_grow(rest.len(), 16);
            pow256_values();
        }
        value = value * 256 + bytes[i] as u128;
    }
    assert(bytes@.skip(0) =~= bytes@);
    value
}

proof fn powers_grow(a: nat, b: nat)
    requires
        a <= b,
    ensures
        crate::hir::codec::bytes::pow256(a) <= crate::hir::codec::bytes::pow256(b),
    decreases b,
{
    if a < b {
        powers_grow(a, (b - 1) as nat);
    }
}

impl<'a> Reader<'a> {
    pub open spec fn view(&self) -> Input {
        Input {
            rest: self.bytes@.skip(self.at as int),
            budget: match self.budget {
                Some(left) => Some(left as nat),
                None => None,
            },
        }
    }

    pub open spec fn wf(&self) -> bool {
        self.at <= self.bytes@.len()
    }

    /// Reads bytes without a limit.
    pub fn new(bytes: &'a [u8]) -> (made: Reader<'a>)
        ensures
            made.wf(),
            made@ == (Input { rest: bytes@, budget: None }),
    {
        let made = Reader { bytes, at: 0, budget: None };
        assert(bytes@.skip(0) =~= bytes@);
        made
    }

    /// Reads at most `budget` bytes.
    pub fn with_budget(bytes: &'a [u8], budget: usize) -> (made: Reader<'a>)
        ensures
            made.wf(),
            made@ == (Input { rest: bytes@, budget: Some(budget as nat) }),
    {
        let made = Reader { bytes, at: 0, budget: Some(budget) };
        assert(bytes@.skip(0) =~= bytes@);
        made
    }

    /// How many bytes are left.
    pub fn remaining(&self) -> (left: usize)
        requires
            self.wf(),
        ensures
            left == self@.rest.len(),
    {
        self.bytes.len() - self.at
    }

    /// The next byte, which stays unread.
    pub fn peek(&self) -> (next: Option<u8>)
        requires
            self.wf(),
        ensures
            match next {
                Some(next) => self@.rest.len() > 0 && next == self@.rest[0],
                None => self@.rest.len() == 0,
            },
    {
        if self.at < self.bytes.len() {
            Some(self.bytes[self.at])
        } else {
            None
        }
    }

    /// Reads `n` bytes.
    pub fn read_bytes(&mut self, n: usize) -> (bytes: Result<&'a [u8], DecodeError>)
        requires
            old(self).wf(),
        ensures
            final(self).wf(),
            stepped(bytes, bytes->Ok_0@, final(self)@, parse_bytes(old(self)@, n as nat)),
    {
        let ghost before = self@;
        if let Some(left) = self.budget {
            if n > left {
                return Err(DecodeError::BudgetExhausted(n, left));
            }
            self.budget = Some(left - n);
        }
        if self.bytes.len() - self.at < n {
            return Err(DecodeError::UnexpectedEof);
        }
        let end: usize = self.at + n;
        let bytes = slice_subrange(self.bytes, self.at, end);
        self.at = end;
        assert(bytes@ =~= before.rest.take(n as int));
        assert(self@.rest =~= before.rest.skip(n as int));
        assert(self@ == advance(before, n as nat));
        Ok(bytes)
    }

    /// Reads a byte.
    pub fn read_byte(&mut self) -> (byte: Result<u8, DecodeError>)
        requires
            old(self).wf(),
        ensures
            final(self).wf(),
            stepped(byte, byte->Ok_0, final(self)@, parse_byte(old(self)@)),
    {
        match self.read_bytes(1) {
            Ok(bytes) => Ok(bytes[0]),
            Err(error) => Err(error),
        }
    }

    /// Reads a boolean.
    pub fn read_flag(&mut self) -> (flag: Result<bool, DecodeError>)
        requires
            old(self).wf(),
        ensures
            final(self).wf(),
            stepped(flag, flag->Ok_0, final(self)@, parse_flag(old(self)@)),
    {
        match self.read_byte() {
            Ok(0) => Ok(false),
            Ok(1) => Ok(true),
            Ok(byte) => Err(DecodeError::NotBoolean(byte)),
            Err(error) => Err(error),
        }
    }

    /// Reads a number of `n` bytes, the least significant first.
    pub fn read_number(&mut self, n: usize) -> (value: Result<u128, DecodeError>)
        requires
            old(self).wf(),
            n <= 16,
        ensures
            final(self).wf(),
            stepped(value, value->Ok_0 as nat, final(self)@, parse_number(old(self)@, n as nat)),
    {
        match self.read_bytes(n) {
            Ok(bytes) => Ok(number_of(bytes)),
            Err(error) => Err(error),
        }
    }

    /// Reads a number of two bytes.
    pub fn read_u16(&mut self) -> (value: Result<u16, DecodeError>)
        requires
            old(self).wf(),
        ensures
            final(self).wf(),
            stepped(value, value->Ok_0 as nat, final(self)@, parse_number(old(self)@, 2)),
    {
        let ghost before = self@;
        match self.read_number(2) {
            Ok(value) => {
                proof {
                    from_le_bounded(before.rest.take(2));
                    pow256_values();
                }
                Ok(value as u16)
            },
            Err(error) => Err(error),
        }
    }

    /// Reads a variable-length number.
    pub fn read_count(&mut self) -> (count: Result<usize, DecodeError>)
        requires
            old(self).wf(),
        ensures
            final(self).wf(),
            stepped(count, count->Ok_0 as nat, final(self)@, parse_count(old(self)@)),
    {
        let ghost before = self@;
        let first: u8 = match self.peek() {
            Some(first) => first,
            None => {
                return Err(DecodeError::UnexpectedEof);
            },
        };
        let value = read_usize(slice_subrange(self.bytes, self.at, self.bytes.len()));
        assert(self.bytes@.subrange(self.at as int, self.bytes@.len() as int) =~= before.rest);
        let n: usize = length_of(first);
        if n == 9 {
            if let Err(error) = self.read_bytes(1) {
                return Err(error);
            }
            if let Err(error) = self.read_bytes(8) {
                return Err(error);
            }
        } else {
            if let Err(error) = self.read_bytes(n) {
                return Err(error);
            }
        }
        match value {
            Some(value) => Ok(value),
            None => Err(DecodeError::ValueTooLarge),
        }
    }

    /// Reads a count, and refuses one that the budget cannot cover.
    pub fn read_counted(&mut self, what: Counted) -> (count: Result<usize, DecodeError>)
        requires
            old(self).wf(),
        ensures
            final(self).wf(),
            stepped(count, count->Ok_0 as nat, final(self)@, parse_counted(old(self)@, what)),
    {
        match self.read_count() {
            Ok(n) => match self.exceeded(what, n) {
                Some(error) => Err(error),
                None => Ok(n),
            },
            Err(error) => Err(error),
        }
    }

    /// The error for a count that the budget cannot cover.
    pub fn exceeded(&self, what: Counted, n: usize) -> (found: Option<DecodeError>)
        ensures
            match found {
                Some(error) => excess(self@, what, n as nat) == Some(error@),
                None => excess(self@, what, n as nat) is None,
            },
    {
        match self.budget {
            Some(left) => if n > left {
                Some(DecodeError::TooMany(what, n, left))
            } else {
                None
            },
            None => None,
        }
    }

    /// Reads a text.
    pub fn read_text(&mut self) -> (text: Result<String, DecodeError>)
        requires
            old(self).wf(),
        ensures
            final(self).wf(),
            stepped(text, text->Ok_0@, final(self)@, parse_text(old(self)@)),
    {
        let n: usize = match self.read_counted(Counted::Bytes) {
            Ok(n) => n,
            Err(error) => {
                return Err(error);
            },
        };
        match self.read_bytes(n) {
            Ok(bytes) => match text_of(copied(bytes)) {
                Some(text) => Ok(text),
                None => Err(DecodeError::InvalidUtf8),
            },
            Err(error) => Err(error),
        }
    }

    /// Reads a text that may be absent.
    pub fn read_label(&mut self) -> (name: Result<Option<String>, DecodeError>)
        requires
            old(self).wf(),
        ensures
            final(self).wf(),
            stepped(name, label(name->Ok_0), final(self)@, parse_label(old(self)@)),
    {
        match self.read_flag() {
            Ok(true) => match self.read_text() {
                Ok(text) => Ok(Some(text)),
                Err(error) => Err(error),
            },
            Ok(false) => Ok(None),
            Err(error) => Err(error),
        }
    }

    /// Reads an address space.
    pub fn read_addrspace(&mut self) -> (addrspace: Result<AddressSpace, DecodeError>)
        requires
            old(self).wf(),
        ensures
            final(self).wf(),
            stepped(addrspace, addrspace->Ok_0, final(self)@, parse_addrspace(old(self)@)),
    {
        match self.read_byte() {
            Ok(0) => Ok(AddressSpace::Byte),
            Ok(1) => Ok(AddressSpace::Element),
            Ok(tag) => Err(DecodeError::InvalidAddressSpace(tag)),
            Err(error) => Err(error),
        }
    }

    /// Reads a calling convention.
    pub fn read_call_conv(&mut self) -> (abi: Result<CallConv, DecodeError>)
        requires
            old(self).wf(),
        ensures
            final(self).wf(),
            stepped(abi, abi_shape(abi->Ok_0), final(self)@, parse_abi(old(self)@)),
    {
        match self.read_byte() {
            Ok(0) => Ok(CallConv::Fast),
            Ok(1) => Ok(CallConv::C),
            Ok(2) => Ok(CallConv::Wasm),
            Ok(3) => Ok(CallConv::ComponentModel),
            Ok(4) => match self.read_text() {
                Ok(name) => Ok(CallConv::Extern(name)),
                Err(error) => Err(error),
            },
            Ok(tag) => Err(DecodeError::InvalidCallConv(tag)),
            Err(error) => Err(error),
        }
    }

    /// Reads a representation.
    pub fn read_type_repr(&mut self) -> (repr: Result<TypeRepr, DecodeError>)
        requires
            old(self).wf(),
        ensures
            final(self).wf(),
            stepped(repr, repr->Ok_0, final(self)@, parse_repr(old(self)@)),
    {
        match self.read_byte() {
            Ok(0) => Ok(TypeRepr::Default),
            Ok(1) => match self.read_alignment(DecodeError::AlignmentNotPowerOfTwo) {
                Ok(align) => Ok(TypeRepr::Align(align)),
                Err(error) => Err(error),
            },
            Ok(2) => match self.read_alignment(DecodeError::PackedAlignmentNotPowerOfTwo) {
                Ok(align) => Ok(TypeRepr::Packed(align)),
                Err(error) => Err(error),
            },
            Ok(3) => Ok(TypeRepr::Transparent),
            Ok(tag) => Err(DecodeError::InvalidRepr(tag)),
            Err(error) => Err(error),
        }
    }

    fn read_alignment(&mut self, otherwise: DecodeError) -> (align: Result<u16, DecodeError>)
        requires
            old(self).wf(),
        ensures
            final(self).wf(),
            stepped(
                align,
                align->Ok_0,
                final(self)@,
                parse_alignment(old(self)@, otherwise@),
            ),
    {
        match self.read_u16() {
            Ok(align) => if alignment_is_valid(align) {
                Ok(align)
            } else {
                Err(otherwise)
            },
            Err(error) => Err(error),
        }
    }

    /// Reads a discriminant of `width` bytes, which may be absent.
    pub fn read_discriminant_value(&mut self, width: usize) -> (value: Result<
        Option<u128>,
        DecodeError,
    >)
        requires
            old(self).wf(),
            width <= 16,
        ensures
            final(self).wf(),
            stepped(
                value,
                value->Ok_0,
                final(self)@,
                parse_discriminant(old(self)@, width as nat),
            ),
    {
        match self.read_flag() {
            Ok(true) => match self.read_number(width) {
                Ok(value) => Ok(Some(value)),
                Err(error) => Err(error),
            },
            Ok(false) => Ok(None),
            Err(error) => Err(error),
        }
    }
}

/// The length of a variable-length number, told by its first byte.
fn length_of(first: u8) -> (n: usize)
    ensures
        n == vint_len_of(first),
{
    if first % 2 == 1 {
        1
    } else if first % 4 == 2 {
        2
    } else if first % 8 == 4 {
        3
    } else if first % 16 == 8 {
        4
    } else if first % 32 == 16 {
        5
    } else if first % 64 == 32 {
        6
    } else if first % 128 == 64 {
        7
    } else if first == 128 {
        8
    } else {
        9
    }
}

fn copied(bytes: &[u8]) -> (copy: Vec<u8>)
    ensures
        copy@ == bytes@,
{
    let mut copy: Vec<u8> = Vec::new();
    crate::hir::codec::bytes::write_bytes(&mut copy, bytes);
    assert(copy@ =~= bytes@);
    copy
}

} // verus!
