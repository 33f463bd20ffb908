//! The base field of the proof system, and the arithmetic that constraints are written in.

use miden_crypto::field::Field;
use miden_crypto::Felt as NativeFelt;
use vstd::arithmetic::div_mod::{
    lemma_add_mod_noop, lemma_mul_mod_noop, lemma_small_mod, lemma_sub_mod_noop,
};
use vstd::prelude::*;

verus! {

/// The order of the base field, `2^64 - 2^32 + 1`.
pub const MODULUS: u64 = 0xffff_ffff_0000_0001;

/// An arithmetic expression over the base field.
///
/// Every expression stands for an integer that the field reduces by [`MODULUS`]. The operations
/// are exact on that integer, so a constraint can be read off as an ordinary polynomial.
pub trait FieldExpr: Sized {
    /// The integer this expression stands for, before reduction.
    open spec fn rep(&self) -> int {
        arbitrary()
    }

    /// The expression that is `value` everywhere.
    fn constant(value: u64) -> (r: Self)
        requires
            value < MODULUS,
        ensures
            r.rep() == value,
    ;

    /// Another handle on the same expression.
    fn dup(&self) -> (r: Self)
        ensures
            r.rep() == self.rep(),
    ;

    fn plus(&self, rhs: &Self) -> (r: Self)
        ensures
            r.rep() == self.rep() + rhs.rep(),
    ;

    fn minus(&self, rhs: &Self) -> (r: Self)
        ensures
            r.rep() == self.rep() - rhs.rep(),
    ;

    fn times(&self, rhs: &Self) -> (r: Self)
        ensures
            r.rep() == self.rep() * rhs.rep(),
    ;
}

/// The integers that a row of expressions stands for.
pub open spec fn reps<E: FieldExpr>(row: Seq<E>) -> Seq<int> {
    Seq::new(row.len(), |i: int| row[i].rep())
}

/// An element of the base field, in canonical form.
pub struct Felt {
    value: u64,
    rep: Ghost<int>,
}

/// Adds two canonical elements with `Felt`'s `+`: the sum reduced by the field order.
#[verifier::external_body]
fn native_add(a: u64, b: u64) -> (r: u64)
    requires
        a < MODULUS,
        b < MODULUS,
    ensures
        r == (a + b) % (MODULUS as int),
{
    (NativeFelt::new_unchecked(a) + NativeFelt::new_unchecked(b)).as_canonical_u64()
}

/// Subtracts two canonical elements with `Felt`'s `-`: the difference reduced by the field order.
#[verifier::external_body]
fn native_sub(a: u64, b: u64) -> (r: u64)
    requires
        a < MODULUS,
        b < MODULUS,
    ensures
        r == (a - b) % (MODULUS as int),
{
    (NativeFelt::new_unchecked(a) - NativeFelt::new_unchecked(b)).as_canonical_u64()
}

/// Multiplies two canonical elements with `Felt`'s `*`: the product reduced by the field order.
#[verifier::external_body]
fn native_mul(a: u64, b: u64) -> (r: u64)
    requires
        a < MODULUS,
        b < MODULUS,
    ensures
        r == (a * b) % (MODULUS as int),
{
    (NativeFelt::new_unchecked(a) * NativeFelt::new_unchecked(b)).as_canonical_u64()
}

/// Inverts a canonical element with `Field::try_inverse`: `None` for zero, else the inverse.
#[verifier::external_body]
fn native_inverse(a: u64) -> (r: Option<u64>)
    requires
        a < MODULUS,
    ensures
        r is None <==> a == 0,
        r matches Some(x) ==> x < MODULUS && (a * x) % (MODULUS as int) == 1,
{
    NativeFelt::new_unchecked(a).try_inverse().map(|x| x.as_canonical_u64())
}

impl Felt {
    /// The stored value is the canonical residue of the integer the element stands for.
    #[verifier::type_invariant]
    spec fn reduced(self) -> bool {
        self.value == self.rep@ % (MODULUS as int)
    }

    /// The canonical residue of this element.
    pub open spec fn residue(&self) -> int {
        self.rep() % (MODULUS as int)
    }

    /// The element with canonical residue `value`, or `None` when `value` is not below the order.
    pub fn new(value: u64) -> (r: Option<Felt>)
        ensures
            r is Some <==> value < MODULUS,
            r is Some ==> r->0.rep() == value,
    {
        if value < MODULUS {
            Some(Felt::constant(value))
        } else {
            None
        }
    }

    /// The canonical residue of this element as an integer below the order.
    pub fn as_canonical_u64(&self) -> (r: u64)
        ensures
            r == self.residue(),
            r < MODULUS,
    {
        proof {
            use_type_invariant(self);
        }
        self.value
    }

    /// The inverse of this element, or `None` for zero.
    pub fn try_inverse(&self) -> (r: Option<Felt>)
        ensures
            r is None <==> self.residue() == 0,
            r matches Some(x) ==> 0 <= x.rep() < MODULUS && (self.residue() * x.rep()) % (
            MODULUS as int) == 1,
    {
        proof {
            use_type_invariant(self);
        }
        match native_inverse(self.value) {
            Some(x) => Some(Felt::constant(x)),
            None => None,
        }
    }

    /// Whether this element is zero in the field.
    pub fn is_zero(&self) -> (r: bool)
        ensures
            r == (self.residue() == 0),
    {
        proof {
            use_type_invariant(self);
        }
        self.value == 0
    }
}

impl FieldExpr for Felt {
    closed spec fn rep(&self) -> int {
        self.rep@
    }

    fn constant(value: u64) -> (r: Self) {
        proof {
            lemma_small_mod(value as nat, MODULUS as nat);
        }
        Felt { value, rep: Ghost(value as int) }
    }

    fn dup(&self) -> (r: Self) {
        proof {
            use_type_invariant(self);
        }
        Felt { value: self.value, rep: Ghost(self.rep@) }
    }

    fn plus(&self, rhs: &Self) -> (r: Self) {
        proof {
            use_type_invariant(self);
            use_type_invariant(rhs);
            lemma_add_mod_noop(self.rep@, rhs.rep@, MODULUS as int);
        }
        Felt { value: native_add(self.value, rhs.value), rep: Ghost(self.rep@ + rhs.rep@) }
    }

    fn minus(&self, rhs: &Self) -> (r: Self) {
        proof {
            use_type_invariant(self);
            use_type_invariant(rhs);
            lemma_sub_mod_noop(self.rep@, rhs.rep@, MODULUS as int);
        }
        Felt { value: native_sub(self.value, rhs.value), rep: Ghost(self.rep@ - rhs.rep@) }
    }

    fn times(&self, rhs: &Self) -> (r: Self) {
        proof {
            use_type_invariant(self);
            use_type_invariant(rhs);
            lemma_mul_mod_noop(self.rep@, rhs.rep@, MODULUS as int);
        }
        Felt { value: native_mul(self.value, rhs.value), rep: Ghost(self.rep@ * rhs.rep@) }
    }
}

} // verus!
