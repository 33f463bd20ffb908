//! The quadratic extension of the base field, which challenges are drawn from.

use crate::precompiles::field::{Felt, MODULUS};
use crate::precompiles::logup::{Challenges, Message, Part};
use crate::precompiles::relations::{BusId, MAX_MESSAGE_WIDTH};
use miden_crypto::field::{BasedVectorSpace, BinomialExtensionField, Field};
use miden_crypto::Felt as NativeFelt;
use vstd::prelude::*;

verus! {

/// The square of the element that extends the field.
pub const EXTENSION_SQUARE: u64 = 7;

/// An element `c0 + c1 * x` of the extension, where `x * x` is [`EXTENSION_SQUARE`].
#[verifier::ext_equal]
pub struct Quad {
    pub c0: int,
    pub c1: int,
}

impl Quad {
    /// Both coordinates are canonical residues.
    pub open spec fn canonical(self) -> bool {
        0 <= self.c0 < MODULUS && 0 <= self.c1 < MODULUS
    }

    pub open spec fn plus(self, other: Quad) -> Quad {
        Quad {
            c0: (self.c0 + other.c0) % (MODULUS as int),
            c1: (self.c1 + other.c1) % (MODULUS as int),
        }
    }

    pub open spec fn minus(self, other: Quad) -> Quad {
        Quad {
            c0: (self.c0 - other.c0) % (MODULUS as int),
            c1: (self.c1 - other.c1) % (MODULUS as int),
        }
    }

    pub open spec fn times(self, other: Quad) -> Quad {
        Quad {
            c0: (self.c0 * other.c0 + EXTENSION_SQUARE * (self.c1 * other.c1)) % (MODULUS as int),
            c1: (self.c0 * other.c1 + self.c1 * other.c0) % (MODULUS as int),
        }
    }
}

/// An element of the base field, in the extension.
pub open spec fn base(residue: int) -> Quad {
    Quad { c0: residue, c1: 0 }
}

/// Adds two canonical elements with the `+` of `BinomialExtensionField<Felt, 2>`: the coordinates
/// are added in the base field.
#[verifier::external_body]
fn native_add(a: [u64; 2], b: [u64; 2]) -> (r: [u64; 2])
    requires
        quad(a).canonical(),
        quad(b).canonical(),
    ensures
        quad(r) == quad(a).plus(quad(b)),
{
    let x = BinomialExtensionField::<NativeFelt, 2>::new(a.map(NativeFelt::new_unchecked));
    let y = BinomialExtensionField::<NativeFelt, 2>::new(b.map(NativeFelt::new_unchecked));
    let z = x + y;
    let c: &[NativeFelt] = z.as_basis_coefficients_slice();
    [c[0].as_canonical_u64(), c[1].as_canonical_u64()]
}

/// Subtracts two canonical elements with the `-` of `BinomialExtensionField<Felt, 2>`: the
/// coordinates are subtracted in the base field.
#[verifier::external_body]
fn native_sub(a: [u64; 2], b: [u64; 2]) -> (r: [u64; 2])
    requires
        quad(a).canonical(),
        quad(b).canonical(),
    ensures
        quad(r) == quad(a).minus(quad(b)),
{
    let x = BinomialExtensionField::<NativeFelt, 2>::new(a.map(NativeFelt::new_unchecked));
    let y = BinomialExtensionField::<NativeFelt, 2>::new(b.map(NativeFelt::new_unchecked));
    let z = x - y;
    let c: &[NativeFelt] = z.as_basis_coefficients_slice();
    [c[0].as_canonical_u64(), c[1].as_canonical_u64()]
}

/// Multiplies two canonical elements with the `*` of `BinomialExtensionField<Felt, 2>`: the
/// product of the two polynomials, in which the square of the variable is 7.
#[verifier::external_body]
fn native_mul(a: [u64; 2], b: [u64; 2]) -> (r: [u64; 2])
    requires
        quad(a).canonical(),
        quad(b).canonical(),
    ensures
        quad(r) == quad(a).times(quad(b)),
{
    let x = BinomialExtensionField::<NativeFelt, 2>::new(a.map(NativeFelt::new_unchecked));
    let y = BinomialExtensionField::<NativeFelt, 2>::new(b.map(NativeFelt::new_unchecked));
    let z = x * y;
    let c: &[NativeFelt] = z.as_basis_coefficients_slice();
    [c[0].as_canonical_u64(), c[1].as_canonical_u64()]
}

/// Inverts a canonical element with `Field::try_inverse` of `BinomialExtensionField<Felt, 2>`:
/// `None` for zero, else the inverse.
#[verifier::external_body]
fn native_inverse(a: [u64; 2]) -> (r: Option<[u64; 2]>)
    requires
        quad(a).canonical(),
    ensures
        r is None <==> quad(a) == base(0),
        r matches Some(x) ==> quad(x).canonical() && quad(a).times(quad(x)) == base(1),
{
    let x = BinomialExtensionField::<NativeFelt, 2>::new(a.map(NativeFelt::new_unchecked));
    match x.try_inverse() {
        Some(y) => {
            let c: &[NativeFelt] = y.as_basis_coefficients_slice();
            Some([c[0].as_canonical_u64(), c[1].as_canonical_u64()])
        },
        None => None,
    }
}

/// The element that two residues stand for.
pub open spec fn quad(coordinates: [u64; 2]) -> Quad {
    Quad { c0: coordinates@[0] as int, c1: coordinates@[1] as int }
}

/// An element of the quadratic extension, in canonical form.
#[derive(Debug)]
pub struct QuadFelt {
    coordinates: [u64; 2],
}

impl View for QuadFelt {
    type V = Quad;

    closed spec fn view(&self) -> Quad {
        quad(self.coordinates)
    }
}

impl QuadFelt {
    #[verifier::type_invariant]
    spec fn reduced(self) -> bool {
        quad(self.coordinates).canonical()
    }

    /// The element `c0 + c1 * x`, or `None` when a coordinate is not below the order.
    pub fn new(c0: u64, c1: u64) -> (r: Option<QuadFelt>)
        ensures
            r is Some <==> c0 < MODULUS && c1 < MODULUS,
            r matches Some(v) ==> v@ == (Quad { c0: c0 as int, c1: c1 as int }),
    {
        if c0 < MODULUS && c1 < MODULUS {
            Some(QuadFelt { coordinates: [c0, c1] })
        } else {
            None
        }
    }

    /// An element of the base field, in the extension.
    pub fn from_base(value: &Felt) -> (r: QuadFelt)
        ensures
            r@ == base(value.residue()),
    {
        let c0: u64 = value.as_canonical_u64();
        QuadFelt { coordinates: [c0, 0] }
    }

    /// The coordinates of this element, as integers below the order.
    pub fn coordinates(&self) -> (r: (u64, u64))
        ensures
            self@ == (Quad { c0: r.0 as int, c1: r.1 as int }),
            r.0 < MODULUS,
            r.1 < MODULUS,
    {
        proof {
            use_type_invariant(self);
        }
        (self.coordinates[0], self.coordinates[1])
    }

    /// Another handle on the same element.
    pub fn dup(&self) -> (r: QuadFelt)
        ensures
            r@ == self@,
    {
        proof {
            use_type_invariant(self);
        }
        QuadFelt { coordinates: self.coordinates }
    }

    pub fn plus(&self, rhs: &QuadFelt) -> (r: QuadFelt)
        ensures
            r@ == self@.plus(rhs@),
    {
        proof {
            use_type_invariant(self);
            use_type_invariant(rhs);
        }
        QuadFelt { coordinates: native_add(self.coordinates, rhs.coordinates) }
    }

    pub fn minus(&self, rhs: &QuadFelt) -> (r: QuadFelt)
        ensures
            r@ == self@.minus(rhs@),
    {
        proof {
            use_type_invariant(self);
            use_type_invariant(rhs);
        }
        QuadFelt { coordinates: native_sub(self.coordinates, rhs.coordinates) }
    }

    pub fn times(&self, rhs: &QuadFelt) -> (r: QuadFelt)
        ensures
            r@ == self@.times(rhs@),
    {
        proof {
            use_type_invariant(self);
            use_type_invariant(rhs);
        }
        QuadFelt { coordinates: native_mul(self.coordinates, rhs.coordinates) }
    }

    /// The inverse of this element, or `None` for zero.
    pub fn try_inverse(&self) -> (r: Option<QuadFelt>)
        ensures
            r is None <==> self@ == base(0),
            r matches Some(x) ==> x@.canonical() && self@.times(x@) == base(1),
    {
        proof {
            use_type_invariant(self);
        }
        match native_inverse(self.coordinates) {
            Some(coordinates) => Some(QuadFelt { coordinates }),
            None => None,
        }
    }
}

// ---------------------------------------------------------------------------------------------
// Challenges of the extension
// ---------------------------------------------------------------------------------------------

/// `base` raised to `exp`.
pub open spec fn quad_power(base_of: Quad, exp: nat) -> Quad
    decreases exp,
{
    if exp == 0 {
        base(1)
    } else {
        quad_power(base_of, (exp - 1) as nat).times(base_of)
    }
}

/// `sum(beta^i * elems[i])`, over elements of the base field.
pub open spec fn quad_weighted(beta: Quad, elems: Seq<int>) -> Quad
    decreases elems.len(),
{
    if elems.len() == 0 {
        base(0)
    } else {
        quad_weighted(beta, elems.drop_last()).plus(
            quad_power(beta, (elems.len() - 1) as nat).times(base(elems.last())),
        )
    }
}

/// The encoding of a tuple: a prefix that separates the buses, plus the tuple in base `beta`.
pub open spec fn quad_encoding(alpha: Quad, beta: Quad, bus: BusId, elems: Seq<int>) -> Quad {
    alpha.plus(
        base(bus.number() + 1).times(quad_power(beta, MAX_MESSAGE_WIDTH as nat)),
    ).plus(quad_weighted(beta, elems))
}

/// The canonical residues of a row of elements.
pub open spec fn residues(row: Seq<Felt>) -> Seq<int> {
    Seq::new(row.len(), |i: int| row[i].residue())
}

impl Challenges<QuadFelt> {
    pub closed spec fn drawn_alpha(&self) -> Quad {
        self.alpha@
    }

    pub closed spec fn drawn_beta(&self) -> Quad {
        self.beta_powers@[1]@
    }

    /// The power table holds `beta^0 ..= beta^W`.
    pub closed spec fn prepared(&self) -> bool {
        &&& self.beta_powers@.len() == MAX_MESSAGE_WIDTH + 1
        &&& forall|i: int|
            0 <= i <= MAX_MESSAGE_WIDTH ==> (#[trigger] self.beta_powers@[i])@ == quad_power(
                self.drawn_beta(),
                i as nat,
            )
    }

    /// Prepares the challenges drawn as `(alpha, beta)`.
    pub fn draw(alpha: QuadFelt, beta: QuadFelt) -> (r: Challenges<QuadFelt>)
        ensures
            r.prepared(),
            r.drawn_alpha() == alpha@,
            r.drawn_beta() == beta@,
    {
        let one = QuadFelt { coordinates: [1, 0] };
        let mut beta_powers: Vec<QuadFelt> = Vec::new();
        let first = beta.dup();
        beta_powers.push(one);
        beta_powers.push(first);
        proof {
            use_type_invariant(&beta);
            one_times(beta@);
            assert(quad_power(beta@, 0) == base(1));
            assert(quad_power(beta@, 1) == quad_power(beta@, 0).times(beta@));
        }
        let mut i: usize = 1;
        while i < MAX_MESSAGE_WIDTH
            invariant
                1 <= i <= MAX_MESSAGE_WIDTH,
                beta_powers@.len() == i + 1,
                beta_powers@[1]@ == beta@,
                forall|j: int|
                    0 <= j <= i ==> (#[trigger] beta_powers@[j])@ == quad_power(beta@, j as nat),
            decreases MAX_MESSAGE_WIDTH - i,
        {
            let p = beta_powers[i].times(&beta);
            beta_powers.push(p);
            i = i + 1;
        }
        Challenges { alpha, beta_powers }
    }

    /// Folds a bus tuple of the base field into one element of the extension.
    pub fn fold(&self, message: &Message<Felt>) -> (r: QuadFelt)
        requires
            self.prepared(),
            message.part == Part::Whole,
            message.elems@.len() <= MAX_MESSAGE_WIDTH,
        ensures
            r@ == quad_encoding(
                self.drawn_alpha(),
                self.drawn_beta(),
                message.bus,
                residues(message.elems@),
            ),
    {
        let number: usize = message.bus.index();
        let tag = QuadFelt { coordinates: [(number + 1) as u64, 0] };
        let prefix = tag.times(&self.beta_powers[MAX_MESSAGE_WIDTH]);
        let mut sum = QuadFelt { coordinates: [0, 0] };
        let ghost all = residues(message.elems@);
        assert(all.take(0) =~= Seq::<int>::empty());
        let mut i: usize = 0;
        while i < message.elems.len()
            invariant
                self.prepared(),
                i <= message.elems@.len() <= MAX_MESSAGE_WIDTH,
                all == residues(message.elems@),
                sum@ == quad_weighted(self.drawn_beta(), all.take(i as int)),
            decreases message.elems@.len() - i,
        {
            let elem = QuadFelt::from_base(&message.elems[i]);
            sum = sum.plus(&self.beta_powers[i].times(&elem));
            proof {
                assert(all.take(i + 1).drop_last() =~= all.take(i as int));
                assert(all.take(i + 1).last() == message.elems@[i as int].residue());
            }
            i = i + 1;
        }
        assert(all.take(all.len() as int) =~= all);
        self.alpha.plus(&prefix).plus(&sum)
    }
}

/// One changes nothing that it multiplies.
proof fn one_times(x: Quad)
    requires
        x.canonical(),
    ensures
        base(1).times(x) == x,
{
    vstd::arithmetic::div_mod::lemma_small_mod(x.c0 as nat, MODULUS as nat);
    vstd::arithmetic::div_mod::lemma_small_mod(x.c1 as nat, MODULUS as nat);
    assert(1 * x.c0 + EXTENSION_SQUARE * (0 * x.c1) == x.c0);
    assert(1 * x.c1 + 0 * x.c0 == x.c1);
}

/// The sum of the residues that the chiplets expose.
pub open spec fn quad_residues(rows: Seq<Vec<QuadFelt>>) -> Quad
    decreases rows.len(),
{
    if rows.len() == 0 {
        base(0)
    } else {
        quad_residues(rows.drop_last()).plus(rows.last()@[0]@)
    }
}

/// Adds up the residues that the chiplets expose. The buses balance when the sum vanishes.
pub fn residue_sum(aux_values: &[Vec<QuadFelt>]) -> (r: QuadFelt)
    requires
        forall|i: int| 0 <= i < aux_values@.len() ==> (#[trigger] aux_values@[i])@.len() > 0,
    ensures
        r@ == quad_residues(aux_values@),
{
    let mut sum = QuadFelt { coordinates: [0, 0] };
    let mut i: usize = 0;
    assert(aux_values@.take(0) =~= Seq::empty());
    while i < aux_values.len()
        invariant
            i <= aux_values@.len(),
            forall|i: int| 0 <= i < aux_values@.len() ==> (#[trigger] aux_values@[i])@.len() > 0,
            sum@ == quad_residues(aux_values@.take(i as int)),
        decreases aux_values@.len() - i,
    {
        sum = sum.plus(&aux_values[i][0]);
        proof {
            assert(aux_values@.take(i + 1).drop_last() =~= aux_values@.take(i as int));
        }
        i = i + 1;
    }
    assert(aux_values@.take(aux_values@.len() as int) =~= aux_values@);
    sum
}

} // verus!
