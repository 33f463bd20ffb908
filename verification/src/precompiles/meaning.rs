//! What the messages on the buses say of the stored values.
//!
//! A chiplet trusts every message it consumes. What it proves is then what follows for the values
//! behind the pointers, which is what the laws of the chiplets state.

use crate::precompiles::field::MODULUS;
use crate::precompiles::logup::Fraction;
use crate::precompiles::relations::BusId;
use crate::precompiles::trace::is_cell;
use vstd::arithmetic::div_mod::{
    lemma_fundamental_div_mod, lemma_mod_multiples_basic, lemma_small_mod,
};
use vstd::prelude::*;

verus! {

/// A group: pointers to the coefficients of its curve, to the bounds of its coordinates and its
/// scalars, and to the factors of its endomorphism.
pub struct Curve {
    pub a: int,
    pub b: int,
    pub bound: int,
    pub scalar_bound: int,
    pub beta: int,
    pub lambda: int,
}

/// A stored point: its group, pointers to its coordinates, and whether it is at infinity.
pub struct Place {
    pub group: int,
    pub x: int,
    pub y: int,
    pub infinite: bool,
}

/// The head of an expression: its group, the point that is its value, and its number of terms.
pub struct Head {
    pub group: int,
    pub val: int,
    pub count: int,
}

/// What is stored behind every pointer.
pub struct Store {
    /// The wide integer behind a pointer.
    pub integers: spec_fn(int) -> int,
    /// The pointer to the bound that an integer is kept under: the greatest one below its modulus.
    pub bounds: spec_fn(int) -> int,
    pub groups: spec_fn(int) -> Curve,
    pub points: spec_fn(int) -> Place,
    pub heads: spec_fn(int) -> Head,
    /// The base and the scalar of a term of an expression.
    pub terms: spec_fn(int, int) -> (int, int),
    /// The low and the high half of a lane of memory.
    pub lanes: spec_fn(int) -> (int, int),
}

impl Store {
    /// The integer behind a pointer; the null pointer stands for zero.
    pub open spec fn value(self, ptr: int) -> int {
        if ptr == 0 {
            0
        } else {
            (self.integers)(ptr)
        }
    }

    /// The modulus that a bound stands for.
    pub open spec fn modulus(self, bound: int) -> int {
        self.value(bound) + 1
    }
}

/// Two numbers are the same modulo `m`.
pub open spec fn same(a: int, b: int, m: int) -> bool {
    (a - b) % m == 0
}

/// `a + b` is `c`, and `b` is not zero where the message vouches for it.
pub open spec fn adds(store: Store, bound: int, a: int, b: int, c: int, nonzero: int) -> bool {
    let m = store.modulus(bound);
    &&& same(store.value(a) + store.value(b), store.value(c), m)
    &&& nonzero != 0 ==> !same(store.value(b), 0, m)
}

/// `ka * a * b + kc * c` is `r`, or `ka * a * b - kc * c` is.
pub open spec fn multiplies(store: Store, e: Seq<int>) -> bool {
    let m = store.modulus(e[6]);
    let product = e[0] * (store.value(e[2]) * store.value(e[3]));
    let scaled = e[1] * store.value(e[4]);
    if e[7] == 0 {
        same(product + scaled, store.value(e[5]), m)
    } else {
        same(product - scaled, store.value(e[5]), m)
    }
}

/// A point that is at infinity or has two coordinates.
pub enum Point {
    Infinite,
    At(int, int),
}

/// A stored point.
pub open spec fn point_at(store: Store, ptr: int) -> Point {
    let place = (store.points)(ptr);
    if place.infinite {
        Point::Infinite
    } else {
        Point::At(store.value(place.x), store.value(place.y))
    }
}

/// Two points are the same modulo `m`.
pub open spec fn same_point(p: Point, q: Point, m: int) -> bool {
    match (p, q) {
        (Point::Infinite, Point::Infinite) => true,
        (Point::At(px, py), Point::At(qx, qy)) => same(px, qx, m) && same(py, qy, m),
        _ => false,
    }
}

/// `y^2 = x^3 + a * x + b` modulo `m`.
pub open spec fn on_curve(a: int, b: int, m: int, x: int, y: int) -> bool {
    same(y * y, x * x * x + a * x + b, m)
}

/// A stored point is at infinity or on the curve of the group.
pub open spec fn is_member(store: Store, group: int, ptr: int) -> bool {
    let curve = (store.groups)(group);
    let place = (store.points)(ptr);
    &&& place.group == group
    &&& place.infinite || on_curve(
        store.value(curve.a),
        store.value(curve.b),
        store.modulus(curve.bound),
        store.value(place.x),
        store.value(place.y),
    )
}

/// A line of slope `slope` through a point of the curve meets it again in the mirror image of
/// `(x3, y3)`, where `x1` and `x2` are the two places it met the curve before.
pub open spec fn third_on_line(
    slope: int,
    x1: int,
    y1: int,
    x2: int,
    x3: int,
    y3: int,
    m: int,
) -> bool {
    &&& same(x3, slope * slope - x1 - x2, m)
    &&& same(y3, slope * (x1 - x3) - y1, m)
}

/// The tangent in a point has the given slope and leads to `(x3, y3)`.
pub open spec fn by_tangent(
    slope: int,
    a: int,
    x1: int,
    y1: int,
    x3: int,
    y3: int,
    m: int,
) -> bool {
    &&& same(2 * slope * y1, 3 * x1 * x1 + a, m)
    &&& third_on_line(slope, x1, y1, x1, x3, y3, m)
}

/// The chord through two points has the given slope and leads to `(x3, y3)`.
pub open spec fn by_chord(
    slope: int,
    x1: int,
    y1: int,
    x2: int,
    y2: int,
    x3: int,
    y3: int,
    m: int,
) -> bool {
    &&& same(slope * (x2 - x1), y2 - y1, m)
    &&& third_on_line(slope, x1, y1, x2, x3, y3, m)
}

/// Some chord leads from two points to the third.
pub open spec fn chord_leads(x1: int, y1: int, x2: int, y2: int, x3: int, y3: int, m: int) -> bool {
    exists|slope: int| by_chord(slope, x1, y1, x2, y2, x3, y3, m)
}

/// Some tangent leads from a point to the third.
pub open spec fn tangent_leads(a: int, x1: int, y1: int, x3: int, y3: int, m: int) -> bool {
    exists|slope: int| by_tangent(slope, a, x1, y1, x3, y3, m)
}

/// `r` is the sum of `p` and `q` by the group law of the curve with the linear coefficient `a`:
/// a point at infinity changes nothing, opposite points give infinity, a point is doubled along its
/// tangent, and other points are added along their chord.
pub open spec fn is_sum(a: int, m: int, p: Point, q: Point, r: Point) -> bool {
    match p {
        Point::Infinite => same_point(r, q, m),
        Point::At(x1, y1) => match q {
            Point::Infinite => same_point(r, p, m),
            Point::At(x2, y2) => match r {
                Point::Infinite => same(x1, x2, m) && same(y1 + y2, 0, m),
                Point::At(x3, y3) => {
                    ||| !same(x1, x2, m) && chord_leads(x1, y1, x2, y2, x3, y3, m)
                    ||| same(x1, x2, m) && same(y1, y2, m) && !same(y1 + y2, 0, m)
                        && tangent_leads(a, x1, y1, x3, y3, m)
                },
            },
        },
    }
}

/// A chord gives the sum of two points that are apart.
pub proof fn chords_sum(
    a: int,
    m: int,
    x1: int,
    y1: int,
    x2: int,
    y2: int,
    x3: int,
    y3: int,
    slope: int,
)
    requires
        by_chord(slope, x1, y1, x2, y2, x3, y3, m),
        !same(x1, x2, m),
    ensures
        is_sum(a, m, Point::At(x1, y1), Point::At(x2, y2), Point::At(x3, y3)),
{
}

/// A tangent gives the double of a point that is not its own mirror image.
pub proof fn tangents_sum(
    a: int,
    m: int,
    x1: int,
    y1: int,
    x2: int,
    y2: int,
    x3: int,
    y3: int,
    slope: int,
)
    requires
        by_tangent(slope, a, x1, y1, x3, y3, m),
        same(x1, x2, m),
        same(y1, y2, m),
        !same(y1 + y2, 0, m),
    ensures
        is_sum(a, m, Point::At(x1, y1), Point::At(x2, y2), Point::At(x3, y3)),
{
}

/// The stored point `r` is the sum of `p` and `q` in the group.
pub open spec fn sums(store: Store, group: int, p: int, q: int, r: int) -> bool {
    let curve = (store.groups)(group);
    &&& (store.points)(p).group == group
    &&& (store.points)(q).group == group
    &&& (store.points)(r).group == group
    &&& is_sum(
        store.value(curve.a),
        store.modulus(curve.bound),
        point_at(store, p),
        point_at(store, q),
        point_at(store, r),
    )
}

/// The number whose base-`2^32` digits are the elements from `i` on.
pub open spec fn limbs_from(e: Seq<int>, i: int) -> int
    decreases e.len() - i,
{
    if i < 0 || i >= e.len() {
        0
    } else {
        e[i] + 0x1_0000_0000 * limbs_from(e, i + 1)
    }
}

/// The result of a byte operation: `not a and b`, or `a xor b`.
pub open spec fn byte_result(op: int, a: int, b: int) -> int {
    if op == 0 {
        (!(a as u8) & (b as u8)) as int
    } else {
        ((a as u8) ^ (b as u8)) as int
    }
}

pub open spec fn is_byte(x: int) -> bool {
    0 <= x < 256
}

/// What a message says of the store.
pub open spec fn says(store: Store, bus: BusId, e: Seq<int>) -> bool {
    match bus {
        BusId::BytePairLut => {
            &&& e[0] == 0 || e[0] == 1
            &&& is_byte(e[1])
            &&& is_byte(e[2])
            &&& e[3] == byte_result(e[0], e[1], e[2])
        },
        BusId::Range16 => 0 <= e[0] < 65536,
        BusId::Memory64 => (store.lanes)(e[0]) == (e[1], e[2]),
        BusId::UintVal => {
            &&& store.value(e[0]) == limbs_from(e, 2)
            &&& (store.bounds)(e[0]) == e[1]
        },
        BusId::UintAdd => adds(store, e[0], e[1], e[2], e[3], e[4]),
        BusId::UintMul => multiplies(store, e),
        BusId::EcGroup => (store.groups)(e[0]) == (Curve {
            a: e[1],
            b: e[2],
            bound: e[3],
            scalar_bound: e[4],
            beta: e[5],
            lambda: e[6],
        }),
        BusId::EcPoint => (store.points)(e[0]) == (Place {
            group: e[1],
            x: e[2],
            y: e[3],
            infinite: e[4] == 1,
        }),
        BusId::EcGroupAdd => sums(store, e[0], e[1], e[2], e[3]),
        BusId::EcOnCurveCert => is_member(store, e[0], e[1]),
        BusId::MsmTerm => (store.terms)(e[0], e[1]) == (e[2], e[3]),
        BusId::MsmExpr => (store.heads)(e[0]) == (Head { group: e[1], val: e[2], count: e[3] }),
        BusId::MsmClaimTerm => exists|i: int|
            0 <= i < (store.heads)(e[0]).count && #[trigger] (store.terms)(e[0], i) == (e[1], e[2]),
        _ => true,
    }
}

/// The elements of a message in the field.
pub open spec fn payload(f: Fraction) -> Seq<int> {
    Seq::new(f.elems.len(), |i: int| f.elems[i] % (MODULUS as int))
}

/// A fraction that puts a message on its bus.
pub open spec fn counts(f: Fraction) -> bool {
    f.mult % (MODULUS as int) != 0
}

/// The message of a fraction is true of the store, if it is put on the bus at all.
pub open spec fn is_true(store: Store, f: Fraction) -> bool {
    counts(f) ==> says(store, f.bus, payload(f))
}

/// A cell stands for itself in the field.
pub proof fn cells_are_residues(f: Fraction)
    requires
        forall|i: int| 0 <= i < f.elems.len() ==> is_cell(#[trigger] f.elems[i]),
    ensures
        payload(f) == f.elems,
{
    assert forall|i: int| 0 <= i < f.elems.len() implies payload(f)[i] == f.elems[i] by {
        lemma_small_mod(f.elems[i] as nat, MODULUS as nat);
    }
    assert(payload(f) =~= f.elems);
}

/// A product of two switches that are set is one, which is not zero in the field.
pub proof fn both_set(a: int, b: int)
    requires
        a == 1,
        b == 1,
    ensures
        a * b == 1,
        (a * b) % (MODULUS as int) != 0,
{
    assert(a * b == 1) by (nonlinear_arith)
        requires
            a == 1,
            b == 1,
    ;
}

/// Numbers that are the same modulo `m` differ by a multiple of it.
pub proof fn same_means(a: int, b: int, m: int) -> (q: int)
    requires
        same(a, b, m),
        m > 0,
    ensures
        a == b + m * q,
{
    lemma_fundamental_div_mod(a - b, m);
    (a - b) / m
}

/// Numbers that differ by a multiple of `m` are the same modulo it.
pub proof fn same_by(a: int, b: int, m: int, q: int)
    requires
        a == b + m * q,
        m > 0,
    ensures
        same(a, b, m),
{
    assert(a - b == q * m) by (nonlinear_arith)
        requires
            a == b + m * q,
    ;
    lemma_mod_multiples_basic(q, m);
}

pub proof fn same_turned(a: int, b: int, m: int)
    requires
        same(a, b, m),
        m > 0,
    ensures
        same(b, a, m),
{
    let q = same_means(a, b, m);
    assert(m * (-q) == -(m * q)) by (nonlinear_arith);
    same_by(b, a, m, -q);
}

pub proof fn same_through(a: int, b: int, c: int, m: int)
    requires
        same(a, b, m),
        same(b, c, m),
        m > 0,
    ensures
        same(a, c, m),
{
    let q = same_means(a, b, m);
    let r = same_means(b, c, m);
    assert(m * (q + r) == m * q + m * r) by (nonlinear_arith);
    same_by(a, c, m, q + r);
}

pub proof fn same_scaled(k: int, a: int, b: int, m: int)
    requires
        same(a, b, m),
        m > 0,
    ensures
        same(k * a, k * b, m),
{
    let q = same_means(a, b, m);
    assert(k * (b + m * q) == k * b + m * (k * q)) by (nonlinear_arith);
    same_by(k * a, k * b, m, k * q);
}

/// Sums and differences of numbers that are the same are the same.
pub proof fn same_together(a: int, b: int, c: int, d: int, m: int)
    requires
        same(a, b, m),
        same(c, d, m),
        m > 0,
    ensures
        same(a + c, b + d, m),
        same(a - c, b - d, m),
{
    let q = same_means(a, b, m);
    let r = same_means(c, d, m);
    assert(m * (q + r) == m * q + m * r) by (nonlinear_arith);
    assert(m * (q - r) == m * q - m * r) by (nonlinear_arith);
    same_by(a + c, b + d, m, q + r);
    same_by(a - c, b - d, m, q - r);
}

/// Every number is the same as itself.
pub proof fn same_itself(a: int, m: int)
    requires
        m > 0,
    ensures
        same(a, a, m),
{
    same_by(a, a, m, 0);
}

/// Only an even number doubles to a multiple of an odd modulus.
pub proof fn same_halved(a: int, m: int)
    requires
        same(2 * a, 0, m),
        m > 0,
        m % 2 == 1,
    ensures
        same(a, 0, m),
{
    let q = same_means(2 * a, 0, m);
    let h = m / 2;
    assert(m == 2 * h + 1);
    assert(a == m * (a - h * q)) by (nonlinear_arith)
        requires
            2 * a == m * q,
            m == 2 * h + 1,
    {
        assert(m * (a - h * q) == m * a - h * (m * q)) by (nonlinear_arith);
        assert(h * (m * q) == h * (2 * a));
        assert(m * a - h * (2 * a) == a) by (nonlinear_arith)
            requires
                m == 2 * h + 1,
        ;
    }
    same_by(a, 0, m, a - h * q);
}

} // verus!
