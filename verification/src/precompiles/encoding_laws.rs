//! What the encoding of a message depends on: every element at its own power of the challenge, and
//! the bus above them all.

use crate::precompiles::extension::{base, quad_encoding, quad_power, quad_weighted};
use crate::precompiles::field::MODULUS;
use crate::precompiles::logup::{encoding, power, residue_total, weighted};
use crate::precompiles::relations::{BusId, MAX_MESSAGE_WIDTH};
use vstd::arithmetic::div_mod::{
    lemma_add_mod_noop, lemma_add_mod_noop_right, lemma_mul_mod_noop_left, lemma_mul_mod_noop_right,
    lemma_small_mod,
};
use vstd::prelude::*;

verus! {

/// Changing element `i` of a message moves the weighted sum by as much, times `beta^i`.
proof fn weights_by_place(beta: int, elems: Seq<int>, i: int, v: int)
    requires
        0 <= i < elems.len(),
    ensures
        weighted(beta, elems.update(i, v)) - weighted(beta, elems) == power(beta, i as nat) * (v
            - elems[i]),
    decreases elems.len(),
{
    let changed = elems.update(i, v);
    let last: int = elems.len() - 1;
    let weight = power(beta, last as nat);
    if i == last {
        assert(changed.drop_last() =~= elems.drop_last());
        assert(weight * v - weight * elems[i] == weight * (v - elems[i])) by (nonlinear_arith);
    } else {
        assert(changed.drop_last() =~= elems.drop_last().update(i, v));
        weights_by_place(beta, elems.drop_last(), i, v);
    }
}

/// Changing element `i` of a message moves its encoding by as much, times `beta^i`: each element
/// counts, and no two of them in the same place.
pub proof fn elements_have_their_own_weight(
    alpha: int,
    beta: int,
    bus: BusId,
    elems: Seq<int>,
    i: int,
    v: int,
)
    requires
        0 <= i < elems.len() <= MAX_MESSAGE_WIDTH,
    ensures
        encoding(alpha, beta, bus, elems.update(i, v)) - encoding(alpha, beta, bus, elems) == power(
            beta,
            i as nat,
        ) * (v - elems[i]),
        i < MAX_MESSAGE_WIDTH,
{
    weights_by_place(beta, elems, i, v);
}

/// Appending a zero to a message does not change its encoding; appending anything else moves it by
/// as much, times the next power.
pub proof fn longer_messages_extend_shorter_ones(
    alpha: int,
    beta: int,
    bus: BusId,
    elems: Seq<int>,
    v: int,
)
    ensures
        encoding(alpha, beta, bus, elems.push(v)) - encoding(alpha, beta, bus, elems) == power(
            beta,
            elems.len(),
        ) * v,
        encoding(alpha, beta, bus, Seq::empty()) - alpha == (bus.number() + 1) * power(
            beta,
            MAX_MESSAGE_WIDTH as nat,
        ),
{
    assert(elems.push(v).drop_last() =~= elems);
}

/// The same message on two buses: the encodings differ by the numbers of the buses, at a power above
/// that of every element.
pub proof fn buses_are_told_apart(alpha: int, beta: int, a: BusId, b: BusId, elems: Seq<int>)
    ensures
        encoding(alpha, beta, a, elems) - encoding(alpha, beta, b, elems) == (a.number()
            - b.number()) * power(beta, MAX_MESSAGE_WIDTH as nat),
{
    let top = power(beta, MAX_MESSAGE_WIDTH as nat);
    assert((a.number() + 1) * top - (b.number() + 1) * top == (a.number() - b.number()) * top)
        by (nonlinear_arith);
}

/// Powers multiply as exponents add.
pub proof fn powers_multiply(base: int, a: nat, b: nat)
    ensures
        power(base, a + b) == power(base, a) * power(base, b),
        power(base, 1) == base,
    decreases b,
{
    reveal_with_fuel(power, 2);
    if b > 0 {
        powers_multiply(base, a, (b - 1) as nat);
        let (x, y) = (power(base, a), power(base, (b - 1) as nat));
        assert((a + b - 1) as nat == a + (b - 1) as nat);
        assert(x * y * base == x * (y * base)) by (nonlinear_arith);
    }
}

/// The total of the chiplets is that of any two parts of them.
pub proof fn totals_split(a: Seq<Seq<int>>, b: Seq<Seq<int>>)
    ensures
        residue_total(a + b) == residue_total(a) + residue_total(b),
    decreases b.len(),
{
    if b.len() > 0 {
        assert((a + b).drop_last() =~= a + b.drop_last());
        totals_split(a, b.drop_last());
    } else {
        assert(a + b =~= a);
    }
}

/// Powers of an element of the base field stay in it.
proof fn powers_in_the_base_field(beta: int, exp: nat)
    requires
        0 <= beta < MODULUS,
    ensures
        quad_power(base(beta), exp) == base(power(beta, exp) % (MODULUS as int)),
    decreases exp,
{
    let m = MODULUS as int;
    if exp == 0 {
        lemma_small_mod(1, MODULUS as nat);
    } else {
        powers_in_the_base_field(beta, (exp - 1) as nat);
        let x = power(beta, (exp - 1) as nat);
        lemma_mul_mod_noop_left(x, beta, m);
        assert(0 * beta == 0 && (x % m) * 0 == 0 && 0 * 0 == 0) by (nonlinear_arith);
        lemma_small_mod(0, MODULUS as nat);
    }
}

/// So do weighted sums.
proof fn weights_in_the_base_field(beta: int, elems: Seq<int>)
    requires
        0 <= beta < MODULUS,
    ensures
        quad_weighted(base(beta), elems) == base(weighted(beta, elems) % (MODULUS as int)),
    decreases elems.len(),
{
    let m = MODULUS as int;
    lemma_small_mod(0, MODULUS as nat);
    if elems.len() > 0 {
        let rest = weighted(beta, elems.drop_last());
        let weight = power(beta, (elems.len() - 1) as nat);
        let v = elems.last();
        weights_in_the_base_field(beta, elems.drop_last());
        powers_in_the_base_field(beta, (elems.len() - 1) as nat);
        lemma_mul_mod_noop_left(weight, v, m);
        assert((weight % m) * 0 == 0 && 0 * v == 0 && 0 * 0 == 0) by (nonlinear_arith);
        lemma_add_mod_noop(rest, weight * v, m);
    }
}

/// With challenges of the base field, the encoding in the extension is that of the base field.
pub proof fn extension_encodes_like_the_base_field(
    alpha: int,
    beta: int,
    bus: BusId,
    elems: Seq<int>,
)
    requires
        0 <= alpha < MODULUS,
        0 <= beta < MODULUS,
    ensures
        quad_encoding(base(alpha), base(beta), bus, elems) == base(
            encoding(alpha, beta, bus, elems) % (MODULUS as int),
        ),
{
    let m = MODULUS as int;
    let n = bus.number() + 1;
    let top = power(beta, MAX_MESSAGE_WIDTH as nat);
    let sum = weighted(beta, elems);
    powers_in_the_base_field(beta, MAX_MESSAGE_WIDTH as nat);
    weights_in_the_base_field(beta, elems);
    lemma_small_mod(0, MODULUS as nat);
    lemma_mul_mod_noop_right(n, top, m);
    assert(n * 0 == 0 && 0 * (top % m) == 0 && 0 * 0 == 0) by (nonlinear_arith);
    lemma_add_mod_noop_right(alpha, n * top, m);
    lemma_add_mod_noop(alpha + n * top, sum, m);
}

} // verus!
