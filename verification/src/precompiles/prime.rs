//! The modulus is prime, so the field has no zero divisors.
//!
//! A number whose `2^31`st power is minus one has `2^32` different powers modulo every divisor of
//! the modulus greater than one. So every such divisor is above `2^32`, and two of them multiply to
//! more than the modulus.

use crate::precompiles::field::MODULUS;
use vstd::arithmetic::div_mod::{
    lemma_fundamental_div_mod, lemma_fundamental_div_mod_converse, lemma_mod_multiples_vanish,
    lemma_mul_mod_noop, lemma_mul_mod_noop_left, lemma_small_mod, lemma_sub_mod_noop,
};
use vstd::arithmetic::power::{
    lemma1_pow, lemma_pow1, lemma_pow_adds, lemma_pow_mod_noop, lemma_pow_multiplies, pow,
};
use vstd::arithmetic::power2::{lemma2_to64, lemma_pow2_adds, lemma_pow2_strictly_increases, pow2};
use vstd::prelude::*;
use vstd::set_lib::{lemma_int_range, lemma_len_subset, set_int_range};

verus! {

/// A number whose powers go through `2^32` residues of the modulus before they repeat.
pub const ROOT: u64 = 1753635133440165772;

/// Odd powers of minus one are minus one.
proof fn odd_powers(n: nat)
    ensures
        pow(-1, 2 * n) == 1,
        pow(-1, 2 * n + 1) == -1,
    decreases n,
{
    reveal(pow);
    if n > 0 {
        odd_powers((n - 1) as nat);
        assert(pow(-1, 2 * n) == -1 * pow(-1, (2 * n - 1) as nat));
        assert(2 * n - 1 == 2 * (n - 1) + 1);
    }
}

/// Squaring a residue.
proof fn squared(e: nat, was: int, quotient: int, is: int)
    requires
        pow(ROOT as int, e) % (MODULUS as int) == was,
        was * was == quotient * (MODULUS as int) + is,
        0 <= is < MODULUS,
    ensures
        pow(ROOT as int, 2 * e) % (MODULUS as int) == is,
{
    let m = MODULUS as int;
    let x = pow(ROOT as int, e);
    lemma_pow_adds(ROOT as int, e, e);
    assert(2 * e == e + e);
    lemma_mul_mod_noop(x, x, m);
    lemma_fundamental_div_mod_converse(was * was, m, quotient, is);
}

/// The `2^31`st power of the root is minus one.
proof fn root_power()
    ensures
        pow(ROOT as int, 0x8000_0000) % (MODULUS as int) == MODULUS - 1,
{
    lemma_pow1(ROOT as int);
    lemma_small_mod(ROOT as nat, MODULUS as nat);
    squared(0x1, 1753635133440165772, 166708887468903991, 4614640910117430873);
    squared(0x2, 4614640910117430873, 1154399424049971884, 9123114210336311365);
    squared(0x4, 9123114210336311365, 4511973093009996851, 16116352524544190054);
    squared(0x8, 16116352524544190054, 14080361158478670879, 6414415596519834757);
    squared(0x10, 6414415596519834757, 2230460144622294524, 1213594585890690845);
    squared(0x20, 1213594585890690845, 79841288704448195, 17096174751763063430);
    squared(0x40, 17096174751763063430, 15844486704156700236, 5456943929260765144);
    squared(0x80, 5456943929260765144, 1614281465338340559, 9713644485405565297);
    squared(0x100, 9713644485405565297, 5114988793349933654, 16905767614792059275);
    squared(0x200, 16905767614792059275, 15493518941330557636, 5416168637041100469);
    squared(0x400, 5416168637041100469, 1590247178281506213, 17654865857378133588);
    squared(0x800, 17654865857378133588, 16896981237942002723, 3511170319078647661);
    squared(0x1000, 3511170319078647661, 668319404399374695, 18146160046829613826);
    squared(0x2000, 18146160046829613826, 17850473948468743512, 9306717745644682924);
    squared(0x4000, 9306717745644682924, 4695408299218975106, 12380578893860276750);
    squared(0x8000, 12380578893860276750, 8309256808156222390, 6115771955107415310);
    squared(0x10000, 6115771955107415310, 2027602620068516376, 17776499369601055404);
    squared(0x20000, 17776499369601055404, 17130607366173278638, 16207902636198568418);
    squared(0x40000, 16207902636198568418, 14240784545824149997, 1532612707718625687);
    squared(0x80000, 1532612707718625687, 127334216977357403, 17492915097719143606);
    squared(0x100000, 17492915097719143606, 16588405924890216597, 455906449640507599);
    squared(0x200000, 455906449640507599, 11267608529812975, 11353340290879379826);
    squared(0x400000, 11353340290879379826, 6987592784692205430, 1803076106186727246);
    squared(0x800000, 1803076106186727246, 176241586724885086, 13797081185216407910);
    squared(0x1000000, 13797081185216407910, 10319406422896923811, 17870292113338400769);
    squared(0x2000000, 17870292113338400769, 17311854006015885313, 549755813888);
    squared(0x4000000, 549755813888, 16384, 70368744161280);
    squared(0x8000000, 70368744161280, 268435455, 17293822564807737345);
    squared(0x10000000, 17293822564807737345, 16212958654255595520, 18446744069397807105);
    squared(0x20000000, 18446744069397807105, 18446744069381029889, 281474976710656);
    squared(0x40000000, 281474976710656, 4294967296, 18446744069414584320);
}

/// What holds of a number whose `2^31`st power is minus one modulo `q`.
spec fn turns(b: int, q: int) -> bool {
    &&& q > 2
    &&& pow(b, 0x8000_0000) % q == q - 1
}

/// The `2^32`nd power is one.
proof fn turned_twice(b: int, q: int)
    requires
        turns(b, q),
    ensures
        pow(b, 0x1_0000_0000) % q == 1,
{
    let x = pow(b, 0x8000_0000);
    lemma_pow_adds(b, 0x8000_0000, 0x8000_0000);
    lemma_mul_mod_noop(x, x, q);
    assert((q - 1) * (q - 1) == (q - 2) * q + 1) by (nonlinear_arith);
    lemma_fundamental_div_mod_converse((q - 1) * (q - 1), q, q - 2, 1);
}

/// No power below the `2^32`nd is one. The exponent is `d * 2^e`.
proof fn does_not_return(b: int, q: int, d: nat, e: nat)
    requires
        turns(b, q),
        0 < d,
        d * pow2(e) < 0x1_0000_0000,
    ensures
        pow(b, d * pow2(e)) % q != 1,
    decreases d,
{
    lemma2_to64();
    let s = pow2(e);
    if d % 2 == 0 {
        let h = d / 2;
        lemma_pow2_adds(e, 1);
        assert(d == 2 * h);
        assert((2 * h) * s == h * (s * 2)) by (nonlinear_arith);
        does_not_return(b, q, h, e + 1);
    } else {
        if e >= 32 {
            if e > 32 {
                lemma_pow2_strictly_increases(32, e);
            }
            assert(d * s >= s) by (nonlinear_arith)
                requires
                    d >= 1,
            ;
        }
        let rest = (31 - e) as nat;
        let t = pow2(rest);
        lemma_pow2_adds(e, rest);
        assert(s * t == 0x8000_0000);
        let x = pow(b, 0x8000_0000);
        let n = d / 2;
        assert(d == 2 * n + 1);
        odd_powers(n);
        assert((-1int) % q == q - 1) by {
            lemma_fundamental_div_mod_converse(-1, q, -1, q - 1);
        }
        lemma_pow_mod_noop(-1, d, q);
        lemma_pow_mod_noop(x, d, q);
        lemma_pow_multiplies(b, 0x8000_0000, d);
        assert(0x8000_0000 * d == (d * s) * t) by (nonlinear_arith)
            requires
                s * t == 0x8000_0000,
        ;
        lemma_pow_multiplies(b, d * s, t);
        let y = pow(b, d * s);
        if y % q == 1 {
            lemma_pow_mod_noop(y, t, q);
            lemma1_pow(t);
            lemma_small_mod(1, q as nat);
        }
    }
}

/// Two powers below the `2^32`nd are different, and none is zero.
proof fn powers_differ(b: int, q: int, i: nat, j: nat)
    requires
        turns(b, q),
        i < j < 0x1_0000_0000,
    ensures
        pow(b, i) % q != 0,
        pow(b, j) % q != 0,
        pow(b, i) % q != pow(b, j) % q,
{
    turned_twice(b, q);
    let full: nat = 0x1_0000_0000;
    let x = pow(b, (full - i) as nat);
    let z = pow(b, (full - j) as nat);
    let d = (j - i) as nat;
    lemma_pow_adds(b, i, (full - i) as nat);
    lemma_pow_adds(b, j, (full - j) as nat);
    lemma_pow_adds(b, j, (full - i) as nat);
    lemma_pow_adds(b, full, d);
    assert(j + (full - i) as nat == full + d);
    lemma_mul_mod_noop(pow(b, i), x, q);
    lemma_mul_mod_noop(pow(b, j), x, q);
    lemma_mul_mod_noop(pow(b, j), z, q);
    lemma_mul_mod_noop(pow(b, full), pow(b, d), q);
    assert(0 * (x % q) == 0 && 0 * (z % q) == 0) by (nonlinear_arith);
    lemma_small_mod(0, q as nat);
    lemma_small_mod(1, q as nat);
    assert(1 * (pow(b, d) % q) == pow(b, d) % q);
    lemma_small_mod((pow(b, d) % q) as nat, q as nat);
    lemma2_to64();
    does_not_return(b, q, d, 0);
    assert(d * pow2(0) == d);
}

/// Modulo `q` there are `2^32` powers, so `q` is above that.
proof fn divisor_is_large(b: int, q: int)
    requires
        turns(b, q),
    ensures
        q > 0x1_0000_0000,
{
    let full: nat = 0x1_0000_0000;
    let s = Seq::new(full, |i: int| pow(b, i as nat) % q);
    assert forall|i: int, j: int| 0 <= i < s.len() && 0 <= j < s.len() && i != j implies s[i]
        != s[j] by {
        if i < j {
            powers_differ(b, q, i as nat, j as nat);
        } else {
            powers_differ(b, q, j as nat, i as nat);
        }
    }
    assert(s.no_duplicates());
    s.unique_seq_to_set();
    lemma_int_range(1, q);
    assert forall|v: int| s.to_set().contains(v) implies set_int_range(1, q).contains(v) by {
        let i = choose|i: int| 0 <= i < s.len() && s[i] == v;
        if i == 0 {
            powers_differ(b, q, 0, 1);
        } else {
            powers_differ(b, q, 0, i as nat);
        }
    }
    lemma_len_subset(s.to_set(), set_int_range(1, q));
}

/// The modulus is prime: its divisors are one and itself.
pub proof fn modulus_is_prime(q: int, r: int)
    requires
        q > 0,
        q * r == MODULUS,
    ensures
        q == 1 || r == 1,
{
    let m = MODULUS as int;
    assert(r > 0) by (nonlinear_arith)
        requires
            q > 0,
            q * r == m,
            m > 0,
    ;
    if q > 1 && r > 1 {
        divides_turn(q, r);
        assert(r * q == m) by (nonlinear_arith)
            requires
                q * r == m,
        ;
        divides_turn(r, q);
        divisor_is_large(ROOT as int, q);
        divisor_is_large(ROOT as int, r);
        assert(q * r > 0x1_0000_0000 * 0x1_0000_0000) by (nonlinear_arith)
            requires
                q > 0x1_0000_0000,
                r > 0x1_0000_0000,
        ;
    }
}

/// What the root does modulo the modulus it does modulo every divisor above one.
proof fn divides_turn(q: int, r: int)
    requires
        q > 1,
        r > 0,
        q * r == MODULUS,
    ensures
        turns(ROOT as int, q),
{
    root_power();
    let m = MODULUS as int;
    let x = pow(ROOT as int, 0x8000_0000);
    lemma_fundamental_div_mod(x, m);
    let k = x / m;
    assert(x == q * (r * k + r - 1) + (q - 1)) by (nonlinear_arith)
        requires
            x == m * k + (m - 1),
            q * r == m,
    ;
    assert(q * (r * k + r - 1) == (r * k + r - 1) * q) by (nonlinear_arith);
    lemma_fundamental_div_mod_converse(x, q, r * k + r - 1, q - 1);
    if q == 2 {
        assert(2 * r == m);
    }
}

/// A residue other than zero can be cancelled.
proof fn cancels(a: int, b: int)
    requires
        0 < a < MODULUS,
        (a * b) % (MODULUS as int) == 0,
    ensures
        b % (MODULUS as int) == 0,
    decreases a,
{
    let m = MODULUS as int;
    if a == 1 {
        assert(a * b == b) by (nonlinear_arith)
            requires
                a == 1,
        ;
    } else {
        lemma_fundamental_div_mod(m, a);
        let k = m / a;
        let r = m % a;
        if r == 0 {
            modulus_is_prime(a, k);
            assert(a * k == a) by (nonlinear_arith)
                requires
                    k == 1,
            ;
        }
        assert(r * b == m * b - k * (a * b)) by (nonlinear_arith)
            requires
                m == a * k + r,
        ;
        lemma_mul_mod_noop(k, a * b, m);
        assert((k % m) * 0 == 0);
        lemma_small_mod(0, m as nat);
        lemma_mod_multiples_vanish(b, -(k * (a * b)), m);
        assert(m * b - k * (a * b) == m * b + -(k * (a * b)));
        lemma_sub_mod_noop(0, k * (a * b), m);
        assert(0 - k * (a * b) == -(k * (a * b)));
        cancels(r, b);
    }
}

/// The field has no zero divisors: a product that is zero has a factor that is zero.
pub proof fn no_zero_divisors(a: int, b: int)
    requires
        (a * b) % (MODULUS as int) == 0,
    ensures
        a % (MODULUS as int) == 0 || b % (MODULUS as int) == 0,
{
    let m = MODULUS as int;
    if a % m != 0 {
        lemma_mul_mod_noop(a, b, m);
        lemma_mul_mod_noop_left(a, b, m);
        cancels(a % m, b);
    }
}

} // verus!
