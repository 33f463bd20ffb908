//! Modular arithmetic on 256-bit values, with the modulus given as its largest residue.

use ruint::aliases::{U256 as NativeU256, U320 as NativeU320};
use ruint::Uint;
use vstd::arithmetic::div_mod::{
    lemma_fundamental_div_mod, lemma_fundamental_div_mod_converse, lemma_mod_add_multiples_vanish,
    lemma_mod_twice, lemma_small_mod, lemma_sub_mod_noop,
};
use vstd::prelude::*;

verus! {

/// A 256-bit value as four 64-bit limbs, least significant first.
#[derive(Debug, Clone, Copy, PartialEq, Eq)]
pub struct U256 {
    pub limbs: [u64; 4],
}

/// A 320-bit value as five 64-bit limbs, least significant first.
#[derive(Debug, Clone, Copy, PartialEq, Eq)]
pub struct U320 {
    pub limbs: [u64; 5],
}

/// A 576-bit value as nine 64-bit limbs, least significant first.
#[derive(Debug, Clone, Copy, PartialEq, Eq)]
pub struct U576 {
    pub limbs: [u64; 9],
}

/// `2^64`.
pub open spec fn word() -> nat {
    0x1_0000_0000_0000_0000
}

/// The value of a row of 64-bit limbs, least significant first.
pub open spec fn limbs_value(limbs: Seq<u64>) -> nat
    decreases limbs.len(),
{
    if limbs.len() == 0 {
        0
    } else {
        limbs[0] as nat + word() * limbs_value(limbs.drop_first())
    }
}

/// `2^64` raised to `n`.
pub open spec fn word_power(n: nat) -> nat
    decreases n,
{
    if n == 0 {
        1
    } else {
        word() * word_power((n - 1) as nat)
    }
}

impl View for U256 {
    type V = nat;

    open spec fn view(&self) -> nat {
        limbs_value(self.limbs@)
    }
}

impl View for U320 {
    type V = nat;

    open spec fn view(&self) -> nat {
        limbs_value(self.limbs@)
    }
}

impl View for U576 {
    type V = nat;

    open spec fn view(&self) -> nat {
        limbs_value(self.limbs@)
    }
}

/// A row of `n` limbs stays below `2^(64 n)`.
pub proof fn limbs_bounded(limbs: Seq<u64>)
    ensures
        limbs_value(limbs) < word_power(limbs.len()),
    decreases limbs.len(),
{
    if limbs.len() > 0 {
        let rest = limbs.drop_first();
        limbs_bounded(rest);
        let a: nat = limbs_value(rest);
        let b: nat = word_power(rest.len());
        assert(word() * a + word() <= word() * b) by (nonlinear_arith)
            requires
                a + 1 <= b,
                word() >= 0,
        ;
    }
}

/// The value of a row of limbs does not change when zeros are put behind it.
proof fn padded_value(limbs: Seq<u64>, zeros: Seq<u64>)
    requires
        forall|i: int| 0 <= i < zeros.len() ==> zeros[i] == 0,
    ensures
        limbs_value(limbs + zeros) == limbs_value(limbs),
    decreases limbs.len() + zeros.len(),
{
    if limbs.len() > 0 {
        padded_value(limbs.drop_first(), zeros);
        assert((limbs + zeros).drop_first() =~= limbs.drop_first() + zeros);
    } else if zeros.len() > 0 {
        assert((limbs + zeros) =~= zeros);
        padded_value(Seq::empty(), zeros.drop_first());
        assert(Seq::<u64>::empty() + zeros.drop_first() =~= zeros.drop_first());
    }
}

/// A value below `2^(64 n)` has zeros behind its first `n` limbs.
proof fn value_fits(limbs: Seq<u64>, n: nat)
    requires
        n <= limbs.len(),
        limbs_value(limbs) < word_power(n),
    ensures
        limbs_value(limbs.take(n as int)) == limbs_value(limbs),
    decreases n,
{
    if n == 0 {
        assert(limbs.take(0) =~= Seq::empty());
    } else {
        let rest = limbs.drop_first();
        let a: nat = limbs_value(rest);
        let b: nat = word_power((n - 1) as nat);
        assert(a < b) by (nonlinear_arith)
            requires
                word() * a < word() * b,
                word() > 0,
        ;
        value_fits(rest, (n - 1) as nat);
        assert(limbs.take(n as int).drop_first() =~= rest.take(n - 1));
    }
}

/// `a` with zeros behind it.
fn widen(a: &U256) -> (r: U576)
    ensures
        r@ == a@,
{
    let l = a.limbs;
    let r = U576 { limbs: [l[0], l[1], l[2], l[3], 0, 0, 0, 0, 0] };
    proof {
        let zeros = seq![0u64, 0, 0, 0, 0];
        padded_value(l@, zeros);
        assert(r.limbs@ =~= l@ + zeros);
    }
    r
}

/// `a` with a zero behind it.
fn widen_once(a: &U256) -> (r: U320)
    ensures
        r@ == a@,
{
    let l = a.limbs;
    let r = U320 { limbs: [l[0], l[1], l[2], l[3], 0] };
    proof {
        let zeros = seq![0u64];
        padded_value(l@, zeros);
        assert(r.limbs@ =~= l@ + zeros);
    }
    r
}

/// The low 256 bits of a value that has no others.
fn narrow(a: &U576) -> (r: U256)
    requires
        a@ < word_power(4),
    ensures
        r@ == a@,
{
    let l = a.limbs;
    let r = U256 { limbs: [l[0], l[1], l[2], l[3]] };
    proof {
        value_fits(l@, 4);
        assert(r.limbs@ =~= l@.take(4));
    }
    r
}

/// The low 320 bits of a value that has no others.
fn narrow_wide(a: &U576) -> (r: U320)
    requires
        a@ < word_power(5),
    ensures
        r@ == a@,
{
    let l = a.limbs;
    let r = U320 { limbs: [l[0], l[1], l[2], l[3], l[4]] };
    proof {
        value_fits(l@, 5);
        assert(r.limbs@ =~= l@.take(5));
    }
    r
}

/// The low 256 bits of a value that has no others.
fn narrow_once(a: &U320) -> (r: U256)
    requires
        a@ < word_power(4),
    ensures
        r@ == a@,
{
    let l = a.limbs;
    let r = U256 { limbs: [l[0], l[1], l[2], l[3]] };
    proof {
        value_fits(l@, 4);
        assert(r.limbs@ =~= l@.take(4));
    }
    r
}

/// A small value.
fn small(value: u64) -> (r: U576)
    ensures
        r@ == value,
{
    let r = U576 { limbs: [value, 0, 0, 0, 0, 0, 0, 0, 0] };
    proof {
        let zeros = seq![0u64, 0, 0, 0, 0, 0, 0, 0];
        padded_value(seq![value], zeros);
        assert(r.limbs@ =~= seq![value] + zeros);
        assert(seq![value].drop_first() =~= Seq::empty());
        assert(limbs_value(seq![value].drop_first()) == 0);
    }
    r
}

/// `Uint`'s `+` on 576 bits: the sum, where it fits.
#[verifier::external_body]
fn wide_add(a: &U576, b: &U576) -> (r: U576)
    requires
        a@ + b@ < word_power(9),
    ensures
        r@ == a@ + b@,
{
    let sum = Uint::<576, 9>::from_limbs(a.limbs) + Uint::<576, 9>::from_limbs(b.limbs);
    U576 { limbs: *sum.as_limbs() }
}

/// `Uint`'s `-` on 576 bits: the difference, where it is not negative.
#[verifier::external_body]
fn wide_sub(a: &U576, b: &U576) -> (r: U576)
    requires
        b@ <= a@,
    ensures
        r@ == a@ - b@,
{
    let diff = Uint::<576, 9>::from_limbs(a.limbs) - Uint::<576, 9>::from_limbs(b.limbs);
    U576 { limbs: *diff.as_limbs() }
}

/// `Uint`'s `*` on 576 bits: the product, where it fits.
#[verifier::external_body]
fn wide_mul(a: &U576, b: &U576) -> (r: U576)
    requires
        a@ * b@ < word_power(9),
    ensures
        r@ == a@ * b@,
{
    let product = Uint::<576, 9>::from_limbs(a.limbs) * Uint::<576, 9>::from_limbs(b.limbs);
    U576 { limbs: *product.as_limbs() }
}

/// `Uint::div_rem` on 576 bits: quotient and remainder of a division by a nonzero value.
#[verifier::external_body]
fn wide_div_rem(a: &U576, b: &U576) -> (r: (U576, U576))
    requires
        b@ > 0,
    ensures
        r.0@ == a@ / b@,
        r.1@ == a@ % b@,
{
    let (q, m) = Uint::<576, 9>::from_limbs(a.limbs).div_rem(Uint::<576, 9>::from_limbs(b.limbs));
    (U576 { limbs: *q.as_limbs() }, U576 { limbs: *m.as_limbs() })
}

/// `Uint`'s `>=` on 576 bits.
#[verifier::external_body]
fn wide_ge(a: &U576, b: &U576) -> (r: bool)
    ensures
        r == (a@ >= b@),
{
    Uint::<576, 9>::from_limbs(a.limbs) >= Uint::<576, 9>::from_limbs(b.limbs)
}

/// `Uint::add_mod` on 320 bits: the sum reduced by a nonzero modulus.
#[verifier::external_body]
fn add_mod(a: &U320, b: &U320, modulus: &U320) -> (r: U320)
    requires
        modulus@ > 0,
    ensures
        r@ == (a@ + b@) % modulus@,
{
    let (a, b) = (NativeU320::from_limbs(a.limbs), NativeU320::from_limbs(b.limbs));
    U320 { limbs: *a.add_mod(b, NativeU320::from_limbs(modulus.limbs)).as_limbs() }
}

/// `Uint::inv_mod` on 320 bits, for a modulus above one: the inverse of `v` below the modulus, or
/// `None` when there is none.
#[verifier::external_body]
fn inv_mod(v: &U320, modulus: &U320) -> (r: Option<U320>)
    requires
        modulus@ > 1,
    ensures
        r matches Some(x) ==> x@ < modulus@ && (v@ * x@) % modulus@ == 1,
        r is None ==> forall|x: nat| (#[trigger] (v@ * x)) % modulus@ != 1,
{
    NativeU320::from_limbs(v.limbs).inv_mod(NativeU320::from_limbs(modulus.limbs)).map(
        |x| U320 { limbs: *x.as_limbs() },
    )
}

/// The value of a hexadecimal digit.
pub open spec fn hex_digit(c: char) -> Option<nat> {
    if '0' <= c <= '9' {
        Some((c as nat - '0' as nat) as nat)
    } else if 'a' <= c <= 'f' {
        Some((c as nat - 'a' as nat + 10) as nat)
    } else if 'A' <= c <= 'F' {
        Some((c as nat - 'A' as nat + 10) as nat)
    } else {
        None
    }
}

/// Whether every character is a hexadecimal digit or an underscore.
pub open spec fn is_hex(s: Seq<char>) -> bool {
    forall|i: int| 0 <= i < s.len() ==> hex_digit(#[trigger] s[i]) is Some || s[i] == '_'
}

/// The value of a row of hexadecimal digits, most significant first. Underscores do not count.
pub open spec fn hex_value(s: Seq<char>) -> nat
    decreases s.len(),
{
    if s.len() == 0 {
        0
    } else if s.last() == '_' {
        hex_value(s.drop_last())
    } else {
        16 * hex_value(s.drop_last()) + hex_digit(s.last())->0
    }
}

/// Parses a row of hexadecimal digits with `Uint::from_str_radix` in radix sixteen, which skips
/// underscores.
#[verifier::external_body]
pub fn from_hex(s: &str) -> (r: U256)
    requires
        is_hex(s@),
        hex_value(s@) < word_power(4),
    ensures
        r@ == hex_value(s@),
{
    U256 { limbs: *NativeU256::from_str_radix(s, 16).expect("hexadecimal digits").as_limbs() }
}

/// Puts sixteen 16-bit limbs together, least significant first.
pub fn from_limbs16(v: &[u16; 16]) -> (r: U256)
    ensures
        forall|i: int|
            0 <= i < 4 ==> #[trigger] r.limbs@[i] == v@[4 * i] + 0x1_0000 * v@[4 * i + 1]
                + 0x1_0000_0000 * v@[4 * i + 2] + 0x1_0000_0000_0000 * v@[4 * i + 3],
{
    U256 { limbs: [word16(v, 0), word16(v, 1), word16(v, 2), word16(v, 3)] }
}

/// Word `w` of sixteen 16-bit limbs.
fn word16(v: &[u16; 16], w: usize) -> (r: u64)
    requires
        w < 4,
    ensures
        r == v@[4 * w] + 0x1_0000 * v@[4 * w + 1] + 0x1_0000_0000 * v@[4 * w + 2]
            + 0x1_0000_0000_0000 * v@[4 * w + 3],
{
    v[4 * w] as u64 + 0x1_0000 * v[4 * w + 1] as u64 + 0x1_0000_0000 * v[4 * w + 2] as u64
        + 0x1_0000_0000_0000 * v[4 * w + 3] as u64
}

/// Splits a value into sixteen 16-bit limbs, least significant first.
pub fn to_limbs16(v: &U256) -> (r: [u16; 16])
    ensures
        forall|i: int|
            0 <= i < 4 ==> #[trigger] v.limbs@[i] == r@[4 * i] + 0x1_0000 * r@[4 * i + 1]
                + 0x1_0000_0000 * r@[4 * i + 2] + 0x1_0000_0000_0000 * r@[4 * i + 3],
{
    let (a0, a1, a2, a3) = quarters(v.limbs[0]);
    let (b0, b1, b2, b3) = quarters(v.limbs[1]);
    let (c0, c1, c2, c3) = quarters(v.limbs[2]);
    let (d0, d1, d2, d3) = quarters(v.limbs[3]);
    [a0, a1, a2, a3, b0, b1, b2, b3, c0, c1, c2, c3, d0, d1, d2, d3]
}

/// The four 16-bit quarters of a word, least significant first.
fn quarters(w: u64) -> (r: (u16, u16, u16, u16))
    ensures
        w == r.0 + 0x1_0000 * r.1 + 0x1_0000_0000 * r.2 + 0x1_0000_0000_0000 * r.3,
{
    let above: u64 = w / 0x1_0000;
    let upper: u64 = above / 0x1_0000;
    let top: u64 = upper / 0x1_0000;
    assert(top < 0x1_0000);
    ((w % 0x1_0000) as u16, (above % 0x1_0000) as u16, (upper % 0x1_0000) as u16, top as u16)
}

/// Puts eight 32-bit limbs together, least significant first.
pub fn from_limbs32(v: &[u32; 8]) -> (r: U256)
    ensures
        forall|i: int|
            0 <= i < 4 ==> #[trigger] r.limbs@[i] == v@[2 * i] + 0x1_0000_0000 * v@[2 * i + 1],
{
    U256 {
        limbs: [
            v[0] as u64 + 0x1_0000_0000 * v[1] as u64,
            v[2] as u64 + 0x1_0000_0000 * v[3] as u64,
            v[4] as u64 + 0x1_0000_0000 * v[5] as u64,
            v[6] as u64 + 0x1_0000_0000 * v[7] as u64,
        ],
    }
}

/// Splits a value into eight 32-bit limbs, least significant first.
pub fn to_limbs32(v: &U256) -> (r: [u32; 8])
    ensures
        forall|i: int|
            0 <= i < 4 ==> #[trigger] v.limbs@[i] == r@[2 * i] + 0x1_0000_0000 * r@[2 * i + 1],
{
    let l = v.limbs;
    [
        (l[0] % 0x1_0000_0000) as u32,
        (l[0] / 0x1_0000_0000) as u32,
        (l[1] % 0x1_0000_0000) as u32,
        (l[1] / 0x1_0000_0000) as u32,
        (l[2] % 0x1_0000_0000) as u32,
        (l[2] / 0x1_0000_0000) as u32,
        (l[3] % 0x1_0000_0000) as u32,
        (l[3] / 0x1_0000_0000) as u32,
    ]
}

/// The modulus whose largest residue is `bound`.
fn modulus(bound: &U256) -> (r: U320)
    ensures
        r@ == bound@ + 1,
{
    let wide = wide_modulus(bound);
    proof {
        limbs_bounded(bound.limbs@);
        powers();
    }
    narrow_wide(&wide)
}

/// The modulus whose largest residue is `bound`.
fn wide_modulus(bound: &U256) -> (r: U576)
    ensures
        r@ == bound@ + 1,
{
    let wide = widen(bound);
    proof {
        limbs_bounded(bound.limbs@);
        powers();
    }
    wide_add(&wide, &small(1))
}

/// The word powers in use, ordered.
proof fn powers()
    ensures
        word_power(4) + 1 <= word_power(5),
        word_power(5) + 1 <= word_power(9),
        word_power(4) * word_power(4) == word_power(8),
        word_power(8) * 0x10000 < word_power(9),
        2 * (word_power(8) * 0x10000) < word_power(9),
        word_power(4) * 0x10000 < word_power(5),
        word_power(4) * 0x10000 * 2 < word_power(5),
        word_power(4) > 0,
        word_power(4) * 0x10000 <= word_power(8) * 0x10000,
{
    reveal_with_fuel(word_power, 10);
    assert(word_power(4) == 0x1_0000_0000_0000_0000_0000_0000_0000_0000_0000_0000_0000_0000_0000_0000_0000_0000nat);
    assert(word_power(8) == word() * word() * word() * word() * word_power(4));
}

/// `a + b` under the modulus.
pub fn add_reduce(a: &U256, b: &U256, bound: &U256) -> (r: U256)
    ensures
        r@ == (a@ + b@) % (bound@ + 1),
{
    let p = modulus(bound);
    let r = add_mod(&widen_once(a), &widen_once(b), &p);
    proof {
        limbs_bounded(bound.limbs@);
    }
    narrow_once(&r)
}

/// `a - b` under the modulus.
pub fn sub_reduce(a: &U256, b: &U256, bound: &U256) -> (r: U256)
    requires
        b@ <= bound@ + 1,
    ensures
        r@ == (a@ - b@) % (bound@ as int + 1),
{
    let p = modulus(bound);
    let complement = wide_sub(&wide_modulus(bound), &widen(b));
    proof {
        limbs_bounded(bound.limbs@);
        powers();
        let m: int = bound@ as int + 1;
        lemma_mod_add_multiples_vanish(a@ - b@, m);
        assert(m + (a@ - b@) == a@ + complement@);
    }
    let r = add_mod(&widen_once(a), &narrow_wide(&complement), &p);
    narrow_once(&r)
}

/// `kappa_a * a * b + kappa_c * c`.
pub open spec fn mac(kappa_a: u16, a: nat, b: nat, kappa_c: u16, c: nat) -> nat {
    a * b * kappa_a as nat + c * kappa_c as nat
}

/// The products of a multiply-accumulate, which fit 576 bits.
fn products(kappa_a: u16, a: &U256, b: &U256, kappa_c: u16, c: &U256) -> (r: (U576, U576))
    ensures
        r.0@ == a@ * b@ * kappa_a as nat,
        r.1@ == c@ * kappa_c as nat,
        r.0@ + r.1@ < word_power(9),
{
    proof {
        limbs_bounded(a.limbs@);
        limbs_bounded(b.limbs@);
        limbs_bounded(c.limbs@);
        powers();
        let w: int = word_power(4) as int;
        let (x, y, z) = (a@ as int, b@ as int, c@ as int);
        assert(x * y <= w * w) by (nonlinear_arith)
            requires
                0 <= x <= w,
                0 <= y <= w,
        ;
        let xy: int = x * y;
        let ww: int = w * w;
        let k: int = kappa_a as int;
        let kc: int = kappa_c as int;
        assert(0 <= xy * k <= ww * 0x10000) by (nonlinear_arith)
            requires
                0 <= xy <= ww,
                0 <= k <= 0x10000,
        ;
        assert(0 <= z * kc <= w * 0x10000) by (nonlinear_arith)
            requires
                0 <= z <= w,
                0 <= kc <= 0x10000,
        ;
        assert(0 <= xy) by (nonlinear_arith)
            requires
                0 <= x,
                0 <= y,
                xy == x * y,
        ;
    }
    let ab = wide_mul(&widen(a), &widen(b));
    (wide_mul(&ab, &small(kappa_a as u64)), wide_mul(&widen(c), &small(kappa_c as u64)))
}

/// Quotient and residue of `kappa_a * a * b + kappa_c * c` under the modulus.
pub fn mac_div_rem(
    kappa_a: u16,
    a: &U256,
    b: &U256,
    kappa_c: u16,
    c: &U256,
    bound: &U256,
) -> (r: (U320, U256))
    requires
        mac(kappa_a, a@, b@, kappa_c, c@) / (bound@ + 1) < word_power(5),
    ensures
        r.0@ == mac(kappa_a, a@, b@, kappa_c, c@) / (bound@ + 1),
        r.1@ == mac(kappa_a, a@, b@, kappa_c, c@) % (bound@ + 1),
{
    let (prod, addend) = products(kappa_a, a, b, kappa_c, c);
    let n = wide_add(&prod, &addend);
    let (q, r) = wide_div_rem(&n, &wide_modulus(bound));
    proof {
        limbs_bounded(bound.limbs@);
    }
    (narrow_wide(&q), narrow(&r))
}

/// `kappa_a * a * b + kappa_c * c` under the modulus.
pub fn mac_reduce(
    kappa_a: u16,
    a: &U256,
    b: &U256,
    kappa_c: u16,
    c: &U256,
    bound: &U256,
) -> (r: U256)
    requires
        mac(kappa_a, a@, b@, kappa_c, c@) / (bound@ + 1) < word_power(5),
    ensures
        r@ == mac(kappa_a, a@, b@, kappa_c, c@) % (bound@ + 1),
{
    mac_div_rem(kappa_a, a, b, kappa_c, c, bound).1
}

/// `kappa_a * a * b - kappa_c * c`.
pub open spec fn mac_sub(kappa_a: u16, a: nat, b: nat, kappa_c: u16, c: nat) -> int {
    a * b * kappa_a as nat - c * kappa_c as nat
}

/// Whether the quotient of a multiply-subtract fits 320 bits, or, when the value is negative, at
/// most two moduli bring it back.
pub open spec fn mac_sub_fits(n: int, p: int) -> bool {
    if n >= 0 {
        n / p < word_power(5)
    } else {
        (-n) / p < 2
    }
}

/// Quotient, residue and borrow of `kappa_a * a * b - kappa_c * c` under the modulus: the value is
/// `(quotient - borrow) * modulus + residue`, and only a negative value borrows.
pub fn mac_sub_div_rem(
    kappa_a: u16,
    a: &U256,
    b: &U256,
    kappa_c: u16,
    c: &U256,
    bound: &U256,
) -> (r: (U320, U256, u8))
    requires
        mac_sub_fits(mac_sub(kappa_a, a@, b@, kappa_c, c@), bound@ as int + 1),
    ensures
        ({
            let n = mac_sub(kappa_a, a@, b@, kappa_c, c@);
            &&& r.1@ == n % (bound@ as int + 1)
            &&& r.0@ - r.2 == n / (bound@ as int + 1)
            &&& n >= 0 ==> r.2 == 0
            &&& n < 0 ==> r.0@ == 0
        }),
{
    let (prod, sub) = products(kappa_a, a, b, kappa_c, c);
    let p = wide_modulus(bound);
    let zero = U320 { limbs: [0, 0, 0, 0, 0] };
    proof {
        limbs_bounded(bound.limbs@);
        padded_value(Seq::empty(), zero.limbs@);
        assert(Seq::<u64>::empty() + zero.limbs@ =~= zero.limbs@);
    }
    if wide_ge(&prod, &sub) {
        let (q, r) = wide_div_rem(&wide_sub(&prod, &sub), &p);
        (narrow_wide(&q), narrow(&r), 0)
    } else {
        let d = wide_sub(&sub, &prod);
        let (qd, rd) = wide_div_rem(&d, &p);
        let ghost n = prod@ - sub@;
        let ghost m = p@ as int;
        proof {
            lemma_fundamental_div_mod(d@ as int, m);
            assert(n == mac_sub(kappa_a, a@, b@, kappa_c, c@));
            assert(d@ == -n);
            assert(qd@ < 2);
            assert(word_power(1) == word() * word_power(0));
            value_fits(qd.limbs@, 1);
            assert(qd.limbs@.take(1).drop_first() =~= Seq::empty());
            assert(limbs_value(qd.limbs@.take(1).drop_first()) == 0);
            assert(qd.limbs@[0] == qd@);
        }
        let whole: u8 = qd.limbs[0] as u8;
        if wide_ge(&small(0), &rd) {
            proof {
                assert(n == (-(qd@ as int)) * m + 0) by (nonlinear_arith)
                    requires
                        -n == m * qd@,
                ;
                lemma_fundamental_div_mod_converse(n, m, -(qd@ as int), 0);
            }
            let none = narrow(&rd);
            (zero, none, whole)
        } else {
            let rest = wide_sub(&p, &rd);
            proof {
                assert(n == (-(qd@ as int) - 1) * m + (m - rd@)) by (nonlinear_arith)
                    requires
                        -n == m * qd@ + rd@,
                ;
                lemma_fundamental_div_mod_converse(n, m, -(qd@ as int) - 1, m - rd@);
            }
            (zero, narrow(&rest), whole + 1)
        }
    }
}

/// `kappa_a * a * b - kappa_c * c` under the modulus.
pub fn mac_sub_reduce(
    kappa_a: u16,
    a: &U256,
    b: &U256,
    kappa_c: u16,
    c: &U256,
    bound: &U256,
) -> (r: U256)
    requires
        mac_sub_fits(mac_sub(kappa_a, a@, b@, kappa_c, c@), bound@ as int + 1),
    ensures
        r@ == mac_sub(kappa_a, a@, b@, kappa_c, c@) % (bound@ as int + 1),
{
    mac_sub_div_rem(kappa_a, a, b, kappa_c, c, bound).1
}

/// The inverse of `v` under the modulus.
pub fn mod_inv(v: &U256, bound: &U256) -> (r: U256)
    requires
        bound@ > 0,
        exists|x: nat| (#[trigger] (v@ * x)) % (bound@ + 1) == 1,
    ensures
        r@ <= bound@,
        (v@ * r@) % (bound@ + 1) == 1,
{
    let p = modulus(bound);
    let wide = widen_once(v);
    proof {
        limbs_bounded(bound.limbs@);
    }
    match inv_mod(&wide, &p) {
        Some(x) => narrow_once(&x),
        None => {
            assert(false);
            *v
        },
    }
}

/// Splitting a value into limbs and putting them together gives the value back.
pub proof fn limbs16_round_trip(v: U256, limbs: Seq<u16>, back: U256)
    requires
        limbs.len() == 16,
        forall|i: int|
            0 <= i < 4 ==> #[trigger] v.limbs@[i] == limbs[4 * i] + 0x1_0000 * limbs[4 * i + 1]
                + 0x1_0000_0000 * limbs[4 * i + 2] + 0x1_0000_0000_0000 * limbs[4 * i + 3],
        forall|i: int|
            0 <= i < 4 ==> #[trigger] back.limbs@[i] == limbs[4 * i] + 0x1_0000 * limbs[4 * i + 1]
                + 0x1_0000_0000 * limbs[4 * i + 2] + 0x1_0000_0000_0000 * limbs[4 * i + 3],
    ensures
        back@ == v@,
{
    assert(back.limbs@ =~= v.limbs@);
}

/// A sum less one of its addends is the other addend, when that is reduced.
pub proof fn sub_undoes_add(a: nat, b: nat, bound: nat)
    requires
        a <= bound,
    ensures
        (((a + b) % (bound + 1)) as int - b) % (bound as int + 1) == a,
{
    let p: int = bound as int + 1;
    lemma_sub_mod_noop((a + b) as int, b as int, p);
    lemma_sub_mod_noop(((a + b) % (bound + 1)) as int, b as int, p);
    lemma_mod_twice((a + b) as int, p);
    lemma_small_mod(a, p as nat);
}

} // verus!
