//! Words of 64 bits as two halves of 32 bits, and halves as four bytes.

use crate::precompiles::hash::keccak::reference::rotl;
use crate::precompiles::hash::keccak::round::program::half_swap;
use crate::precompiles::meaning::{byte_result, is_byte};
use crate::precompiles::utils::packed;
use vstd::prelude::*;

verus! {

/// The low and the high half of a word.
pub open spec fn halves(v: u64) -> (int, int) {
    (v as int % 0x1_0000_0000, v as int / 0x1_0000_0000)
}

/// The word with the given halves.
pub open spec fn word(half: (int, int)) -> u64 {
    (half.0 + 0x1_0000_0000 * half.1) as u64
}

pub open spec fn is_half(x: int) -> bool {
    0 <= x < 0x1_0000_0000
}

pub proof fn words_have_halves(v: u64, lo: int, hi: int)
    ensures
        is_half(halves(v).0) && is_half(halves(v).1),
        word(halves(v)) == v,
        is_half(lo) && is_half(hi) ==> halves(word((lo, hi))) == (lo, hi),
{
}

pub open spec fn are_bytes(b: Seq<int>) -> bool {
    forall|i: int| 0 <= i < b.len() ==> is_byte(#[trigger] b[i])
}

/// Four bytes make a half.
pub proof fn four_bytes(b: Seq<int>)
    requires
        b.len() == 4,
    ensures
        packed(b, 256) == b[0] + 256 * b[1] + 65536 * b[2] + 16777216 * b[3],
        are_bytes(b) ==> is_half(packed(b, 256)),
{
    reveal_with_fuel(packed, 5);
    assert(b.drop_first().drop_first()[0] == b[2]);
    assert(b.drop_first().drop_first().drop_first()[0] == b[3]);
    if are_bytes(b) {
        assert(is_byte(b[0]) && is_byte(b[1]) && is_byte(b[2]) && is_byte(b[3]));
    }
}

proof fn joined(b0: u8, b1: u8, b2: u8, b3: u8)
    ensures
        b0 + 256 * b1 + 65536 * b2 + 16777216 * b3 == (b0 as u64) | ((b1 as u64) << 8) | ((
        b2 as u64) << 16) | ((b3 as u64) << 24),
{
    assert(b0 + 256 * b1 + 65536 * b2 + 16777216 * b3 == (b0 as u64) | ((b1 as u64) << 8) | ((
    b2 as u64) << 16) | ((b3 as u64) << 24)) by (bit_vector);
}

/// What the bytes of two halves give byte by byte, the halves give as wholes.
pub proof fn bytes_make_halves(op: int, a: Seq<int>, b: Seq<int>, c: Seq<int>)
    requires
        a.len() == 4,
        b.len() == 4,
        c.len() == 4,
        are_bytes(a),
        are_bytes(b),
        forall|i: int| 0 <= i < 4 ==> #[trigger] c[i] == byte_result(op, a[i], b[i]),
    ensures
        are_bytes(c),
        op == 0 ==> packed(c, 256) == !(packed(a, 256) as u64) & (packed(b, 256) as u64),
        op != 0 ==> packed(c, 256) == (packed(a, 256) as u64) ^ (packed(b, 256) as u64),
{
    four_bytes(a);
    four_bytes(b);
    four_bytes(c);
    assert(is_byte(a[0]) && is_byte(a[1]) && is_byte(a[2]) && is_byte(a[3]));
    assert(is_byte(b[0]) && is_byte(b[1]) && is_byte(b[2]) && is_byte(b[3]));
    let (a0, a1, a2, a3) = (a[0] as u8, a[1] as u8, a[2] as u8, a[3] as u8);
    let (b0, b1, b2, b3) = (b[0] as u8, b[1] as u8, b[2] as u8, b[3] as u8);
    joined(a0, a1, a2, a3);
    joined(b0, b1, b2, b3);
    let x: u64 = packed(a, 256) as u64;
    let y: u64 = packed(b, 256) as u64;
    assert(c[0] == byte_result(op, a[0], b[0]) && c[1] == byte_result(op, a[1], b[1]));
    assert(c[2] == byte_result(op, a[2], b[2]) && c[3] == byte_result(op, a[3], b[3]));
    if op == 0 {
        joined(!a0 & b0, !a1 & b1, !a2 & b2, !a3 & b3);
        assert(!x & y == ((!a0 & b0) as u64) | (((!a1 & b1) as u64) << 8) | (((!a2 & b2) as u64)
            << 16) | (((!a3 & b3) as u64) << 24)) by (bit_vector)
            requires
                x == (a0 as u64) | ((a1 as u64) << 8) | ((a2 as u64) << 16) | ((a3 as u64) << 24),
                y == (b0 as u64) | ((b1 as u64) << 8) | ((b2 as u64) << 16) | ((b3 as u64) << 24),
        ;
    } else {
        joined(a0 ^ b0, a1 ^ b1, a2 ^ b2, a3 ^ b3);
        assert(x ^ y == ((a0 ^ b0) as u64) | (((a1 ^ b1) as u64) << 8) | (((a2 ^ b2) as u64)
            << 16) | (((a3 ^ b3) as u64) << 24)) by (bit_vector)
            requires
                x == (a0 as u64) | ((a1 as u64) << 8) | ((a2 as u64) << 16) | ((a3 as u64) << 24),
                y == (b0 as u64) | ((b1 as u64) << 8) | ((b2 as u64) << 16) | ((b3 as u64) << 24),
        ;
    }
}

/// The halves of a word, cut out of its bits.
proof fn cut(v: u64) -> (r: (u64, u64))
    ensures
        halves(v) == (r.0 as int, r.1 as int),
        r.0 == v & 0xffff_ffff,
        r.1 == v >> 32u32,
{
    let lo: u64 = v & 0xffff_ffff;
    let hi: u64 = v >> 32u32;
    assert(v % 0x1_0000_0000 == v & 0xffff_ffff && v / 0x1_0000_0000 == v >> 32u32)
        by (bit_vector);
    (lo, hi)
}

/// Operations on words work on each half.
pub proof fn halves_work_alone(a: u64, b: u64)
    ensures
        halves(a ^ b) == (
            ((halves(a).0 as u64) ^ (halves(b).0 as u64)) as int,
            ((halves(a).1 as u64) ^ (halves(b).1 as u64)) as int,
        ),
        halves(!a & b) == (
            (!(halves(a).0 as u64) & (halves(b).0 as u64)) as int,
            (!(halves(a).1 as u64) & (halves(b).1 as u64)) as int,
        ),
{
    let (al, ah) = cut(a);
    let (bl, bh) = cut(b);
    let (xl, xh) = cut(a ^ b);
    let (nl, nh) = cut(!a & b);
    assert(xl == al ^ bl && xh == ah ^ bh && nl == !al & bl && nh == !ah & bh) by (bit_vector)
        requires
            al == a & 0xffff_ffff,
            ah == a >> 32u32,
            bl == b & 0xffff_ffff,
            bh == b >> 32u32,
            xl == (a ^ b) & 0xffff_ffff,
            xh == (a ^ b) >> 32u32,
            nl == (!a & b) & 0xffff_ffff,
            nh == (!a & b) >> 32u32,
    ;
}

/// Rotating a word by less than half its width: each half takes in what the other gives out.
pub proof fn rotation_of_halves(v: u64, s: u32, k: u64)
    requires
        0 < s <= 30,
        k == 1u64 << s,
    ensures
        ({
            let (lo, hi) = halves(v);
            let k = k as int;
            halves(rotl(v, s)) == (
                (lo * k) % 0x1_0000_0000 + (hi * k) / 0x1_0000_0000,
                (hi * k) % 0x1_0000_0000 + (lo * k) / 0x1_0000_0000,
            )
        }),
        0 < k <= 0x4000_0000,
{
    let (lo, hi) = cut(v);
    let (rl, rh) = cut(rotl(v, s));
    assert(0 < k <= 0x4000_0000) by (bit_vector)
        requires
            0 < s <= 30,
            k == 1u64 << s,
    ;
    assert(lo < 0x1_0000_0000 && hi < 0x1_0000_0000);
    assert(0 <= lo * k < 0x4000_0000_0000_0000 && 0 <= hi * k < 0x4000_0000_0000_0000)
        by (nonlinear_arith)
        requires
            0 <= lo < 0x1_0000_0000,
            0 <= hi < 0x1_0000_0000,
            0 < k <= 0x4000_0000,
    ;
    let x: u64 = (lo * k) as u64;
    let y: u64 = (hi * k) as u64;
    vstd::arithmetic::power2::lemma2_to64();
    vstd::bits::lemma_u64_pow2_no_overflow(s as nat);
    vstd::bits::lemma_u64_shl_is_mul(1, s as u64);
    vstd::bits::lemma_u64_shl_is_mul(lo, s as u64);
    vstd::bits::lemma_u64_shl_is_mul(hi, s as u64);
    assert(1u64 << s == 1u64 << (s as u64)) by (bit_vector);
    assert(x == lo << (s as u64) && y == hi << (s as u64));
    assert(rl == (x & 0xffff_ffff) | (y >> 32u32) && rh == (y & 0xffff_ffff) | (x >> 32u32) && (x
        & 0xffff_ffff) | (y >> 32u32) == (x % 0x1_0000_0000) + (y / 0x1_0000_0000) && (y
        & 0xffff_ffff) | (x >> 32u32) == (y % 0x1_0000_0000) + (x / 0x1_0000_0000))
        by (bit_vector)
        requires
            0 < s <= 30,
            lo == v & 0xffff_ffff,
            hi == v >> 32u32,
            x == lo << (s as u64),
            y == hi << (s as u64),
            rl == ((v << s) | (v >> ((64 - s) as u32))) & 0xffff_ffff,
            rh == ((v << s) | (v >> ((64 - s) as u32))) >> 32u32,
    ;
}

/// Exchanging the halves of a word.
pub proof fn exchange_of_halves(v: u64)
    ensures
        halves(half_swap(v)) == (halves(v).1, halves(v).0),
{
    let (lo, hi) = cut(v);
    let (sl, sh) = cut(half_swap(v));
    assert(sl == hi && sh == lo) by (bit_vector)
        requires
            lo == v & 0xffff_ffff,
            hi == v >> 32u32,
            sl == ((v << 32u32) | (v >> 32u32)) & 0xffff_ffff,
            sh == ((v << 32u32) | (v >> 32u32)) >> 32u32,
    ;
}

} // verus!
