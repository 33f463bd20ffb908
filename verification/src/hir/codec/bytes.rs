//! Numbers as bytes.
use miden_serde_utils::{ByteReader, ByteWriter, SliceReader};
use vstd::prelude::*;

verus! {

/// The lowest `n` bytes of a number, the least significant first.
pub open spec fn le(x: nat, n: nat) -> Seq<u8>
    decreases n,
{
    if n == 0 {
        Seq::empty()
    } else {
        seq![(x % 256) as u8] + le(x / 256, (n - 1) as nat)
    }
}

/// The number whose bytes, the least significant first, are `s`.
pub open spec fn from_le(s: Seq<u8>) -> nat
    decreases s.len(),
{
    if s.len() == 0 {
        0
    } else {
        s[0] as nat + 256 * from_le(s.drop_first())
    }
}

/// 256 to the power of `n`.
pub open spec fn pow256(n: nat) -> nat
    decreases n,
{
    if n == 0 {
        1
    } else {
        256 * pow256((n - 1) as nat)
    }
}

/// The number of bytes of a variable-length number.
pub open spec fn vint_len(x: nat) -> nat {
    if x < 0x80 {
        1
    } else if x < 0x4000 {
        2
    } else if x < 0x20_0000 {
        3
    } else if x < 0x1000_0000 {
        4
    } else if x < 0x8_0000_0000 {
        5
    } else if x < 0x400_0000_0000 {
        6
    } else if x < 0x2_0000_0000_0000 {
        7
    } else if x < 0x100_0000_0000_0000 {
        8
    } else {
        9
    }
}

/// 2 to the power of `n`, for the lengths of variable-length numbers.
pub open spec fn length_scale(n: nat) -> nat {
    if n == 0 {
        1
    } else if n == 1 {
        2
    } else if n == 2 {
        4
    } else if n == 3 {
        8
    } else if n == 4 {
        16
    } else if n == 5 {
        32
    } else if n == 6 {
        64
    } else if n == 7 {
        128
    } else {
        256
    }
}

/// A number as a variable-length number: up to 8 bytes whose lowest set bit tells how many, or a
/// zero byte and 8 more.
pub open spec fn vint(x: nat) -> Seq<u8> {
    let n = vint_len(x);
    if n == 9 {
        seq![0u8] + le(x, 8)
    } else {
        le((2 * x + 1) * length_scale((n - 1) as nat), n)
    }
}

/// The length of a variable-length number, told by its first byte.
pub open spec fn vint_len_of(first: u8) -> nat {
    if first % 2 == 1 {
        1
    } else if first % 4 == 2 {
        2
    } else if first % 8 == 4 {
        3
    } else if first % 16 == 8 {
        4
    } else if first % 32 == 16 {
        5
    } else if first % 64 == 32 {
        6
    } else if first % 128 == 64 {
        7
    } else if first == 128 {
        8
    } else {
        9
    }
}

/// The number that a complete variable-length number stands for.
pub open spec fn vint_value(s: Seq<u8>) -> nat {
    let n = vint_len_of(s[0]);
    if n == 9 {
        from_le(s.subrange(1, 9))
    } else {
        from_le(s.take(n as int)) / length_scale(n)
    }
}

pub proof fn le_len(x: nat, n: nat)
    ensures
        le(x, n).len() == n,
    decreases n,
{
    if n > 0 {
        le_len(x / 256, (n - 1) as nat);
    }
}

/// Reading the bytes of a number gives it back, if they are enough to hold it.
pub proof fn le_gives_back(x: nat, n: nat)
    requires
        x < pow256(n),
    ensures
        from_le(le(x, n)) == x,
        le(x, n).len() == n,
    decreases n,
{
    if n > 0 {
        let rest = le(x / 256, (n - 1) as nat);
        assert(x / 256 < pow256((n - 1) as nat));
        le_gives_back(x / 256, (n - 1) as nat);
        let all = le(x, n);
        assert(all.drop_first() =~= rest);
        assert(all[0] == (x % 256) as u8);
    }
}

pub proof fn from_le_bounded(s: Seq<u8>)
    ensures
        from_le(s) < pow256(s.len()),
    decreases s.len(),
{
    if s.len() > 0 {
        from_le_bounded(s.drop_first());
    }
}

pub proof fn pow256_values()
    ensures
        pow256(0) == 1,
        pow256(1) == 0x100,
        pow256(2) == 0x1_0000,
        pow256(3) == 0x100_0000,
        pow256(4) == 0x1_0000_0000,
        pow256(5) == 0x100_0000_0000,
        pow256(6) == 0x1_0000_0000_0000,
        pow256(7) == 0x100_0000_0000_0000,
        pow256(8) == 0x1_0000_0000_0000_0000,
        pow256(16) == 0x1_0000_0000_0000_0000_0000_0000_0000_0000nat,
{
    reveal_with_fuel(pow256, 17);
}

proof fn lowest_bit(x: nat, y: nat, b: nat, n: nat)
    requires
        1 <= n <= 8,
        y == (2 * x + 1) * length_scale((n - 1) as nat),
        b == y % 256,
    ensures
        vint_len_of(b as u8) == n,
        y / length_scale(n) == x,
{
    if n == 1 {
        assert(y == 2 * x + 1);
        assert(b % 2 == 1);
    } else if n == 2 {
        assert(y == 4 * x + 2);
        assert(b % 4 == 2);
        assert(b % 2 == 0);
    } else if n == 3 {
        assert(y == 8 * x + 4);
        assert(b % 8 == 4);
        assert(b % 2 == 0);
        assert(b % 4 == 0);
    } else if n == 4 {
        assert(y == 16 * x + 8);
        assert(b % 16 == 8);
        assert(b % 2 == 0);
        assert(b % 4 == 0);
        assert(b % 8 == 0);
    } else if n == 5 {
        assert(y == 32 * x + 16);
        assert(b % 32 == 16);
        assert(b % 2 == 0);
        assert(b % 4 == 0);
        assert(b % 8 == 0);
        assert(b % 16 == 0);
    } else if n == 6 {
        assert(y == 64 * x + 32);
        assert(b % 64 == 32);
        assert(b % 2 == 0);
        assert(b % 4 == 0);
        assert(b % 8 == 0);
        assert(b % 16 == 0);
        assert(b % 32 == 0);
    } else if n == 7 {
        assert(y == 128 * x + 64);
        assert(b % 128 == 64);
        assert(b % 2 == 0);
        assert(b % 4 == 0);
        assert(b % 8 == 0);
        assert(b % 16 == 0);
        assert(b % 32 == 0);
        assert(b % 64 == 0);
    } else if n == 8 {
        assert(y == 256 * x + 128);
        assert(b % 256 == 128);
        assert(b % 2 == 0);
        assert(b % 4 == 0);
        assert(b % 8 == 0);
        assert(b % 16 == 0);
        assert(b % 32 == 0);
        assert(b % 64 == 0);
        assert(b % 128 == 0);
    }
}

proof fn short_fits(x: nat)
    requires
        vint_len(x) <= 8,
    ensures
        (2 * x + 1) * length_scale((vint_len(x) - 1) as nat) < pow256(vint_len(x)),
{
    pow256_values();
}

/// A variable-length number reads back as the number that was written, whatever follows it.
pub proof fn vint_gives_back(x: nat, rest: Seq<u8>)
    requires
        x < 0x1_0000_0000_0000_0000,
    ensures
        vint(x).len() == vint_len(x),
        vint_len_of((vint(x) + rest)[0]) == vint_len(x),
        vint_value(vint(x) + rest) == x,
{
    let n = vint_len(x);
    let all = vint(x) + rest;
    if n == 9 {
        pow256_values();
        le_gives_back(x, 8);
        assert(all.subrange(1, 9) =~= le(x, 8));
    } else {
        let y = (2 * x + 1) * length_scale((n - 1) as nat);
        short_fits(x);
        le_gives_back(y, n);
        lowest_bit(x, y, y % 256, n);
        assert(all.take(n as int) =~= le(y, n));
        assert(le(y, n)[0] == (y % 256) as u8);
        assert(all[0] == (y % 256) as u8);
    }
}

/// Appends a number as a variable-length number, by `ByteWriter::write_usize` on a byte vector.
/// The bytes are those of the vint64 format, which `vint` spells out.
#[verifier::external_body]
pub(crate) fn write_usize(target: &mut Vec<u8>, value: usize)
    ensures
        final(target)@ == old(target)@ + vint(value as nat),
{
    ByteWriter::write_usize(target, value);
}

/// Reads a variable-length number off the front of a slice, by `ByteReader::read_usize` on a
/// slice reader. It reads the vint64 format, where the first byte tells the length, and fails if
/// the slice ends before it or if the number is too large for `usize`.
#[verifier::external_body]
pub(crate) fn read_usize(bytes: &[u8]) -> (value: Option<usize>)
    ensures
        match value {
            Some(value) => {
                &&& bytes@.len() > 0
                &&& bytes@.len() >= vint_len_of(bytes@[0])
                &&& value == vint_value(bytes@)
            },
            None => {
                ||| bytes@.len() == 0
                ||| bytes@.len() < vint_len_of(bytes@[0])
                ||| vint_value(bytes@) > usize::MAX
            },
        },
{
    SliceReader::new(bytes).read_usize().ok()
}

/// Appends the lowest `n` bytes of a number, the least significant first.
pub fn write_le(target: &mut Vec<u8>, value: u128, n: usize)
    ensures
        final(target)@ == old(target)@ + le(value as nat, n as nat),
{
    let ghost start = target@;
    let mut left: u128 = value;
    let mut i: usize = 0;
    assert(target@ + le(value as nat, n as nat) =~= start + le(value as nat, n as nat));
    while i < n
        invariant
            i <= n,
            start + le(value as nat, n as nat) == target@ + le(left as nat, (n - i) as nat),
        decreases n - i,
    {
        let ghost before = target@;
        target.push((left % 256) as u8);
        assert(before + le(left as nat, (n - i) as nat) =~= target@ + le(
            left as nat / 256,
            (n - i - 1) as nat,
        ));
        left = left / 256;
        i += 1;
    }
    assert(target@ + le(left as nat, 0) =~= target@);
}

/// Appends bytes.
pub fn write_bytes(target: &mut Vec<u8>, bytes: &[u8])
    ensures
        final(target)@ == old(target)@ + bytes@,
{
    let ghost start = target@;
    let mut i: usize = 0;
    while i < bytes.len()
        invariant
            i <= bytes@.len(),
            target@ =~= start + bytes@.take(i as int),
        decreases bytes@.len() - i,
    {
        target.push(bytes[i]);
        i += 1;
    }
    assert(bytes@.take(bytes@.len() as int) =~= bytes@);
}

} // verus!
