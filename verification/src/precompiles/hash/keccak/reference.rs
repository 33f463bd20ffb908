//! The Keccak-f\[1600] permutation on 64-bit lanes. The lane at `(x, y)` has index `x + 5 * y`.

use crate::precompiles::hash::keccak::sponge::program::{KECCAK_RC, NUM_RC};
use vstd::prelude::*;

verus! {

/// Rotation of each lane, by `x` and then `y`.
pub const RHO: [[u32; 5]; 5] = [
    [0, 36, 3, 41, 18],
    [1, 44, 10, 45, 2],
    [62, 6, 43, 15, 61],
    [28, 55, 25, 21, 56],
    [27, 20, 39, 8, 14],
];

/// `value` rotated left by `amount`.
pub open spec fn rotl(value: u64, amount: u32) -> u64 {
    if amount == 0 {
        value
    } else {
        (value << amount) | (value >> ((64 - amount) as u32))
    }
}

/// Rotates `value` left by `amount`.
pub fn rotate_left(value: u64, amount: u32) -> (r: u64)
    requires
        amount < 64,
    ensures
        r == rotl(value, amount),
{
    if amount == 0 {
        value
    } else {
        (value << amount) | (value >> (64 - amount))
    }
}

/// The XOR of a column of lanes.
pub open spec fn parity(s: Seq<u64>, x: int) -> u64 {
    s[x] ^ s[x + 5] ^ s[x + 10] ^ s[x + 15] ^ s[x + 20]
}

/// What theta adds to every lane of column `x`.
pub open spec fn theta_mask(s: Seq<u64>, x: int) -> u64 {
    parity(s, (x + 4) % 5) ^ rotl(parity(s, (x + 1) % 5), 1)
}

pub open spec fn theta(s: Seq<u64>) -> Seq<u64> {
    Seq::new(25, |i: int| s[i] ^ theta_mask(s, i % 5))
}

/// The lane that rho and pi bring to `(out_x, out_y)`.
pub open spec fn moved_from(out_x: int, out_y: int) -> (int, int) {
    ((3 * out_y + out_x) % 5, out_x)
}

/// Rho and pi: each lane is rotated and moved.
pub open spec fn rho_pi(s: Seq<u64>) -> Seq<u64> {
    Seq::new(
        25,
        |i: int|
            {
                let (x, y) = moved_from(i % 5, i / 5);
                rotl(s[x + 5 * y], RHO@[x]@[y])
            },
    )
}

/// Chi: each lane is mixed with the next two of its row.
pub open spec fn chi(b: Seq<u64>) -> Seq<u64> {
    Seq::new(
        25,
        |i: int|
            b[i] ^ (!b[(i % 5 + 1) % 5 + 5 * (i / 5)] & b[(i % 5 + 2) % 5 + 5 * (i / 5)]),
    )
}

/// One round with round constant `rc`.
pub open spec fn round(s: Seq<u64>, rc: u64) -> Seq<u64> {
    let mixed = chi(rho_pi(theta(s)));
    mixed.update(0, mixed[0] ^ rc)
}

/// The first `count` rounds.
pub open spec fn rounds(s: Seq<u64>, count: nat) -> Seq<u64>
    decreases count,
{
    if count == 0 {
        s
    } else {
        round(rounds(s, (count - 1) as nat), KECCAK_RC@[count - 1])
    }
}

/// Applies one round to `state`.
pub fn keccak_round(state: &mut [u64; 25], rc: u64)
    ensures
        final(state)@ == round(old(state)@, rc),
{
    let ghost start = state@;
    let mut c: [u64; 5] = [0, 0, 0, 0, 0];
    let mut x: usize = 0;
    while x < 5
        invariant
            x <= 5,
            state@ == start,
            start.len() == 25,
            forall|j: int| 0 <= j < x ==> #[trigger] c@[j] == parity(start, j),
        decreases 5 - x,
    {
        c[x] = state[x] ^ state[x + 5] ^ state[x + 10] ^ state[x + 15] ^ state[x + 20];
        x = x + 1;
    }
    let mut i: usize = 0;
    while i < 25
        invariant
            i <= 25,
            start.len() == 25,
            forall|j: int| 0 <= j < 5 ==> #[trigger] c@[j] == parity(start, j),
            forall|j: int| 0 <= j < i ==> #[trigger] state@[j] == theta(start)[j],
            forall|j: int| i <= j < 25 ==> #[trigger] state@[j] == start[j],
        decreases 25 - i,
    {
        let column: usize = i % 5;
        let mask: u64 = c[(column + 4) % 5] ^ rotate_left(c[(column + 1) % 5], 1);
        state[i] = state[i] ^ mask;
        i = i + 1;
    }
    assert(state@ =~= theta(start));
    let mut b: [u64; 25] = [0; 25];
    let mut j: usize = 0;
    while j < 25
        invariant
            j <= 25,
            start.len() == 25,
            state@ == theta(start),
            forall|k: int| 0 <= k < j ==> #[trigger] b@[k] == rho_pi(theta(start))[k],
        decreases 25 - j,
    {
        let x: usize = (3 * (j / 5) + j % 5) % 5;
        let y: usize = j % 5;
        proof {
            rho_in_range(x as int, y as int);
        }
        let amount: u32 = RHO[x][y];
        b[j] = rotate_left(state[x + 5 * y], amount);
        j = j + 1;
    }
    assert(b@ =~= rho_pi(theta(start)));
    let mut k: usize = 0;
    while k < 25
        invariant
            k <= 25,
            start.len() == 25,
            b@ == rho_pi(theta(start)),
            forall|m: int| 0 <= m < k ==> #[trigger] state@[m] == chi(b@)[m],
        decreases 25 - k,
    {
        let x: usize = k % 5;
        let y: usize = k / 5;
        state[k] = b[k] ^ ((!b[(x + 1) % 5 + 5 * y]) & b[(x + 2) % 5 + 5 * y]);
        k = k + 1;
    }
    assert(state@ =~= chi(b@));
    state[0] = state[0] ^ rc;
    assert(state@ =~= round(start, rc));
}

/// Every rotation is below the lane width.
pub proof fn rho_in_range(x: int, y: int)
    requires
        0 <= x < 5,
        0 <= y < 5,
    ensures
        RHO@[x]@[y] < 64,
{
}

/// Runs all rounds on `state`.
pub fn keccak_f1600(state: [u64; 25]) -> (r: [u64; 25])
    ensures
        r@ == rounds(state@, NUM_RC as nat),
{
    let mut s = state;
    let mut i: usize = 0;
    while i < NUM_RC
        invariant
            i <= NUM_RC,
            s@ == rounds(state@, i as nat),
        decreases NUM_RC - i,
    {
        keccak_round(&mut s, KECCAK_RC[i]);
        i = i + 1;
    }
    s
}

} // verus!
