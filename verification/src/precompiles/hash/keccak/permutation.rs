//! A round of Keccak-f\[1600] is a permutation of the states.

use crate::precompiles::hash::keccak::reference::{
    chi, moved_from, parity, rho_in_range, rho_pi, rotl, round, theta, theta_mask, RHO,
};
use vstd::prelude::*;

verus! {

/// The round constant changes the first lane alone.
pub proof fn round_constant_meets_the_first_lane(s: Seq<u64>, rc: u64)
    requires
        s.len() == 25,
    ensures
        round(s, rc)[0] == round(s, 0)[0] ^ rc,
        forall|i: int| 1 <= i < 25 ==> #[trigger] round(s, rc)[i] == round(s, 0)[i],
{
    let first = chi(rho_pi(theta(s)))[0];
    assert(first ^ 0 == first) by (bit_vector);
}

proof fn rotations_differ(a: u64, b: u64, amount: u32)
    requires
        amount < 64,
        rotl(a, amount) == rotl(b, amount),
    ensures
        a == b,
{
    if amount != 0 {
        let back: u32 = (64 - amount) as u32;
        assert(a == b) by (bit_vector)
            requires
                0 < amount < 64,
                back == 64 - amount,
                (a << amount) | (a >> back) == (b << amount) | (b >> back),
        ;
    }
}

/// The lane that `(x, y)` is brought to.
proof fn lanes_are_moved(x: int, y: int) -> (i: int)
    requires
        0 <= x < 5,
        0 <= y < 5,
    ensures
        0 <= i < 25,
        moved_from(i % 5, i / 5) == (x, y),
{
    // `out_x` is `y`, and `out_y` solves `3 * out_y + y == x` modulo 5.
    let out_y = (2 * x + 3 * y) % 5;
    y + 5 * out_y
}

proof fn rho_pi_differs(s: Seq<u64>, t: Seq<u64>)
    requires
        s.len() == 25,
        t.len() == 25,
        rho_pi(s) == rho_pi(t),
    ensures
        s == t,
{
    assert forall|k: int| 0 <= k < 25 implies s[k] == t[k] by {
        let x = k % 5;
        let y = k / 5;
        let i = lanes_are_moved(x, y);
        rho_in_range(x, y);
        assert(rho_pi(s)[i] == rotl(s[x + 5 * y], RHO@[x]@[y]));
        assert(rho_pi(t)[i] == rotl(t[x + 5 * y], RHO@[x]@[y]));
        rotations_differ(s[k], t[k], RHO@[x]@[y]);
    }
    assert(s =~= t);
}

proof fn rows_differ(
    a0: u64,
    a1: u64,
    a2: u64,
    a3: u64,
    a4: u64,
    b0: u64,
    b1: u64,
    b2: u64,
    b3: u64,
    b4: u64,
)
    requires
        a0 ^ (!a1 & a2) == b0 ^ (!b1 & b2),
        a1 ^ (!a2 & a3) == b1 ^ (!b2 & b3),
        a2 ^ (!a3 & a4) == b2 ^ (!b3 & b4),
        a3 ^ (!a4 & a0) == b3 ^ (!b4 & b0),
        a4 ^ (!a0 & a1) == b4 ^ (!b0 & b1),
    ensures
        a0 == b0,
        a1 == b1,
        a2 == b2,
        a3 == b3,
        a4 == b4,
{
    assert(a0 == b0 && a1 == b1 && a2 == b2 && a3 == b3 && a4 == b4) by (bit_vector)
        requires
            a0 ^ (!a1 & a2) == b0 ^ (!b1 & b2),
            a1 ^ (!a2 & a3) == b1 ^ (!b2 & b3),
            a2 ^ (!a3 & a4) == b2 ^ (!b3 & b4),
            a3 ^ (!a4 & a0) == b3 ^ (!b4 & b0),
            a4 ^ (!a0 & a1) == b4 ^ (!b0 & b1),
    ;
}

/// What chi does to the lane at `(x, y)`.
proof fn chi_at(s: Seq<u64>, t: Seq<u64>, x: int, y: int)
    requires
        s.len() == 25,
        t.len() == 25,
        chi(s) == chi(t),
        0 <= x < 5,
        0 <= y < 5,
    ensures
        s[x + 5 * y] ^ (!s[(x + 1) % 5 + 5 * y] & s[(x + 2) % 5 + 5 * y]) == t[x + 5 * y] ^ (!t[(x
            + 1) % 5 + 5 * y] & t[(x + 2) % 5 + 5 * y]),
{
    let i = x + 5 * y;
    assert(i % 5 == x && i / 5 == y);
    assert(chi(s)[i] == s[i] ^ (!s[(i % 5 + 1) % 5 + 5 * (i / 5)] & s[(i % 5 + 2) % 5 + 5 * (i
        / 5)]));
    assert(chi(t)[i] == t[i] ^ (!t[(i % 5 + 1) % 5 + 5 * (i / 5)] & t[(i % 5 + 2) % 5 + 5 * (i
        / 5)]));
}

proof fn chi_differs(s: Seq<u64>, t: Seq<u64>)
    requires
        s.len() == 25,
        t.len() == 25,
        chi(s) == chi(t),
    ensures
        s == t,
{
    assert forall|y: int| 0 <= y < 5 implies {
        &&& s[5 * y] == t[5 * y]
        &&& s[5 * y + 1] == t[5 * y + 1]
        &&& s[5 * y + 2] == t[5 * y + 2]
        &&& s[5 * y + 3] == t[5 * y + 3]
        &&& #[trigger] s[5 * y + 4] == t[5 * y + 4]
    } by {
        let k = 5 * y;
        chi_at(s, t, 0, y);
        chi_at(s, t, 1, y);
        chi_at(s, t, 2, y);
        chi_at(s, t, 3, y);
        chi_at(s, t, 4, y);
        rows_differ(
            s[k],
            s[k + 1],
            s[k + 2],
            s[k + 3],
            s[k + 4],
            t[k],
            t[k + 1],
            t[k + 2],
            t[k + 3],
            t[k + 4],
        );
    }
    assert forall|k: int| 0 <= k < 25 implies s[k] == t[k] by {
        let y = k / 5;
        assert(s[5 * y + 4] == t[5 * y + 4]);
    }
    assert(s =~= t);
}

/// A word that its rotations by 1 and 4 cancel is zero. Squaring the condition four times moves
/// the rotations to 16 and 64.
proof fn cancelled_words_vanish(x: u64)
    requires
        x ^ rotl(x, 1) ^ rotl(x, 4) == 0,
    ensures
        x == 0,
{
    assert(x ^ rotl(x, 2) ^ rotl(x, 8) == 0) by (bit_vector)
        requires
            x ^ rotl(x, 1) ^ rotl(x, 4) == 0,
    ;
    assert(x ^ rotl(x, 4) ^ rotl(x, 16) == 0) by (bit_vector)
        requires
            x ^ rotl(x, 2) ^ rotl(x, 8) == 0,
    ;
    assert(x ^ rotl(x, 8) ^ rotl(x, 32) == 0) by (bit_vector)
        requires
            x ^ rotl(x, 4) ^ rotl(x, 16) == 0,
    ;
    assert(x == 0) by (bit_vector)
        requires
            x ^ rotl(x, 8) ^ rotl(x, 32) == 0,
    ;
}

/// Column differences that theta's own masks make up are zero.
proof fn columns_vanish(c0: u64, c1: u64, c2: u64, c3: u64, c4: u64)
    requires
        c0 == c4 ^ rotl(c1, 1),
        c1 == c0 ^ rotl(c2, 1),
        c2 == c1 ^ rotl(c3, 1),
        c3 == c2 ^ rotl(c4, 1),
        c4 == c3 ^ rotl(c0, 1),
    ensures
        c0 == 0,
        c1 == 0,
        c2 == 0,
        c3 == 0,
        c4 == 0,
{
    assert(c4 == c0 ^ rotl(c1, 1)) by (bit_vector)
        requires
            c0 == c4 ^ rotl(c1, 1),
    ;
    assert(c3 == c4 ^ rotl(c0, 1)) by (bit_vector)
        requires
            c4 == c3 ^ rotl(c0, 1),
    ;
    assert(c2 == c0 ^ rotl(c1, 1) ^ rotl(c1, 2)) by (bit_vector)
        requires
            c3 == c2 ^ rotl(c4, 1),
            c3 == c4 ^ rotl(c0, 1),
            c4 == c0 ^ rotl(c1, 1),
    ;
    assert(c0 ^ rotl(c0, 1) ^ rotl(c0, 2) == c1 ^ rotl(c1, 1)) by (bit_vector)
        requires
            c2 == c1 ^ rotl(c3, 1),
            c2 == c0 ^ rotl(c1, 1) ^ rotl(c1, 2),
            c3 == c4 ^ rotl(c0, 1),
            c4 == c0 ^ rotl(c1, 1),
    ;
    assert(c0 ^ rotl(c0, 1) == c1 ^ rotl(c1, 2) ^ rotl(c1, 3)) by (bit_vector)
        requires
            c1 == c0 ^ rotl(c2, 1),
            c2 == c0 ^ rotl(c1, 1) ^ rotl(c1, 2),
    ;
    assert(c1 ^ rotl(c1, 1) ^ rotl(c1, 4) == 0) by (bit_vector)
        requires
            c0 ^ rotl(c0, 1) ^ rotl(c0, 2) == c1 ^ rotl(c1, 1),
            c0 ^ rotl(c0, 1) == c1 ^ rotl(c1, 2) ^ rotl(c1, 3),
    ;
    cancelled_words_vanish(c1);
    assert(c0 == 0) by (bit_vector)
        requires
            c0 ^ rotl(c0, 1) ^ rotl(c0, 2) == c1 ^ rotl(c1, 1),
            c0 ^ rotl(c0, 1) == c1 ^ rotl(c1, 2) ^ rotl(c1, 3),
            c1 == 0,
    ;
    assert(c2 == 0 && c3 == 0 && c4 == 0) by (bit_vector)
        requires
            c0 == 0,
            c1 == 0,
            c4 == c0 ^ rotl(c1, 1),
            c3 == c4 ^ rotl(c0, 1),
            c2 == c0 ^ rotl(c1, 1) ^ rotl(c1, 2),
    ;
}

/// What theta does to the lane at `(x, y)`.
proof fn theta_at(s: Seq<u64>, t: Seq<u64>, x: int, y: int)
    requires
        s.len() == 25,
        t.len() == 25,
        theta(s) == theta(t),
        0 <= x < 5,
        0 <= y < 5,
    ensures
        s[x + 5 * y] ^ theta_mask(s, x) == t[x + 5 * y] ^ theta_mask(t, x),
{
    let i = x + 5 * y;
    assert(i % 5 == x);
    assert(theta(s)[i] == s[i] ^ theta_mask(s, i % 5));
    assert(theta(t)[i] == t[i] ^ theta_mask(t, i % 5));
}

/// What theta adds to column `x` differs between two states by this much.
spec fn mask_gap(s: Seq<u64>, t: Seq<u64>, x: int) -> u64 {
    theta_mask(s, x) ^ theta_mask(t, x)
}

/// Where theta gives the same, the columns differ by as much as the masks.
proof fn parities_follow_masks(s: Seq<u64>, t: Seq<u64>, x: int)
    requires
        s.len() == 25,
        t.len() == 25,
        theta(s) == theta(t),
        0 <= x < 5,
    ensures
        parity(s, x) ^ parity(t, x) == mask_gap(s, t, x),
{
    let m = theta_mask(s, x);
    let n = theta_mask(t, x);
    theta_at(s, t, x, 0);
    theta_at(s, t, x, 1);
    theta_at(s, t, x, 2);
    theta_at(s, t, x, 3);
    theta_at(s, t, x, 4);
    let (a0, a1, a2, a3, a4) = (s[x], s[x + 5], s[x + 10], s[x + 15], s[x + 20]);
    let (b0, b1, b2, b3, b4) = (t[x], t[x + 5], t[x + 10], t[x + 15], t[x + 20]);
    assert((a0 ^ a1 ^ a2 ^ a3 ^ a4) ^ (b0 ^ b1 ^ b2 ^ b3 ^ b4) == m ^ n) by (bit_vector)
        requires
            a0 ^ m == b0 ^ n,
            a1 ^ m == b1 ^ n,
            a2 ^ m == b2 ^ n,
            a3 ^ m == b3 ^ n,
            a4 ^ m == b4 ^ n,
    ;
}

/// The gaps between the masks are made up of the gaps beside them.
proof fn gaps_follow_gaps(s: Seq<u64>, t: Seq<u64>, x: int)
    requires
        s.len() == 25,
        t.len() == 25,
        theta(s) == theta(t),
        0 <= x < 5,
    ensures
        mask_gap(s, t, x) == mask_gap(s, t, (x + 4) % 5) ^ rotl(mask_gap(s, t, (x + 1) % 5), 1),
{
    parities_follow_masks(s, t, (x + 4) % 5);
    parities_follow_masks(s, t, (x + 1) % 5);
    let (a, b) = (parity(s, (x + 4) % 5), parity(t, (x + 4) % 5));
    let (c, d) = (parity(s, (x + 1) % 5), parity(t, (x + 1) % 5));
    assert((a ^ rotl(c, 1)) ^ (b ^ rotl(d, 1)) == (a ^ b) ^ rotl(c ^ d, 1)) by (bit_vector);
}

proof fn theta_differs(s: Seq<u64>, t: Seq<u64>)
    requires
        s.len() == 25,
        t.len() == 25,
        theta(s) == theta(t),
    ensures
        s == t,
{
    gaps_follow_gaps(s, t, 0);
    gaps_follow_gaps(s, t, 1);
    gaps_follow_gaps(s, t, 2);
    gaps_follow_gaps(s, t, 3);
    gaps_follow_gaps(s, t, 4);
    columns_vanish(
        mask_gap(s, t, 0),
        mask_gap(s, t, 1),
        mask_gap(s, t, 2),
        mask_gap(s, t, 3),
        mask_gap(s, t, 4),
    );
    assert forall|i: int| 0 <= i < 25 implies s[i] == t[i] by {
        theta_at(s, t, i % 5, i / 5);
        assert(mask_gap(s, t, i % 5) == 0);
        let (a, b) = (s[i], t[i]);
        let (m, n) = (theta_mask(s, i % 5), theta_mask(t, i % 5));
        assert(a == b) by (bit_vector)
            requires
                a ^ m == b ^ n,
                m ^ n == 0,
        ;
    }
    assert(s =~= t);
}

/// For a fixed round constant, no two states have the same next state.
pub proof fn rounds_are_permutations(s: Seq<u64>, t: Seq<u64>, rc: u64)
    requires
        s.len() == 25,
        t.len() == 25,
        round(s, rc) == round(t, rc),
    ensures
        s == t,
{
    let a = chi(rho_pi(theta(s)));
    let b = chi(rho_pi(theta(t)));
    assert(round(s, rc)[0] == a[0] ^ rc);
    assert(round(t, rc)[0] == b[0] ^ rc);
    let (x, y) = (a[0], b[0]);
    assert(x == y) by (bit_vector)
        requires
            x ^ rc == y ^ rc,
    ;
    assert forall|i: int| 0 <= i < 25 implies a[i] == b[i] by {
        if i > 0 {
            assert(round(s, rc)[i] == a[i]);
            assert(round(t, rc)[i] == b[i]);
        }
    }
    assert(a =~= b);
    chi_differs(rho_pi(theta(s)), rho_pi(theta(t)));
    rho_pi_differs(theta(s), theta(t));
    theta_differs(s, t);
}

} // verus!
