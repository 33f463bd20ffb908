//! What the figures of the security estimate are: the least ones that suffice.

use crate::precompiles::security::{
    air_shape, boundary_loss, ceil_div, pow2_at_least, round_up, two_to, FIXED_LOG2_E,
};
use vstd::arithmetic::div_mod::{lemma_fundamental_div_mod, lemma_mod_multiples_basic};
use vstd::prelude::*;

verus! {

/// A width is padded to the next multiple of the alignment: far enough, and no further.
pub proof fn padding_is_least(width: int, alignment: int)
    requires
        0 <= width,
        0 < alignment,
    ensures
        round_up(width, alignment) % alignment == 0,
        width <= round_up(width, alignment) < width + alignment,
{
    let x = width + alignment - 1;
    lemma_fundamental_div_mod(x, alignment);
    let q = x / alignment;
    assert(q * alignment == alignment * q) by (nonlinear_arith);
    lemma_mod_multiples_basic(q, alignment);
}

/// A quotient rounded up is the least number that times the divisor reaches the dividend.
pub proof fn quotients_round_up(a: int, b: int)
    requires
        0 <= a,
        0 < b,
    ensures
        a <= b * ceil_div(a, b) < a + b,
        0 <= ceil_div(a, b),
{
    lemma_fundamental_div_mod(a + b - 1, b);
    let q = (a + b - 1) / b;
    assert(q >= 0) by (nonlinear_arith)
        requires
            a + b - 1 == b * q + (a + b - 1) % b,
            0 <= (a + b - 1) % b < b,
            a + b - 1 >= 0,
            b > 0,
    ;
}

/// The number of chunks is a power of two that is large enough, and half of it is not.
pub proof fn powers_are_least(n: int, from: int, e: nat) -> (k: nat)
    requires
        from == two_to(e),
        e == 0 || two_to((e - 1) as nat) < n,
        0 < from,
    ensures
        pow2_at_least(n, from) == two_to(k),
        n <= pow2_at_least(n, from),
        k == 0 || two_to((k - 1) as nat) < n,
    decreases 2 * n - from,
{
    if from >= n {
        e
    } else {
        assert(two_to(e + 1) == 2 * two_to(e));
        assert((e + 1 - 1) as nat == e);
        powers_are_least(n, 2 * from, e + 1)
    }
}

/// The loss from the fixed fractions is the least one that covers them: spread over all fractions of
/// the trace, it reaches the logarithm that the fixed ones cost, and one less does not.
pub proof fn loss_covers_the_fixed_fractions(fixed_count: int, log_max_height: nat)
    requires
        0 <= fixed_count,
    ensures
        ({
            let loss = boundary_loss(fixed_count, log_max_height);
            let all = air_shape().fractions_per_row * two_to(log_max_height);
            &&& fixed_count * FIXED_LOG2_E <= loss * all
            &&& fixed_count > 0 ==> (loss - 1) * all < fixed_count * FIXED_LOG2_E
            &&& fixed_count == 0 ==> loss == 0
        }),
{
    let cost: int = fixed_count * FIXED_LOG2_E;
    let f: int = air_shape().fractions_per_row as int;
    let h: int = two_to(log_max_height) as int;
    positive(log_max_height);
    assert(cost >= 0) by (nonlinear_arith)
        requires
            cost == fixed_count * FIXED_LOG2_E,
            fixed_count >= 0,
    ;
    let row = ceil_div(cost, f);
    quotients_round_up(cost, f);
    let loss = ceil_div(row, h);
    quotients_round_up(row, h);
    assert(cost <= loss * (f * h)) by (nonlinear_arith)
        requires
            cost <= f * row,
            row <= h * loss,
            f > 0,
    ;
    if fixed_count > 0 {
        assert((loss - 1) * (f * h) < cost) by (nonlinear_arith)
            requires
                f * row < cost + f,
                h * loss < row + h,
                f > 0,
                h > 0,
        {
            assert(h * (loss - 1) <= row - 1) by (nonlinear_arith)
                requires
                    h * loss < row + h,
            ;
            assert(f * (h * (loss - 1)) <= f * (row - 1)) by (nonlinear_arith)
                requires
                    h * (loss - 1) <= row - 1,
                    f > 0,
            ;
            assert(f * (row - 1) == f * row - f) by (nonlinear_arith);
            assert(f * (h * (loss - 1)) == (loss - 1) * (f * h)) by (nonlinear_arith);
        }
    } else {
        assert(cost == 0) by (nonlinear_arith)
            requires
                cost == fixed_count * FIXED_LOG2_E,
                fixed_count == 0,
        ;
        assert(row == 0) by (nonlinear_arith)
            requires
                0 <= row,
                f * row < f,
                f > 0,
        ;
        assert(loss == 0) by (nonlinear_arith)
            requires
                0 <= loss,
                h * loss < h,
                h > 0,
        ;
    }
}

proof fn positive(e: nat)
    ensures
        two_to(e) > 0,
    decreases e,
{
    if e > 0 {
        positive((e - 1) as nat);
    }
}

} // verus!
