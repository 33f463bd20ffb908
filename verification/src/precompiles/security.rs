//! Soundness of the deployed proof parameters.
//!
//! Bit counts are fixed-point: sixteen fractional bits.

use p3_security::budget::{
    security_report as native_report, AirShape as NativeAirShape,
    InstanceShape as NativeInstanceShape, LookupShape as NativeLookupShape,
    ProtocolParams as NativeProtocolParams,
};
use p3_security::fixed::ceil_log2 as native_ceil_log2;
use vstd::prelude::*;

verus! {

/// Points at which the committed columns are opened.
pub const NUM_OOD_POINTS: u32 = 2;
/// Degree of the challenge field over the base field.
pub const EXTENSION_DEGREE: usize = 2;
/// Size of the challenge field, in fixed-point bits.
pub const CHALLENGE_FIELD_BITS: u64 = 8_388_606;
/// Collision resistance of the commitment hash, in bits.
pub const COLLISION_RESISTANCE: u32 = 127;
/// `log2(e)` in fixed point, rounded up.
pub const FIXED_LOG2_E: u64 = 94_549;
/// Rounds of the argument, each with its own error.
pub const NUM_TERMS: usize = 7;

/// What the error of each round depends on.
#[derive(Debug, Clone, Copy, PartialEq, Eq, Structural)]
pub struct AirShape {
    pub num_composed_constraints: u32,
    pub max_constraint_degree: u32,
    pub num_deep_terms: u32,
    pub fractions_per_row: u32,
    pub max_message_width: u32,
}

/// The proof parameters that soundness depends on.
#[derive(Debug, Clone, Copy, PartialEq, Eq, Structural)]
pub struct ProtocolParams {
    pub log_blowup: u32,
    pub log_folding_arity: u32,
    pub num_queries: u32,
    pub query_pow_bits: u32,
    pub deep_pow_bits: u32,
    pub folding_pow_bits: u32,
    pub lookup_pow_bits: u32,
}

/// The parameters of the polynomial commitment.
#[derive(Debug, Clone, Copy, PartialEq, Eq, Structural)]
pub struct PcsParams {
    pub log_blowup: u8,
    pub log_folding_arity: u8,
    pub log_final_degree: u8,
    pub folding_pow_bits: u32,
    pub deep_pow_bits: u32,
    pub num_queries: u32,
    pub query_pow_bits: u32,
}

/// A round of the argument.
#[derive(Debug, Clone, Copy, PartialEq, Eq, Structural)]
pub enum Round {
    LookupChallenge,
    ConstraintComposition,
    OutOfDomain,
    DeepComposition,
    FriFolding,
    FriQuery,
    CommitmentCollision,
}

/// The soundness of each round, in fixed-point bits.
#[derive(Debug)]
pub struct SecurityReport {
    bits: Vec<u64>,
}

/// The shape of the deployed relation.
#[verifier::allow_in_spec]
pub fn air_shape() -> AirShape
    returns
        (AirShape {
            num_composed_constraints: 586,
            max_constraint_degree: 5,
            num_deep_terms: 770,
            fractions_per_row: 244,
            max_message_width: 18,
        }),
{
    AirShape {
        num_composed_constraints: 586,
        max_constraint_degree: 5,
        num_deep_terms: 770,
        fractions_per_row: 244,
        max_message_width: 18,
    }
}

/// The deployed commitment parameters.
#[verifier::allow_in_spec]
pub fn precompile_pcs_params() -> PcsParams
    returns
        (PcsParams {
            log_blowup: 3,
            log_folding_arity: 2,
            log_final_degree: 7,
            folding_pow_bits: 4,
            deep_pow_bits: 12,
            num_queries: 27,
            query_pow_bits: 17,
        }),
{
    PcsParams {
        log_blowup: 3,
        log_folding_arity: 2,
        log_final_degree: 7,
        folding_pow_bits: 4,
        deep_pow_bits: 12,
        num_queries: 27,
        query_pow_bits: 17,
    }
}

/// Cheap commitment parameters for trying things out. They offer no security.
#[verifier::allow_in_spec]
pub fn test_pcs_params() -> PcsParams
    returns
        (PcsParams {
            log_blowup: 3,
            log_folding_arity: 1,
            log_final_degree: 3,
            folding_pow_bits: 0,
            deep_pow_bits: 0,
            num_queries: 4,
            query_pow_bits: 0,
        }),
{
    PcsParams {
        log_blowup: 3,
        log_folding_arity: 1,
        log_final_degree: 3,
        folding_pow_bits: 0,
        deep_pow_bits: 0,
        num_queries: 4,
        query_pow_bits: 0,
    }
}

/// The least multiple of `alignment` that is at least `width`.
pub open spec fn round_up(width: int, alignment: int) -> int {
    (width + alignment - 1) / alignment * alignment
}

/// `width` padded to a multiple of `alignment`.
pub fn aligned(width: usize, alignment: usize) -> (r: usize)
    requires
        alignment > 0,
        width + alignment <= usize::MAX,
    ensures
        r == round_up(width as int, alignment as int),
        r >= width,
        r < width + alignment,
{
    let chunks: usize = (width + alignment - 1) / alignment;
    let rest: usize = (width + alignment - 1) % alignment;
    proof {
        vstd::arithmetic::div_mod::lemma_fundamental_div_mod(
            width + alignment - 1,
            alignment as int,
        );
        assert(chunks * alignment == width + alignment - 1 - rest) by (nonlinear_arith)
            requires
                width + alignment - 1 == alignment * chunks + rest,
        ;
    }
    width + alignment - 1 - rest
}

/// The least power of two that is at least `n`.
pub open spec fn pow2_at_least(n: int, from: int) -> int
    decreases 2 * n - from,
{
    if from >= n || from <= 0 {
        from
    } else {
        pow2_at_least(n, 2 * from)
    }
}

/// Columns of the quotient commitment: one per power-of-two chunk and extension coordinate.
pub fn quotient_column_count(max_constraint_degree: usize, alignment: usize) -> (r: usize)
    requires
        0 < alignment <= 0x1_0000,
        max_constraint_degree <= 0x1_0000,
    ensures
        r == round_up(
            pow2_at_least(
                if max_constraint_degree >= 2 {
                    max_constraint_degree - 1
                } else {
                    1
                },
                1,
            ) * EXTENSION_DEGREE,
            alignment as int,
        ),
        r <= 0x5_0000,
{
    let chunks_needed: usize = if max_constraint_degree >= 2 {
        max_constraint_degree - 1
    } else {
        1
    };
    let mut chunks: usize = 1;
    while chunks < chunks_needed
        invariant
            1 <= chunks_needed <= 0x1_0000,
            1 <= chunks < 2 * chunks_needed,
            pow2_at_least(chunks_needed as int, 1) == pow2_at_least(
                chunks_needed as int,
                chunks as int,
            ),
        decreases 2 * chunks_needed - chunks,
    {
        chunks = chunks * 2;
    }
    aligned(chunks * EXTENSION_DEGREE, alignment)
}

/// The committed columns of one chiplet.
#[derive(Debug, Clone, Copy)]
pub struct ChipletWidths {
    pub preprocessed: usize,
    pub main: usize,
    pub aux: usize,
}

impl ChipletWidths {
    /// Whether the widths are small enough to count.
    pub open spec fn countable(self) -> bool {
        self.preprocessed <= 0x1_0000 && self.main <= 0x1_0000 && self.aux <= 0x1_0000
    }

    /// Columns committed for this chiplet, each matrix padded to the alignment.
    pub open spec fn columns(self, alignment: int) -> int {
        round_up(self.preprocessed as int, alignment) + round_up(self.main as int, alignment)
            + round_up(self.aux * EXTENSION_DEGREE, alignment)
    }
}

/// Columns committed for a chiplet, each matrix padded to the alignment.
pub fn column_count(widths: &ChipletWidths, alignment: usize) -> (r: usize)
    requires
        0 < alignment <= 0x1_0000,
        widths.countable(),
    ensures
        r == widths.columns(alignment as int),
        r <= 0x8_0000,
{
    aligned(widths.preprocessed, alignment) + aligned(widths.main, alignment) + aligned(
        widths.aux * EXTENSION_DEGREE,
        alignment,
    )
}

/// Columns committed for the first `count` chiplets.
pub open spec fn columns_upto(widths: Seq<ChipletWidths>, alignment: int, count: nat) -> int
    decreases count,
{
    if count == 0 {
        0
    } else {
        columns_upto(widths, alignment, (count - 1) as nat) + widths[count - 1].columns(alignment)
    }
}

/// Terms of the DEEP quotient: one for each committed column of the chiplets and of the quotient,
/// and one for each opening point.
pub fn num_deep_terms(widths: &[ChipletWidths], alignment: usize) -> (r: u32)
    requires
        0 < alignment <= 0x1_0000,
        widths@.len() <= 0x100,
        forall|i: int| 0 <= i < widths@.len() ==> (#[trigger] widths@[i]).countable(),
    ensures
        r == columns_upto(widths@, alignment as int, widths@.len()) + round_up(
            8,
            alignment as int,
        ) + NUM_OOD_POINTS,
{
    let mut columns: usize = 0;
    let mut i: usize = 0;
    while i < widths.len()
        invariant
            0 < alignment <= 0x1_0000,
            i <= widths@.len() <= 0x100,
            forall|i: int| 0 <= i < widths@.len() ==> (#[trigger] widths@[i]).countable(),
            columns == columns_upto(widths@, alignment as int, i as nat),
            columns <= i * 0x8_0000,
        decreases widths@.len() - i,
    {
        columns = columns + column_count(&widths[i], alignment);
        i = i + 1;
    }
    let degree: usize = air_shape().max_constraint_degree as usize;
    let quotient: usize = quotient_column_count(degree, alignment);
    assert(pow2_at_least(4, 1) == 4) by {
        reveal_with_fuel(pow2_at_least, 4);
    }
    (columns + quotient) as u32 + NUM_OOD_POINTS
}

/// `ceil(a / b)`.
pub open spec fn ceil_div(a: int, b: int) -> int {
    (a + b - 1) / b
}

/// `2^exp`.
pub open spec fn two_to(exp: nat) -> nat
    decreases exp,
{
    if exp == 0 {
        1
    } else {
        2 * two_to((exp - 1) as nat)
    }
}

/// `2^exp` as a machine word.
fn power_of_two(exp: u32) -> (r: u64)
    requires
        exp < 64,
    ensures
        r == two_to(exp as nat),
        r > 0,
{
    let mut r: u64 = 1;
    let mut i: u32 = 0;
    assert(two_to(63) == 0x8000_0000_0000_0000) by {
        reveal_with_fuel(two_to, 64);
    }
    while i < exp
        invariant
            i <= exp < 64,
            r == two_to(i as nat),
            0 < r <= 0x8000_0000_0000_0000,
            i == 63 || r <= 0x4000_0000_0000_0000,
            r == two_to(i as nat) && two_to(63) == 0x8000_0000_0000_0000,
        decreases exp - i,
    {
        proof {
            two_to_monotone((i + 1) as nat, 63);
        }
        r = r * 2;
        i = i + 1;
        proof {
            if i < 63 {
                two_to_monotone(i as nat, 62);
                assert(two_to(63) == 2 * two_to(62));
            }
        }
    }
    r
}

proof fn two_to_monotone(a: nat, b: nat)
    requires
        a <= b,
    ensures
        0 < two_to(a) <= two_to(b),
    decreases b,
{
    if a < b {
        two_to_monotone(a, (b - 1) as nat);
    } else if a > 0 {
        two_to_monotone((a - 1) as nat, (a - 1) as nat);
    }
}

/// Loss in the lookup round from the `fixed_count` fractions that every trace holds besides its
/// rows, in fixed-point bits.
pub open spec fn boundary_loss(fixed_count: int, log_max_height: nat) -> int {
    ceil_div(
        ceil_div(fixed_count * FIXED_LOG2_E, air_shape().fractions_per_row as int),
        two_to(log_max_height) as int,
    )
}

/// Loss in the lookup round from the fractions that every trace holds besides its rows.
pub fn fixed_boundary_correction(fixed_count: u32, log_max_height: u32) -> (r: u64)
    requires
        log_max_height < 64,
    ensures
        r == boundary_loss(fixed_count as int, log_max_height as nat),
{
    let numerator: u64 = fixed_count as u64 * FIXED_LOG2_E;
    let per_row: u64 = (numerator + 243) / (air_shape().fractions_per_row as u64);
    let height: u64 = power_of_two(log_max_height);
    let whole: u64 = per_row / height;
    let rest: u64 = per_row % height;
    proof {
        let (a, h) = (per_row as int, height as int);
        vstd::arithmetic::div_mod::lemma_fundamental_div_mod(a, h);
        if rest == 0 {
            assert(a + h - 1 == whole * h + (h - 1)) by (nonlinear_arith)
                requires
                    a == h * whole,
            ;
            vstd::arithmetic::div_mod::lemma_fundamental_div_mod_converse(
                a + h - 1,
                h,
                whole as int,
                h - 1,
            );
        } else {
            assert(a + h - 1 == (whole + 1) * h + (rest - 1)) by (nonlinear_arith)
                requires
                    a == h * whole + rest,
            ;
            vstd::arithmetic::div_mod::lemma_fundamental_div_mod_converse(
                a + h - 1,
                h,
                whole + 1,
                rest - 1,
            );
        }
    }
    if rest == 0 {
        whole
    } else {
        whole + 1
    }
}

/// The soundness of each round in fixed-point bits, as the budget of the proof system's authors
/// counts it, from the proof parameters and the shape of the relation.
pub uninterp spec fn round_bits(params: Seq<int>, instance: Seq<int>, air: Seq<int>) -> Seq<u64>;

/// The parameters that the budget reads.
pub open spec fn budget_params(p: ProtocolParams) -> Seq<int> {
    seq![
        p.log_blowup as int,
        p.log_folding_arity as int,
        p.num_queries as int,
        p.query_pow_bits as int,
        p.deep_pow_bits as int,
        p.folding_pow_bits as int,
        p.lookup_pow_bits as int,
    ]
}

/// The proof that is graded: its trace height, the size of its challenge field in fixed-point bits
/// and the collision resistance of its commitments.
#[derive(Debug, Clone, Copy, PartialEq, Eq, Structural)]
pub struct InstanceShape {
    pub log_max_height: u32,
    pub field_bits: u64,
    pub collision_resistance: u32,
}

/// The instance that the budget reads.
pub open spec fn budget_instance(i: InstanceShape) -> Seq<int> {
    seq![i.log_max_height as int, i.field_bits as int, i.collision_resistance as int]
}

/// A proof of the deployed relation.
pub open spec fn instance_at(log_max_height: u32) -> InstanceShape {
    InstanceShape {
        log_max_height,
        field_bits: CHALLENGE_FIELD_BITS,
        collision_resistance: COLLISION_RESISTANCE,
    }
}

/// The shape that the budget reads.
pub open spec fn budget_air(a: AirShape, max_combo: u32) -> Seq<int> {
    seq![
        a.num_composed_constraints as int,
        a.max_constraint_degree as int,
        a.num_deep_terms as int,
        a.fractions_per_row as int,
        a.max_message_width as int,
        max_combo as int,
    ]
}

/// Whether the budget's arithmetic stays in range.
pub open spec fn gradable(p: ProtocolParams, log_max_height: u32) -> bool {
    &&& p.log_blowup <= 32
    &&& p.log_folding_arity <= 32
    &&& log_max_height < 64
}

/// Asks `p3_security::budget::security_report` for the soundness of each round, where each column
/// is opened at `max_combo` points. The result is a function of the arguments alone and lists the
/// seven rounds in a fixed order. What the bits are is not said here.
#[verifier::external_body]
fn budget(params: &ProtocolParams, instance: &InstanceShape, air: &AirShape, max_combo: u32) -> (r:
    Vec<u64>)
    requires
        gradable(*params, instance.log_max_height),
        instance.field_bits <= 0x1_0000_0000,
    ensures
        r@ == round_bits(
            budget_params(*params),
            budget_instance(*instance),
            budget_air(*air, max_combo),
        ),
        r@.len() == NUM_TERMS,
{
    let ProtocolParams { log_blowup, log_folding_arity, num_queries, query_pow_bits, .. } = *params;
    let ProtocolParams { deep_pow_bits, folding_pow_bits, lookup_pow_bits, .. } = *params;
    let AirShape { num_composed_constraints, max_constraint_degree, num_deep_terms, .. } = *air;
    let AirShape { fractions_per_row, max_message_width, .. } = *air;
    let InstanceShape { log_max_height, field_bits, collision_resistance } = *instance;
    let p = NativeProtocolParams { log_blowup, log_folding_arity, num_queries, query_pow_bits,
        deep_pow_bits, folding_pow_bits, lookup_pow_bits };
    let i = NativeInstanceShape { log_max_height, field_bits, collision_resistance };
    let a = NativeAirShape { num_composed_constraints, max_constraint_degree, max_combo,
        num_deep_terms: Some(num_deep_terms),
        lookup: NativeLookupShape { fractions_per_row, max_message_width } };
    native_report(&p, &i, &a).terms().iter().map(|t| t.bits).collect()
}

/// The base-two logarithm in fixed point, rounded up.
pub uninterp spec fn log2_rounded_up(x: u64) -> u64;

/// The base-two logarithm in fixed point, by `p3_security::fixed::ceil_log2`, which is undefined at
/// zero. It rounds up by at most one unit in the last place. How it rounds is not said here.
#[verifier::external_body]
fn ceil_log2(x: u64) -> (r: u64)
    requires
        x > 0,
    ensures
        r == log2_rounded_up(x),
{
    native_ceil_log2(x)
}

/// The soundness of the out-of-domain round. A violated constraint leaves a polynomial of degree
/// below `(max_constraint_degree + 1) * height`, and no grinding goes before the point is drawn.
/// No round is stronger than the commitment hash.
pub open spec fn out_of_domain_bits(max_constraint_degree: int, log_max_height: int) -> int {
    let bits = minus_or_zero(
        CHALLENGE_FIELD_BITS as int,
        log2_rounded_up((max_constraint_degree + 1) as u64) + log_max_height * 0x1_0000,
    );
    if bits < COLLISION_RESISTANCE * 0x1_0000 {
        bits
    } else {
        COLLISION_RESISTANCE * 0x1_0000
    }
}

/// The soundness of the out-of-domain round.
pub fn out_of_domain(max_constraint_degree: u32, log_max_height: u32) -> (r: u64)
    requires
        log_max_height < 64,
    ensures
        r == out_of_domain_bits(max_constraint_degree as int, log_max_height as int),
{
    let degree: u64 = ceil_log2(max_constraint_degree as u64 + 1);
    let error: u64 = degree.saturating_add(log_max_height as u64 * 0x1_0000);
    let bits: u64 = CHALLENGE_FIELD_BITS.saturating_sub(error);
    let cap: u64 = COLLISION_RESISTANCE as u64 * 0x1_0000;
    if bits < cap {
        bits
    } else {
        cap
    }
}

/// The soundness of each round, with the out-of-domain round by its own bound.
pub open spec fn all_rounds(p: ProtocolParams, log_max_height: u32, air: AirShape) -> Seq<u64> {
    round_bits(
        budget_params(p),
        budget_instance(instance_at(log_max_height)),
        budget_air(air, NUM_OOD_POINTS),
    ).update(
        2,
        out_of_domain_bits(air.max_constraint_degree as int, log_max_height as int) as u64,
    )
}

/// The soundness of each round, with the out-of-domain round by its own bound.
fn grade(params: &ProtocolParams, log_max_height: u32, air: &AirShape) -> (r: Vec<u64>)
    requires
        gradable(*params, log_max_height),
    ensures
        r@ == all_rounds(*params, log_max_height, *air),
        r@.len() == NUM_TERMS,
{
    let instance = InstanceShape {
        log_max_height,
        field_bits: CHALLENGE_FIELD_BITS,
        collision_resistance: COLLISION_RESISTANCE,
    };
    let mut bits: Vec<u64> = budget(params, &instance, air, NUM_OOD_POINTS);
    bits.set(2, out_of_domain(air.max_constraint_degree, log_max_height));
    bits
}

/// The rounds in the order of a report.
pub open spec fn round_at(i: int) -> Round {
    if i == 0 {
        Round::LookupChallenge
    } else if i == 1 {
        Round::ConstraintComposition
    } else if i == 2 {
        Round::OutOfDomain
    } else if i == 3 {
        Round::DeepComposition
    } else if i == 4 {
        Round::FriFolding
    } else if i == 5 {
        Round::FriQuery
    } else {
        Round::CommitmentCollision
    }
}

/// `a - b`, or zero.
pub open spec fn minus_or_zero(a: int, b: int) -> int {
    if a >= b {
        a - b
    } else {
        0
    }
}

impl SecurityReport {
    pub closed spec fn bits(&self) -> Seq<u64> {
        self.bits@
    }

    /// One entry for each round.
    pub open spec fn wf(&self) -> bool {
        self.bits().len() == NUM_TERMS
    }

    /// Whether round `i` is the weakest, the first such in order.
    pub open spec fn weakest(&self, i: int) -> bool {
        &&& 0 <= i < NUM_TERMS
        &&& forall|j: int| 0 <= j < NUM_TERMS ==> self.bits()[i] <= #[trigger] self.bits()[j]
        &&& forall|j: int| 0 <= j < i ==> self.bits()[i] < #[trigger] self.bits()[j]
    }

    /// The soundness of each round.
    pub fn terms(&self) -> (r: &[u64])
        ensures
            r@ == self.bits(),
    {
        self.bits.as_slice()
    }

    /// The weakest round, the first such in order.
    pub fn binding_term(&self) -> (r: Round)
        requires
            self.wf(),
        ensures
            exists|i: int| #[trigger] self.weakest(i) && r == round_at(i),
    {
        let i: usize = self.weakest_index();
        assert(self.weakest(i as int));
        if i == 0 {
            Round::LookupChallenge
        } else if i == 1 {
            Round::ConstraintComposition
        } else if i == 2 {
            Round::OutOfDomain
        } else if i == 3 {
            Round::DeepComposition
        } else if i == 4 {
            Round::FriFolding
        } else if i == 5 {
            Round::FriQuery
        } else {
            Round::CommitmentCollision
        }
    }

    fn weakest_index(&self) -> (r: usize)
        requires
            self.wf(),
        ensures
            self.weakest(r as int),
    {
        let mut best: usize = 0;
        let mut i: usize = 1;
        while i < NUM_TERMS
            invariant
                self.wf(),
                best < i <= NUM_TERMS,
                forall|j: int| 0 <= j < i ==> self.bits()[best as int] <= #[trigger] self.bits()[j],
                forall|j: int|
                    0 <= j < best ==> self.bits()[best as int] < #[trigger] self.bits()[j],
            decreases NUM_TERMS - i,
        {
            if self.bits[i] < self.bits[best] {
                best = i;
            }
            i = i + 1;
        }
        best
    }

    /// The soundness of the whole argument in whole bits: that of its weakest round.
    pub fn security_level(&self) -> (r: u32)
        requires
            self.wf(),
        ensures
            exists|i: int| #[trigger] self.weakest(i) && r == (self.bits()[i] / 0x1_0000) as u32,
    {
        let i: usize = self.weakest_index();
        assert(self.weakest(i as int));
        (self.bits[i] / 0x1_0000) as u32
    }
}

/// Charges the lookup round for the fractions that every trace holds besides its rows.
pub fn apply_fixed_boundary_correction(
    bits: Vec<u64>,
    fixed_count: u32,
    log_max_height: u32,
) -> (r: SecurityReport)
    requires
        bits@.len() == NUM_TERMS,
        log_max_height < 64,
    ensures
        r.wf(),
        r.bits() == bits@.update(
            0,
            minus_or_zero(
                bits@[0] as int,
                boundary_loss(fixed_count as int, log_max_height as nat),
            ) as u64,
        ),
{
    let correction: u64 = fixed_boundary_correction(fixed_count, log_max_height);
    let charged: u64 = bits[0].saturating_sub(correction);
    let mut out: Vec<u64> = Vec::new();
    out.push(charged);
    let mut i: usize = 1;
    while i < NUM_TERMS
        invariant
            1 <= i <= NUM_TERMS,
            bits@.len() == NUM_TERMS,
            out@ == bits@.update(0, charged).take(i as int),
        decreases NUM_TERMS - i,
    {
        out.push(bits[i]);
        assert(out@ =~= bits@.update(0, charged).take(i + 1));
        i = i + 1;
    }
    assert(out@ =~= bits@.update(0, charged));
    SecurityReport { bits: out }
}

impl PcsParams {
    /// The parameters that soundness is graded from. The lookup challenges are drawn without
    /// grinding.
    pub open spec fn protocol(self) -> ProtocolParams {
        ProtocolParams {
            log_blowup: self.log_blowup as u32,
            log_folding_arity: self.log_folding_arity as u32,
            num_queries: self.num_queries,
            query_pow_bits: self.query_pow_bits,
            deep_pow_bits: self.deep_pow_bits,
            folding_pow_bits: self.folding_pow_bits,
            lookup_pow_bits: 0,
        }
    }
}

/// The proof parameters in the form that soundness is graded from.
pub fn protocol_params(params: &PcsParams) -> (r: ProtocolParams)
    ensures
        r == params.protocol(),
{
    ProtocolParams {
        log_blowup: params.log_blowup as u32,
        log_folding_arity: params.log_folding_arity as u32,
        num_queries: params.num_queries,
        query_pow_bits: params.query_pow_bits,
        deep_pow_bits: params.deep_pow_bits,
        folding_pow_bits: params.folding_pow_bits,
        lookup_pow_bits: 0,
    }
}

/// The soundness of each round at a trace height, with `fixed_count` fixed fractions.
pub open spec fn graded(
    p: ProtocolParams,
    log_max_height: u32,
    air: AirShape,
    fixed_count: u32,
) -> Seq<u64> {
    let bits = all_rounds(p, log_max_height, air);
    bits.update(
        0,
        minus_or_zero(
            bits[0] as int,
            boundary_loss(fixed_count as int, log_max_height as nat),
        ) as u64,
    )
}

/// Entry `i` is the least.
pub open spec fn is_least(bits: Seq<u64>, i: int) -> bool {
    &&& 0 <= i < NUM_TERMS
    &&& forall|j: int| 0 <= j < NUM_TERMS ==> bits[i] <= #[trigger] bits[j]
}

/// The level is the least entry in whole bits.
pub open spec fn is_level(level: u32, bits: Seq<u64>) -> bool {
    exists|i: int| #[trigger] is_least(bits, i) && level == (bits[i] / 0x1_0000) as u32
}

/// Grades the deployed relation at a trace height.
pub fn security_report(params: &ProtocolParams, log_max_height: u32, fixed_count: u32) -> (r:
    SecurityReport)
    requires
        gradable(*params, log_max_height),
    ensures
        r.wf(),
        r.bits() == graded(*params, log_max_height, air_shape(), fixed_count),
{
    let bits = grade(params, log_max_height, &air_shape());
    apply_fixed_boundary_correction(bits, fixed_count, log_max_height)
}

/// Grades the relation for commitments padded to another alignment, which changes the number of
/// DEEP terms.
pub fn security_report_for_alignment(
    params: &ProtocolParams,
    log_max_height: u32,
    fixed_count: u32,
    widths: &[ChipletWidths],
    alignment: usize,
) -> (r: SecurityReport)
    requires
        gradable(*params, log_max_height),
        0 < alignment <= 0x1_0000,
        widths@.len() <= 0x100,
        forall|i: int| 0 <= i < widths@.len() ==> (#[trigger] widths@[i]).countable(),
    ensures
        r.wf(),
        r.bits() == graded(
            *params,
            log_max_height,
            (AirShape {
                num_deep_terms: (columns_upto(widths@, alignment as int, widths@.len()) + round_up(
                    8,
                    alignment as int,
                ) + NUM_OOD_POINTS) as u32,
                ..air_shape()
            }),
            fixed_count,
        ),
{
    let base = air_shape();
    let air = AirShape {
        num_composed_constraints: base.num_composed_constraints,
        max_constraint_degree: base.max_constraint_degree,
        num_deep_terms: num_deep_terms(widths, alignment),
        fractions_per_row: base.fractions_per_row,
        max_message_width: base.max_message_width,
    };
    let bits = grade(params, log_max_height, &air);
    apply_fixed_boundary_correction(bits, fixed_count, log_max_height)
}

/// The soundness of the deployed relation in whole bits.
pub fn conjectured_security_level(params: &PcsParams, log_max_height: u32, fixed_count: u32) -> (r:
    u32)
    requires
        params.log_blowup <= 32,
        params.log_folding_arity <= 32,
        log_max_height < 64,
    ensures
        is_level(r, graded(params.protocol(), log_max_height, air_shape(), fixed_count)),
{
    let report = security_report(&protocol_params(params), log_max_height, fixed_count);
    let level: u32 = report.security_level();
    proof {
        let i = choose|i: int|
            #[trigger] report.weakest(i) && level == (report.bits()[i] / 0x1_0000) as u32;
        assert(is_least(report.bits(), i));
    }
    level
}

/// The soundness of the relation in whole bits, for commitments padded to another alignment.
pub fn conjectured_security_level_for_alignment(
    params: &PcsParams,
    log_max_height: u32,
    fixed_count: u32,
    widths: &[ChipletWidths],
    alignment: usize,
) -> (r: u32)
    requires
        params.log_blowup <= 32,
        params.log_folding_arity <= 32,
        log_max_height < 64,
        0 < alignment <= 0x1_0000,
        widths@.len() <= 0x100,
        forall|i: int| 0 <= i < widths@.len() ==> (#[trigger] widths@[i]).countable(),
    ensures
        is_level(
            r,
            graded(
                params.protocol(),
                log_max_height,
                (AirShape {
                    num_deep_terms: (columns_upto(widths@, alignment as int, widths@.len())
                        + round_up(8, alignment as int) + NUM_OOD_POINTS) as u32,
                    ..air_shape()
                }),
                fixed_count,
            ),
        ),
{
    let report = security_report_for_alignment(
        &protocol_params(params),
        log_max_height,
        fixed_count,
        widths,
        alignment,
    );
    let level: u32 = report.security_level();
    proof {
        let i = choose|i: int|
            #[trigger] report.weakest(i) && level == (report.bits()[i] / 0x1_0000) as u32;
        assert(is_least(report.bits(), i));
    }
    level
}

/// What a chiplet adds to the shape of the relation.
#[derive(Debug, Clone, Copy)]
pub struct ChipletCounts {
    pub constraints: usize,
    pub max_degree: usize,
    pub fractions: usize,
    pub widths: ChipletWidths,
}

impl ChipletCounts {
    /// Whether the counts are small enough to add up.
    pub open spec fn countable(self) -> bool {
        &&& self.constraints <= 0x1_0000
        &&& self.max_degree <= 0x1_0000
        &&& self.fractions <= 0x1_0000
        &&& self.widths.countable()
    }
}

pub open spec fn constraints_upto(counts: Seq<ChipletCounts>, n: nat) -> int
    decreases n,
{
    if n == 0 {
        0
    } else {
        constraints_upto(counts, (n - 1) as nat) + counts[n - 1].constraints
    }
}

pub open spec fn fractions_upto(counts: Seq<ChipletCounts>, n: nat) -> int
    decreases n,
{
    if n == 0 {
        0
    } else {
        fractions_upto(counts, (n - 1) as nat) + counts[n - 1].fractions
    }
}

pub open spec fn degree_upto(counts: Seq<ChipletCounts>, n: nat) -> int
    decreases n,
{
    if n == 0 {
        0
    } else {
        let before = degree_upto(counts, (n - 1) as nat);
        if before < counts[n - 1].max_degree {
            counts[n - 1].max_degree as int
        } else {
            before
        }
    }
}

pub open spec fn widths_of(counts: Seq<ChipletCounts>) -> Seq<ChipletWidths> {
    Seq::new(counts.len(), |i: int| counts[i].widths)
}

/// Columns of the quotient commitment of a relation of the given degree.
pub open spec fn quotient_columns(max_constraint_degree: int, alignment: int) -> int {
    round_up(
        pow2_at_least(
            if max_constraint_degree >= 2 {
                max_constraint_degree - 1
            } else {
                1
            },
            1,
        ) * EXTENSION_DEGREE,
        alignment,
    )
}

/// The shape of a relation, from what each chiplet adds to it. One batching slot for each chiplet
/// beyond the first sits beside the constraints.
pub fn derive_air_shape(counts: &[ChipletCounts], alignment: usize, max_message_width: u32) -> (r:
    AirShape)
    requires
        0 < alignment <= 0x1_0000,
        1 <= counts@.len() <= 0x100,
        forall|i: int| 0 <= i < counts@.len() ==> (#[trigger] counts@[i]).countable(),
    ensures
        r == (AirShape {
            num_composed_constraints: (constraints_upto(counts@, counts@.len()) + counts@.len()
                - 1) as u32,
            max_constraint_degree: degree_upto(counts@, counts@.len()) as u32,
            num_deep_terms: (columns_upto(widths_of(counts@), alignment as int, counts@.len())
                + quotient_columns(degree_upto(counts@, counts@.len()), alignment as int)
                + NUM_OOD_POINTS) as u32,
            fractions_per_row: fractions_upto(counts@, counts@.len()) as u32,
            max_message_width,
        }),
{
    let n: usize = counts.len();
    let mut constraints: usize = 0;
    let mut degree: usize = 0;
    let mut columns: usize = 0;
    let mut fractions: usize = 0;
    let mut i: usize = 0;
    while i < n
        invariant
            0 < alignment <= 0x1_0000,
            i <= n,
            n == counts@.len() <= 0x100,
            forall|i: int| 0 <= i < counts@.len() ==> (#[trigger] counts@[i]).countable(),
            constraints == constraints_upto(counts@, i as nat),
            constraints <= i * 0x1_0000,
            degree == degree_upto(counts@, i as nat),
            degree <= 0x1_0000,
            columns == columns_upto(widths_of(counts@), alignment as int, i as nat),
            columns <= i * 0x8_0000,
            fractions == fractions_upto(counts@, i as nat),
            fractions <= i * 0x1_0000,
        decreases n - i,
    {
        assert(counts@[i as int].countable());
        constraints = constraints + counts[i].constraints;
        if degree < counts[i].max_degree {
            degree = counts[i].max_degree;
        }
        columns = columns + column_count(&counts[i].widths, alignment);
        fractions = fractions + counts[i].fractions;
        i = i + 1;
    }
    let quotient: usize = quotient_column_count(degree, alignment);
    AirShape {
        num_composed_constraints: (constraints + n - 1) as u32,
        max_constraint_degree: degree as u32,
        num_deep_terms: (columns + quotient) as u32 + NUM_OOD_POINTS,
        fractions_per_row: fractions as u32,
        max_message_width,
    }
}

} // verus!
