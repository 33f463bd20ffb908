use miden_foundation::precompiles::byte_pair_lut::{
    combine_with_preprocessed, preprocessed_table, BytePairOp, NUM_LOOKUP_COLS, NUM_MAIN_COLS,
    NUM_PREPROCESSED_COLS, TRACE_HEIGHT,
};
use miden_foundation::precompiles::field::{Felt, FieldExpr};
use miden_foundation::precompiles::hash::keccak::digest::KeccakDigest;
use miden_foundation::precompiles::hash::keccak::reference::{
    keccak_f1600, keccak_round, rotate_left,
};
use miden_foundation::precompiles::hash::keccak::round::program::{
    slot_lane_prev, slots, Op, ROUND_PERIOD, SLOT_RC,
};
use miden_foundation::precompiles::hash::keccak::sponge::mask_byte;
use miden_foundation::precompiles::logup::{
    lookup_challenges_from_slice, require_bool, restore_running_sum, sigma_sum, Constraint, Message,
    Part,
};
use miden_foundation::precompiles::math::{
    add_reduce, from_hex, from_limbs16, from_limbs32, mac_div_rem, mac_reduce, mac_sub_div_rem,
    mac_sub_reduce, mod_inv, sub_reduce, to_limbs16, to_limbs32, U256, U320,
};
use miden_foundation::precompiles::prime::ROOT;
use miden_foundation::precompiles::relations::BusId;
use miden_foundation::precompiles::utils::{halves_le, pack_le, split_u64};

const ORDER: u64 = 0xFFFF_FFFF_0000_0001;

fn felt(value: u64) -> Felt {
    Felt::new(value).expect("a canonical element")
}

#[test]
fn field_elements_are_reduced_by_the_order() {
    assert!(Felt::new(ORDER).is_none());
    let top = felt(ORDER - 1);
    assert_eq!(top.plus(&felt(3)).as_canonical_u64(), 2);
    assert_eq!(felt(0).minus(&felt(5)).as_canonical_u64(), 18_446_744_069_414_584_316);
    assert_eq!(top.times(&top).as_canonical_u64(), 1);
    assert_eq!(felt(3).try_inverse().unwrap().as_canonical_u64(), 12_297_829_379_609_722_881);
    assert!(felt(0).try_inverse().is_none());
    assert!(felt(0).is_zero());
    assert!(!top.is_zero());
}

fn bound() -> U256 {
    // 2^255 - 20, the largest residue of a prime modulus.
    from_hex("7fffffffffffffffffffffffffffffffffffffffffffffffffffffffffffffec")
}

fn a() -> U256 {
    from_hex("123456789abcdef123456789abcdef123456789abcdef123456789abcdef")
}

fn b() -> U256 {
    from_hex("fedcba987654321fedcba987654321fedcba987654321fedcba987654321")
}

fn small(value: u64) -> U256 {
    U256 { limbs: [value, 0, 0, 0] }
}

#[test]
fn hexadecimal_digits_give_limbs() {
    assert_eq!(from_hex("1F").limbs, [31, 0, 0, 0]);
    assert_eq!(from_hex("10000000000000002").limbs, [2, 1, 0, 0]);
}

#[test]
fn sums_and_differences_are_reduced() {
    assert_eq!(
        add_reduce(&a(), &b(), &bound()),
        from_hex("1111111111111111111111111111111111111111111111111111111111110")
    );
    assert_eq!(
        sub_reduce(&a(), &b(), &bound()),
        from_hex("7fff13579be02468acd13579be02468acd13579be02468acd13579be02468abb")
    );
    // Taking away what was added gives the value back.
    let sum = add_reduce(&a(), &b(), &bound());
    assert_eq!(sub_reduce(&sum, &b(), &bound()), a());
}

#[test]
fn multiply_and_add_splits_into_quotient_and_residue() {
    let (q, r) = mac_div_rem(3, &a(), &b(), 5, &small(7), &bound());
    let residue = from_hex("76613db6d93598cfa657c2ebde7171abe6c6d4a2989565d68117a874a13b0efb");
    let quotient = from_hex("6cbdc0410cf0b8da6c493e17a2abf4e0cb6781e764c5c1ad23b22549");
    assert_eq!(r, residue);
    assert_eq!(q.limbs[..4], quotient.limbs);
    assert_eq!(q.limbs[4], 0);
    assert_eq!(mac_reduce(3, &a(), &b(), 5, &small(7), &bound()), residue);
}

#[test]
fn multiply_and_subtract_borrows_when_negative() {
    // 2 * 3 - 10 = -4, under the modulus 7.
    let (q, r, borrow) = mac_sub_div_rem(1, &small(2), &small(3), 1, &small(10), &small(6));
    assert_eq!(q, U320 { limbs: [0; 5] });
    assert_eq!((r, borrow), (small(3), 1));
    // 2 * 3 - 20 = -14 is a multiple of 7.
    let (_, r, borrow) = mac_sub_div_rem(1, &small(2), &small(3), 1, &small(13), &small(6));
    assert_eq!((r, borrow), (small(0), 1));
    assert_eq!(mac_sub_reduce(1, &small(20), &small(3), 2, &small(5), &small(6)), small(1));
}

#[test]
fn inverses_multiply_to_one() {
    let inverse = mod_inv(&a(), &bound());
    assert_eq!(
        inverse,
        from_hex("102489920c9debc560775923bd49b4603fcb7559c931313eb2add6ec446e2e89")
    );
    assert_eq!(mac_reduce(1, &a(), &inverse, 0, &small(0), &bound()), small(1));
}

#[test]
fn limbs_split_and_join() {
    let limbs16 = to_limbs16(&a());
    assert_eq!(limbs16[0], 0xcdef);
    assert_eq!(limbs16[1], 0x89ab);
    assert_eq!(from_limbs16(&limbs16), a());
    let limbs32 = to_limbs32(&a());
    assert_eq!(limbs32[0], 0x89ab_cdef);
    assert_eq!(from_limbs32(&limbs32), a());
    assert_eq!(split_u64(0x1_0000_0002), (2, 1));
    let bytes: Vec<Felt> = (1..=8).map(felt).collect();
    assert_eq!(pack_le(&bytes[..3], 256).as_canonical_u64(), 1 + 2 * 256 + 3 * 65536);
    let (lo, hi) = halves_le(&bytes, 10);
    assert_eq!(lo.as_canonical_u64(), 4321);
    assert_eq!(hi.as_canonical_u64(), 8765);
    assert_eq!(mask_byte(0x0403_0201, 0x0807_0605, 5), 6);
}

#[test]
fn the_permutation_of_the_zero_state() {
    let state = keccak_f1600([0; 25]);
    assert_eq!(
        state[..4],
        [0xF125_8F79_40E1_DDE7, 0x84D5_CCF9_33C0_478A, 0xD598_261E_A65A_A9EE, 0xBD15_4730_6F80_494D]
    );
    let digest = KeccakDigest::from_state(&state);
    assert_eq!(digest.0, state[..4]);
    assert_eq!(digest.to_u32s()[..2], [0x40E1_DDE7, 0xF125_8F79]);
    assert_eq!(digest.to_felts()[1].as_canonical_u64(), 0xF125_8F79);
    assert_eq!(rotate_left(0x8000_0000_0000_0001, 1), 3);
}

#[test]
fn the_program_computes_a_round() {
    let mut state = [0u64; 25];
    for (i, lane) in state.iter_mut().enumerate() {
        *lane = (i as u64 + 1).wrapping_mul(0x9E37_79B9_7F4A_7C15);
    }
    let rc = 0x8000_0000_8000_808B;
    let mut expected = state;
    keccak_round(&mut expected, rc);

    // The rows of the round before hold the input lanes.
    let mut rows = vec![0u64; ROUND_PERIOD];
    for x in 0..5 {
        for y in 0..5 {
            rows[slot_lane_prev(x, y)] = state[x + 5 * y];
        }
    }
    for (i, slot) in slots().iter().enumerate() {
        let a = rows[ROUND_PERIOD + i - slot.back_a as usize..].first().copied().unwrap_or(0);
        let b = rows[ROUND_PERIOD + i - slot.back_b as usize..].first().copied().unwrap_or(0);
        rows.push(match slot.op {
            Op::Nop if i == SLOT_RC => rc,
            Op::Nop => 0,
            Op::Xor => a ^ b,
            Op::Andnot => !a & b,
            Op::Rol(k) => a.rotate_left(k),
            Op::XorRol(k) => (a ^ b).rotate_left(k),
        });
    }
    for x in 0..5 {
        for y in 0..5 {
            assert_eq!(rows[ROUND_PERIOD + slot_lane_prev(x, y)], expected[x + 5 * y]);
        }
    }
}

#[test]
fn the_byte_pair_table_lists_every_pair() {
    let table = preprocessed_table();
    let (a, b) = (0xA5u8, 0x3Cu8);
    let row = (a as usize * 256 + b as usize) * NUM_PREPROCESSED_COLS;
    assert_eq!(table[row..row + 4], [a, b, !a & b, a ^ b]);
    assert_eq!(BytePairOp::Xor.apply(a, b), 0x99);
    assert_eq!(BytePairOp::AndNot.apply(a, b), 0x18);
}

#[test]
fn the_table_stands_in_front_of_its_multiplicities() {
    let main: Vec<Felt> =
        (0..TRACE_HEIGHT * NUM_MAIN_COLS).map(|i| felt(i as u64)).collect();
    let all = combine_with_preprocessed(&main);
    assert_eq!(all.len(), TRACE_HEIGHT * NUM_LOOKUP_COLS);
    let row = 0xA53C;
    let found = &all[row * NUM_LOOKUP_COLS..(row + 1) * NUM_LOOKUP_COLS];
    let first = (row * NUM_MAIN_COLS) as u64;
    let expected = [0xA5, 0x3C, 0x18, 0x99, first, first + 1, first + 2];
    for (found, expected) in found.iter().zip(expected) {
        assert_eq!(found.as_canonical_u64(), expected);
    }
}

#[test]
fn messages_are_folded_by_the_challenges() {
    let challenges = lookup_challenges_from_slice(&[felt(3), felt(2)]);
    let message = Message {
        bus: BusId::Memory64,
        part: Part::Whole,
        elems: vec![felt(10), felt(20), felt(30)],
    };
    // 3 + (4 + 1) * 2^18 + 10 + 2 * 20 + 4 * 30
    assert_eq!(challenges.encode(&message).as_canonical_u64(), 3 + 5 * 262_144 + 170);
}

#[test]
fn running_sums_are_restored() {
    let aux: Vec<Felt> = (0..6).map(felt).collect();
    let (restored, residue) = restore_running_sum(aux, 2, 3, &felt(100));
    let shown: Vec<u64> = restored.iter().map(|x| x.as_canonical_u64()).collect();
    assert_eq!(shown, [0, 1, 102, 3, 204, 5]);
    assert_eq!(residue.as_canonical_u64(), 300);
    let sigma = sigma_sum(&[vec![felt(1), felt(9)], vec![felt(ORDER - 1)]]);
    assert!(sigma.is_zero());
}

#[test]
fn flags_are_zero_or_one() {
    for (flag, vanishes) in [(0, true), (1, true), (2, false)] {
        let mut out: Vec<Constraint<Felt>> = vec![];
        require_bool(&mut out, &felt(flag));
        assert_eq!(out[0].value.is_zero(), vanishes);
    }
}

#[test]
fn rounds_tell_states_apart() {
    let round = |state: [u64; 25], rc: u64| {
        let mut state = state;
        keccak_round(&mut state, rc);
        state
    };
    let base: [u64; 25] = std::array::from_fn(|i| (i as u64).wrapping_mul(0x0123_4567_89AB_CDEF));
    let rc = 0x8000_0000_8000_808B;
    let result = round(base, rc);
    for lane in 0..25 {
        for bit in [0, 31, 63] {
            let mut other = base;
            other[lane] ^= 1 << bit;
            assert_ne!(round(other, rc), result);
        }
    }
    // The round constant meets the first lane and no other.
    let plain = round(base, 0);
    assert_eq!(result[0], plain[0] ^ rc);
    assert_eq!(result[1..], plain[1..]);
}

#[test]
fn the_root_turns_after_half_of_its_powers() {
    let mut power = felt(ROOT);
    for _ in 0..31 {
        power = power.times(&power);
    }
    assert_eq!(power.as_canonical_u64(), ORDER - 1);
    assert_eq!(power.times(&power).as_canonical_u64(), 1);
    // A product of residues other than zero is not zero.
    for (a, b) in [(1 << 32, 1 << 33), (ORDER - 1, ORDER - 1), (0xFFFF_FFFF, 0x1_0000_0001)] {
        assert!(!felt(a).times(&felt(b)).is_zero());
    }
}
