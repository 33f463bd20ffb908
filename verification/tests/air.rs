use miden_foundation::precompiles::air::{ChipletAir, ChipletMultiAir, NUM_CHIPLETS};
use miden_foundation::precompiles::air::boundary_correction;
use miden_foundation::precompiles::extension::QuadFelt;
use miden_foundation::precompiles::field::Felt;
use miden_foundation::precompiles::fixed::{
    fixed_ecgroup_msgs, fixed_uintval_msgs, Curve, Endomorphism, UintDomain,
};
use miden_foundation::precompiles::logup::{Challenges, Message, Part};
use miden_foundation::precompiles::relations::BusId;

fn quad(c0: u64, c1: u64) -> QuadFelt {
    QuadFelt::new(c0, c1).expect("a canonical element")
}

/// The messages of two small domains and one curve.
fn fixed_messages() -> Vec<Message<Felt>> {
    let limbs = |value: u32| [value, 0, 0, 0, 0, 0, 0, 0];
    let domains = [
        UintDomain { bound_ptr: 1, minus_one: limbs(6) },
        UintDomain { bound_ptr: 2, minus_one: limbs(10) },
    ];
    let curves = [Curve {
        group_ptr: 1,
        a_ptr: 3,
        a_value: limbs(0),
        b_ptr: 4,
        b_value: limbs(7),
        base_bound_ptr: 1,
        scalar_bound_ptr: 2,
        endomorphism: Some(Endomorphism {
            beta_ptr: 5,
            beta: limbs(2),
            lambda_ptr: 6,
            lambda: limbs(3),
        }),
    }];
    let uints = fixed_uintval_msgs(&domains, &curves).into_iter().map(|m| m.message());
    let groups = fixed_ecgroup_msgs(&curves).into_iter().map(|m| m.message());
    uints.chain(groups).collect()
}

#[test]
fn chiplet_instance_order_is_protocol_pinned() {
    let pinned = [
        ChipletAir::ChunkNodeSponge,
        ChipletAir::Poseidon2,
        ChipletAir::KeccakRound,
        ChipletAir::BytePairLut,
        ChipletAir::TranscriptEval,
        ChipletAir::UintStoreMul,
        ChipletAir::UintAdd,
        ChipletAir::EcPointStoreGroups,
        ChipletAir::EcGroupAdd,
        ChipletAir::EcMsm,
    ];
    assert_eq!(ChipletAir::all(), pinned);
    assert_eq!(ChipletMultiAir::new().airs(), pinned);
}

#[test]
fn only_the_byte_pair_table_has_a_fixed_height() {
    for chiplet in ChipletAir::all() {
        let expected = if chiplet == ChipletAir::BytePairLut { Some(16) } else { None };
        assert_eq!(chiplet.fixed_log_height(), expected);
    }
}

#[test]
fn chiplet_multi_air_exposes_the_sigma_closure() {
    let challenges = Challenges::draw(quad(3, 5), quad(7, 11));
    let aux_values: Vec<Vec<QuadFelt>> =
        (0..NUM_CHIPLETS as u64).map(|i| vec![quad(i + 1, 2 * i + 1)]).collect();
    let relation = ChipletMultiAir::new();

    let closure = relation
        .eval_external(&challenges, &aux_values, &fixed_messages())
        .expect("fixed boundary denominators are non-zero for the fixture");
    assert_ne!(closure.coordinates(), (0, 0), "the closure fixture must be non-vacuous");
    assert_eq!(closure.coordinates(), (3_283_381_122_413_972_317, 10_611_419_446_182_161_492));

    let residues = relation.eval_external(&challenges, &aux_values, &[]).expect("nothing vanishes");
    assert_eq!(residues.coordinates(), (55, 100));
}

#[test]
fn a_message_that_encodes_to_zero_is_reported() {
    let alpha = quad(16_682_679_792_371_241_967, 17_511_911_658_015_240_478);
    let challenges = Challenges::draw(alpha, quad(7, 11));
    let vanishing = Message { bus: BusId::Memory64, part: Part::Whole, elems: vec![] };
    let mut fixed = fixed_messages();
    fixed.push(vanishing);
    assert_eq!(boundary_correction(&challenges, &fixed).err(), Some(BusId::Memory64));
    assert!(ChipletMultiAir::new().eval_external(&challenges, &[], &fixed).is_none());
    assert!(boundary_correction(&challenges, &fixed_messages()).is_ok());
}

#[test]
fn the_extension_multiplies_by_its_square() {
    assert_eq!(quad(3, 5).plus(&quad(7, 11)).coordinates(), (10, 16));
    assert_eq!(quad(7, 11).minus(&quad(3, 5)).coordinates(), (4, 6));
    assert_eq!(quad(3, 5).times(&quad(7, 11)).coordinates(), (406, 68));
    let inverse = quad(3, 5).try_inverse().expect("not zero");
    assert_eq!(inverse.coordinates(), (9_445_621_963_254_455_827, 15_001_870_176_933_547_490));
    assert_eq!(quad(3, 5).times(&inverse).coordinates(), (1, 0));
    assert!(quad(0, 0).try_inverse().is_none());
    assert!(QuadFelt::new(0xffff_ffff_0000_0001, 0).is_none());
}
