use miitable::codec::encode_table;
use miitable::engine::{
    randomize, FieldId, RuleId, DARKNESS_MAX_BITS, DARKNESS_MIN_BITS, HEAD_SIZE_MAX_BITS,
    HEAD_SIZE_MIN_BITS, ZOOM_IN_FAR_BITS, ZOOM_IN_NEAR_BITS, ZOOM_OUT_FAR_BITS,
    ZOOM_OUT_NEAR_BITS,
};
use miitable::level::RuleConfig;
use miitable::validate::validate;

#[test]
fn bit_constants_are_the_documented_float_values() {
    assert_eq!(ZOOM_OUT_NEAR_BITS, (-135.0f32).to_bits());
    assert_eq!(ZOOM_OUT_FAR_BITS, (-406.0f32).to_bits());
    assert_eq!(ZOOM_IN_NEAR_BITS, (-22.0f32).to_bits());
    assert_eq!(ZOOM_IN_FAR_BITS, (-135.0f32).to_bits());
    assert_eq!(DARKNESS_MIN_BITS, (38.0f32).to_bits());
    assert_eq!(DARKNESS_MAX_BITS, (90.0f32).to_bits());
    assert_eq!(HEAD_SIZE_MIN_BITS, (1.35f32).to_bits());
    assert_eq!(HEAD_SIZE_MAX_BITS, (3.5f32).to_bits());
}

#[test]
fn same_seed_gives_byte_identical_output() {
    let cfg = RuleConfig::latest();
    let t1 = randomize(&cfg, 42, 99).unwrap();
    let t2 = randomize(&cfg, 42, 99).unwrap();
    assert_eq!(t1, t2);
    assert_eq!(encode_table(&t1), encode_table(&t2));
}

#[test]
fn different_seeds_give_different_tables() {
    let cfg = RuleConfig::latest();
    let t1 = randomize(&cfg, 42, 99).unwrap();
    let t2 = randomize(&cfg, 43, 99).unwrap();
    assert_ne!(t1, t2);
}

#[test]
fn engine_output_passes_validation_with_no_warnings() {
    let cfg = RuleConfig::latest();
    for seed in [0u64, 1, 42, 0xDEADBEEF, u64::MAX] {
        let table = randomize(&cfg, seed, 99).unwrap();
        assert_eq!(table.len(), 99);
        assert_eq!(validate(&cfg, &table), Vec::new());
    }
}

#[test]
fn engine_respects_field_domains() {
    let cfg = RuleConfig::latest();
    let table = randomize(&cfg, 7, 99).unwrap();
    for l in &table {
        assert!((1..=21).contains(&l.level_type));
        assert!(l.map <= 4);
        assert!(l.behavior <= 6);
        let cap = if l.map == 4 { 40 } else { 90 };
        assert!((4..=cap).contains(&l.num_miis));
        match l.level_type {
            9 | 10 | 11 => assert!(l.behavior == 1 || l.behavior == 4),
            17 | 18 | 19 => assert_eq!(l.behavior, 0),
            _ => {}
        }
        let zoom_out = f32::from_bits(l.zoom_out_max);
        assert!((-406.0..=-135.0).contains(&zoom_out));
        let zoom_in = f32::from_bits(l.zoom_in_max);
        assert!((-135.0..=-22.0).contains(&zoom_in));
        let darkness = f32::from_bits(l.darkness);
        assert!(darkness == 0.0 || (38.0..=90.0).contains(&darkness));
        let head = f32::from_bits(l.head_size);
        assert!((1.35..=3.5).contains(&head));
        assert_eq!(l.unk7, 0);
        assert_eq!(l.horiz_dist, 0);
        assert_eq!(l.vert_dist, 0);
        assert_eq!(l.unk12, 0);
        assert_eq!(l.unk13, 0);
        assert_eq!(l.unk14, 0);
        assert_eq!(l.unk15, 0);
        assert_eq!(l.unk16, 0);
    }
}

#[test]
fn stream_position_matters_within_one_table() {
    let cfg = RuleConfig::latest();
    let table = randomize(&cfg, 42, 99).unwrap();
    // Levels are drawn from different stream positions, so a table of
    // identical levels would mean the stream ignores its position.
    assert!(table.iter().any(|l| *l != table[0]));
}

#[test]
fn pairing_discipline_holds_by_construction() {
    let cfg = RuleConfig::latest();
    for seed in 0u64..20 {
        let table = randomize(&cfg, seed, 99).unwrap();
        let mut pending = false;
        for l in &table {
            match l.level_type {
                6 => {
                    assert!(!pending);
                    pending = true;
                }
                7 => {
                    assert!(pending);
                    pending = false;
                }
                _ => {}
            }
        }
        assert!(!pending);
        // The last level never opens a pairing.
        assert_ne!(table[98].level_type, 6);
    }
}

#[test]
fn zero_and_single_length_runs() {
    let cfg = RuleConfig::latest();
    let empty = randomize(&cfg, 42, 0).unwrap();
    assert_eq!(empty.len(), 0);
    let one = randomize(&cfg, 42, 1).unwrap();
    assert_eq!(one.len(), 1);
    // A single level is its own last level: no pairing can open or close.
    assert_ne!(one[0].level_type, 6);
    assert_ne!(one[0].level_type, 7);
}

#[test]
fn impossible_mii_floor_fails_loudly_at_the_first_level() {
    let cfg = RuleConfig {
        mii_min: 100,
        ..RuleConfig::latest()
    };
    let err = randomize(&cfg, 42, 99).unwrap_err();
    assert_eq!(err.index, 0);
    assert_eq!(err.field, FieldId::NumMiis);
    assert_eq!(err.rule, RuleId::MiiFloor);
}

#[test]
fn contradictory_ceiling_fails_with_the_ceiling_rule() {
    // A floor above the low environment's ceiling conflicts as soon as the
    // engine draws that environment.
    let cfg = RuleConfig {
        mii_min: 50,
        ..RuleConfig::latest()
    };
    let err = randomize(&cfg, 42, 99).unwrap_err();
    assert_eq!(err.field, FieldId::NumMiis);
    assert_eq!(err.rule, RuleId::MiiCeiling);
}

#[test]
fn impossible_behavior_pair_fails_with_the_odd_one_out_rule() {
    // Behavior codes outside the format's range leave the odd-one-out
    // objectives with no legal behavior at all.
    let cfg = RuleConfig {
        odd_behavior_a: 7,
        odd_behavior_b: 9,
        ..RuleConfig::latest()
    };
    let err = randomize(&cfg, 42, 99).unwrap_err();
    assert_eq!(err.field, FieldId::Behavior);
    assert_eq!(err.rule, RuleId::OddOneOutBehavior);
}

#[test]
fn overridden_revision_steers_the_engine() {
    let cfg = RuleConfig {
        odd_behavior_a: 1,
        odd_behavior_b: 3,
        ..RuleConfig::latest()
    };
    let table = randomize(&cfg, 5, 99).unwrap();
    assert_eq!(validate(&cfg, &table), Vec::new());
    for l in &table {
        if matches!(l.level_type, 9 | 10 | 11) {
            assert!(l.behavior == 1 || l.behavior == 3);
        }
    }
}
