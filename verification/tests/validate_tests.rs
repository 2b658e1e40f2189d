use miitable::level::{Level, RuleConfig};
use miitable::validate::{validate, Warning};

fn level(level_type: u32, behavior: u32, map: u32, num_miis: u32) -> Level {
    Level {
        num_miis,
        behavior,
        level_type,
        map,
        zoom_out_max: 0,
        zoom_in_max: 0,
        unk7: 0,
        horiz_dist: 0,
        vert_dist: 0,
        darkness: 0,
        head_size: 0,
        unk12: 0,
        unk13: 0,
        unk14: 0,
        unk15: 0,
        unk16: 0,
    }
}

#[test]
fn open_pairing_at_end_gives_exactly_one_warning() {
    let cfg = RuleConfig::latest();
    // A pick-favorite level never followed by a find-favorite one.
    let table = vec![level(6, 0, 0, 10), level(1, 0, 0, 10), level(2, 0, 0, 10)];
    let warnings = validate(&cfg, &table);
    assert_eq!(warnings, vec![Warning::UnresolvedFavoritePairing]);
}

#[test]
fn closed_pairing_gives_no_warning() {
    let cfg = RuleConfig::latest();
    let table = vec![level(6, 0, 0, 10), level(1, 0, 0, 10), level(7, 0, 0, 10)];
    let warnings = validate(&cfg, &table);
    assert_eq!(warnings, Vec::new());
}

#[test]
fn duplicate_pick_favorite_is_reported_at_its_index() {
    let cfg = RuleConfig::latest();
    let table = vec![level(6, 0, 0, 10), level(6, 0, 0, 10), level(7, 0, 0, 10)];
    let warnings = validate(&cfg, &table);
    assert_eq!(warnings, vec![Warning::DuplicatePickFavorite { index: 1 }]);
}

#[test]
fn unmatched_find_favorite_is_reported_at_its_index() {
    let cfg = RuleConfig::latest();
    let table = vec![level(1, 0, 0, 10), level(7, 0, 0, 10)];
    let warnings = validate(&cfg, &table);
    assert_eq!(warnings, vec![Warning::UnmatchedFindFavorite { index: 1 }]);
}

#[test]
fn odd_one_out_objective_needs_its_behavior_pair() {
    let cfg = RuleConfig::latest();
    let table = vec![level(9, 2, 0, 10)];
    let warnings = validate(&cfg, &table);
    assert_eq!(
        warnings,
        vec![Warning::IncompatibleBehavior { index: 0, required_a: 1, required_b: 4, actual: 2 }]
    );
    // Either required behavior passes.
    assert_eq!(validate(&cfg, &vec![level(10, 1, 0, 10)]), Vec::new());
    assert_eq!(validate(&cfg, &vec![level(11, 4, 0, 10)]), Vec::new());
}

#[test]
fn insomniac_objective_needs_behavior_zero() {
    let cfg = RuleConfig::latest();
    let table = vec![level(17, 3, 0, 10)];
    let warnings = validate(&cfg, &table);
    assert_eq!(
        warnings,
        vec![Warning::IncompatibleBehavior { index: 0, required_a: 0, required_b: 0, actual: 3 }]
    );
    assert_eq!(validate(&cfg, &vec![level(18, 0, 0, 10)]), Vec::new());
}

#[test]
fn mii_ceiling_depends_on_the_environment() {
    let cfg = RuleConfig::latest();
    // Environment 4 caps at 40; everywhere else the global cap of 99 rules.
    assert_eq!(
        validate(&cfg, &vec![level(1, 0, 4, 41)]),
        vec![Warning::MiiCapExceeded { index: 0, cap: 40 }]
    );
    assert_eq!(validate(&cfg, &vec![level(1, 0, 4, 40)]), Vec::new());
    assert_eq!(
        validate(&cfg, &vec![level(1, 0, 0, 100)]),
        vec![Warning::MiiCapExceeded { index: 0, cap: 99 }]
    );
    assert_eq!(validate(&cfg, &vec![level(1, 0, 0, 99)]), Vec::new());
}

#[test]
fn objective_warning_comes_before_cap_warning_of_one_level() {
    let cfg = RuleConfig::latest();
    let table = vec![level(9, 0, 4, 50)];
    let warnings = validate(&cfg, &table);
    assert_eq!(
        warnings,
        vec![
            Warning::IncompatibleBehavior { index: 0, required_a: 1, required_b: 4, actual: 0 },
            Warning::MiiCapExceeded { index: 0, cap: 40 },
        ]
    );
}

#[test]
fn overridden_rule_revision_changes_the_required_pair() {
    let cfg = RuleConfig {
        odd_behavior_a: 1,
        odd_behavior_b: 3,
        ..RuleConfig::latest()
    };
    let warnings = validate(&cfg, &vec![level(9, 4, 0, 10)]);
    assert_eq!(
        warnings,
        vec![Warning::IncompatibleBehavior { index: 0, required_a: 1, required_b: 3, actual: 4 }]
    );
    assert_eq!(validate(&cfg, &vec![level(9, 3, 0, 10)]), Vec::new());
}

#[test]
fn validation_never_touches_the_table() {
    let cfg = RuleConfig::latest();
    let table = vec![level(6, 2, 4, 77), level(9, 0, 0, 10)];
    let copy = table.clone();
    let _ = validate(&cfg, &table);
    assert_eq!(table, copy);
}
