use miitable::constrained::{ConstrainedSet, ConstrainedValue, NarrowError};

#[test]
fn narrow_min_raises_only_the_minimum() {
    let mut cv = ConstrainedValue::Bounded { min: 2, max: 10 };
    assert_eq!(cv.narrow_min(5), Ok(()));
    assert_eq!(cv, ConstrainedValue::Bounded { min: 5, max: 10 });
    // Never lowers it.
    assert_eq!(cv.narrow_min(3), Ok(()));
    assert_eq!(cv, ConstrainedValue::Bounded { min: 5, max: 10 });
    // Idempotent under the same input.
    assert_eq!(cv.narrow_min(5), Ok(()));
    assert_eq!(cv, ConstrainedValue::Bounded { min: 5, max: 10 });
}

#[test]
fn narrow_min_above_max_conflicts_and_leaves_state() {
    let mut cv = ConstrainedValue::Bounded { min: 2, max: 10 };
    assert_eq!(cv.narrow_min(11), Err(NarrowError::Conflict));
    assert_eq!(cv, ConstrainedValue::Bounded { min: 2, max: 10 });
}

#[test]
fn narrow_min_against_exact_value() {
    let mut cv = ConstrainedValue::Exact(7);
    assert_eq!(cv.narrow_min(7), Ok(()));
    assert_eq!(cv, ConstrainedValue::Exact(7));
    assert_eq!(cv.narrow_min(8), Err(NarrowError::Conflict));
    assert_eq!(cv, ConstrainedValue::Exact(7));
}

#[test]
fn narrow_max_lowers_only_the_maximum() {
    let mut cv = ConstrainedValue::Bounded { min: 2, max: 10 };
    assert_eq!(cv.narrow_max(8), Ok(()));
    assert_eq!(cv, ConstrainedValue::Bounded { min: 2, max: 8 });
    assert_eq!(cv.narrow_max(9), Ok(()));
    assert_eq!(cv, ConstrainedValue::Bounded { min: 2, max: 8 });
    assert_eq!(cv.narrow_max(1), Err(NarrowError::Conflict));
    assert_eq!(cv, ConstrainedValue::Bounded { min: 2, max: 8 });
}

#[test]
fn constrain_applies_floor_then_ceiling() {
    let mut cv = ConstrainedValue::Bounded { min: 0, max: 99 };
    assert_eq!(cv.constrain(4, 90), Ok(()));
    assert_eq!(cv, ConstrainedValue::Bounded { min: 4, max: 90 });
}

#[test]
fn set_exact_outside_bounds_conflicts_and_leaves_state() {
    let mut cv = ConstrainedValue::Bounded { min: 2, max: 10 };
    assert_eq!(cv.set_exact(11), Err(NarrowError::Conflict));
    assert_eq!(cv, ConstrainedValue::Bounded { min: 2, max: 10 });
    assert_eq!(cv.set_exact(1), Err(NarrowError::Conflict));
    assert_eq!(cv, ConstrainedValue::Bounded { min: 2, max: 10 });
    assert_eq!(cv.set_exact(10), Ok(()));
    assert_eq!(cv, ConstrainedValue::Exact(10));
    assert_eq!(cv.set_exact(10), Ok(()));
    assert_eq!(cv.set_exact(9), Err(NarrowError::Conflict));
    assert_eq!(cv, ConstrainedValue::Exact(10));
}

#[test]
fn sample_of_exact_returns_the_value_for_every_draw() {
    let cv = ConstrainedValue::Exact(42);
    for seed in [0u64, 1, 99, u64::MAX] {
        for k in [0u64, 1, 1000] {
            let (v, next) = cv.sample(seed, k);
            assert_eq!(v, 42);
            // An exact domain consumes no stream word.
            assert_eq!(next, k);
        }
    }
}

#[test]
fn sample_of_bounded_stays_inclusive_and_consumes_one_draw() {
    let cv = ConstrainedValue::Bounded { min: 4, max: 90 };
    for seed in [0u64, 7, 42, 12345] {
        for k in [0u64, 5, 17] {
            let (v, next) = cv.sample(seed, k);
            assert!((4..=90).contains(&v));
            assert_eq!(next, k + 1);
        }
    }
    // A one-value span can only yield that value.
    let tight = ConstrainedValue::Bounded { min: 6, max: 6 };
    let (v, next) = tight.sample(3, 0);
    assert_eq!(v, 6);
    assert_eq!(next, 1);
}

#[test]
fn set_remove_keeps_the_rest_in_order() {
    let mut s = ConstrainedSet::new(&[1, 3, 5]);
    assert_eq!(s.len(), 3);
    assert_eq!(s.remove(3), Ok(()));
    assert_eq!(s.len(), 2);
    assert!(s.contains(1));
    assert!(!s.contains(3));
    assert!(s.contains(5));
    // Removing an absent code is allowed while members remain.
    assert_eq!(s.remove(4), Ok(()));
    assert_eq!(s.len(), 2);
}

#[test]
fn set_remove_of_last_member_fails_and_leaves_state() {
    let mut s = ConstrainedSet::new(&[8]);
    assert_eq!(s.remove(8), Err(NarrowError::EmptySet));
    assert_eq!(s.len(), 1);
    assert!(s.contains(8));
}

#[test]
fn set_subtract_is_sequential_removal() {
    let mut s = ConstrainedSet::new(&[0, 1, 2, 3]);
    assert_eq!(s.subtract(&[1, 3]), Ok(()));
    assert_eq!(s.len(), 2);
    assert!(s.contains(0));
    assert!(s.contains(2));

    let mut t = ConstrainedSet::new(&[0, 1]);
    assert_eq!(t.subtract(&[0, 1]), Err(NarrowError::EmptySet));
    // The failed subtraction left the set as it was.
    assert_eq!(t.len(), 2);
    assert!(t.contains(0));
    assert!(t.contains(1));
}

#[test]
fn set_intersect_keeps_shared_codes_or_fails_when_none() {
    let mut s = ConstrainedSet::new(&[0, 1, 2, 3, 4, 5, 6]);
    assert_eq!(s.intersect(&[4, 1]), Ok(()));
    assert_eq!(s.len(), 2);
    assert!(s.contains(1));
    assert!(s.contains(4));

    let mut t = ConstrainedSet::new(&[0, 1, 2]);
    assert_eq!(t.intersect(&[7, 9]), Err(NarrowError::EmptySet));
    assert_eq!(t.len(), 3);
}

#[test]
fn set_sample_draws_a_member_and_fails_on_empty() {
    let s = ConstrainedSet::new(&[2, 4, 6]);
    for seed in [0u64, 1, 42] {
        for k in [0u64, 3, 9] {
            let (v, next) = s.sample(seed, k).unwrap();
            assert!(v == 2 || v == 4 || v == 6);
            assert_eq!(next, k + 1);
        }
    }
    let empty = ConstrainedSet::new(&[]);
    assert_eq!(empty.sample(0, 0), Err(NarrowError::EmptySet));
}
