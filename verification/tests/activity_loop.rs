use std::collections::HashSet;

use lqos_bakery::{ActivityTracker, MaterializationState};

#[test]
fn tracking_is_idempotent() {
    let mut tracker = ActivityTracker::new();
    assert!(tracker.track(1, MaterializationState::Virtual));
    assert!(!tracker.track(1, MaterializationState::Full));
}

#[test]
fn activity_wakes_only_unmaterialized_circuits() {
    let mut tracker = ActivityTracker::new();
    tracker.track(1, MaterializationState::Virtual);
    tracker.track(2, MaterializationState::Full);
    tracker.track(3, MaterializationState::HtbOnly);
    let mut ids: HashSet<i64> = HashSet::new();
    ids.insert(1);
    ids.insert(2);
    ids.insert(3);
    let woken = tracker.on_activity(&ids, 10);
    assert_eq!(woken, vec![1, 3]);
    // A second report wakes nothing: everything is materialised now.
    assert!(tracker.on_activity(&ids, 11).is_empty());
}

#[test]
fn ticks_prune_only_idle_materialized_circuits() {
    let mut tracker = ActivityTracker::new();
    tracker.track(1, MaterializationState::Virtual);
    tracker.track(2, MaterializationState::Virtual);
    tracker.track(3, MaterializationState::Virtual);
    let mut active: HashSet<i64> = HashSet::new();
    active.insert(2);
    active.insert(3);
    tracker.on_activity(&active, 10);
    let mut still_active: HashSet<i64> = HashSet::new();
    still_active.insert(3);
    tracker.on_activity(&still_active, 100);
    // Circuit 1 was never materialised; circuit 2 idles from tick 10;
    // circuit 3 was just seen.
    assert_eq!(tracker.idle_circuits(100, 30), vec![2]);
    assert!(tracker.idle_circuits(100, 95).is_empty());
}

#[test]
fn set_state_records_prunes() {
    let mut tracker = ActivityTracker::new();
    tracker.track(7, MaterializationState::Virtual);
    let mut ids: HashSet<i64> = HashSet::new();
    ids.insert(7);
    tracker.on_activity(&ids, 5);
    assert_eq!(tracker.idle_circuits(50, 10), vec![7]);
    assert!(tracker.set_state(7, MaterializationState::Virtual));
    assert!(tracker.idle_circuits(50, 10).is_empty());
    assert!(!tracker.set_state(8, MaterializationState::Full));
}
