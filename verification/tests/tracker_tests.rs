use blink_cam::event::Event;
use blink_cam::event::Polarity;
use blink_cam::tracker::FeatureTracker;

fn ev_t(row: u32, col: u32, timestamp: u32) -> Event {
    Event { row, col, timestamp, polarity: Polarity::Rise }
}

#[test]
fn tracker_starts_empty() {
    let t = FeatureTracker::new(2, 500);
    assert_eq!(t.feature_count(), 0);
    assert!(t.tracked_features().is_empty());
}

#[test]
fn tracker_first_corner_starts_a_track() {
    let mut t = FeatureTracker::new(2, 500);
    let parent = t.add_and_match_feature(&ev_t(5, 5, 100), 0);
    assert!(parent.is_none());
    assert_eq!(t.feature_count(), 1);
    let f = t.tracked_features()[0];
    assert_eq!((f.row, f.col, f.timestamp), (5, 5, 100));
}

/// Scenario: two corners at (5,5,t=100) and (5,6,t=150) with match radius 2;
/// the second matches the first, returns parent (5,5,100), and the registry
/// afterwards holds one feature at (5,6,150).
#[test]
fn tracker_second_corner_continues_the_track() {
    let mut t = FeatureTracker::new(2, 500);
    assert!(t.add_and_match_feature(&ev_t(5, 5, 100), 0).is_none());
    let parent = t.add_and_match_feature(&ev_t(5, 6, 150), 0);
    let p = parent.expect("the second corner must match the first");
    assert_eq!((p.row, p.col, p.timestamp), (5, 5, 100));
    assert_eq!(t.feature_count(), 1);
    let f = t.tracked_features()[0];
    assert_eq!((f.row, f.col, f.timestamp), (5, 6, 150));
    // the identity survives the refresh
    assert_eq!(f.id, p.id);
}

#[test]
fn tracker_far_corner_starts_a_second_track() {
    let mut t = FeatureTracker::new(2, 500);
    assert!(t.add_and_match_feature(&ev_t(5, 5, 100), 0).is_none());
    // Chebyshev distance 3 exceeds the match radius 2
    assert!(t.add_and_match_feature(&ev_t(5, 8, 150), 0).is_none());
    assert_eq!(t.feature_count(), 2);
}

#[test]
fn tracker_picks_nearest_feature() {
    let mut t = FeatureTracker::new(3, 5000);
    assert!(t.add_and_match_feature(&ev_t(3, 3, 10), 0).is_none());
    assert!(t.add_and_match_feature(&ev_t(3, 8, 20), 0).is_none());
    // distance 2 to (3,3), distance 3 to (3,8): the nearer one wins even
    // though the other is more recent
    let p = t.add_and_match_feature(&ev_t(3, 5, 30), 0).expect("must match");
    assert_eq!((p.row, p.col, p.timestamp), (3, 3, 10));
}

/// Scenario: two features at equal distance 2 from the new corner, both
/// within the match radius; the one with the more recent timestamp wins.
#[test]
fn tracker_breaks_distance_ties_by_recency() {
    let mut t = FeatureTracker::new(2, 5000);
    assert!(t.add_and_match_feature(&ev_t(3, 3, 10), 0).is_none());
    assert!(t.add_and_match_feature(&ev_t(7, 3, 20), 0).is_none());
    // (5,3) is at Chebyshev distance 2 from both; (7,3) is more recent
    let p = t.add_and_match_feature(&ev_t(5, 3, 30), 0).expect("must match");
    assert_eq!((p.row, p.col, p.timestamp), (7, 3, 20));
    assert_eq!(t.feature_count(), 2);
}

/// Forgetting boundary: a feature touched at time t survives eviction while
/// horizon - t <= forgetting_time and is gone once horizon - t exceeds it.
#[test]
fn tracker_forgetting_boundary() {
    let mut t = FeatureTracker::new(2, 500);
    assert!(t.add_and_match_feature(&ev_t(1, 1, 100), 0).is_none());
    // age exactly at the limit: 600 - 100 == 500, still present
    t.evict_stale(600);
    assert_eq!(t.feature_count(), 1);
    // one tick beyond the limit: evicted
    t.evict_stale(601);
    assert_eq!(t.feature_count(), 0);
}

/// Scenario: a corner at (1,1,t=10), horizon advanced to 10000 with
/// forgetting time 500; the eviction pass removes it and the registry query
/// returns empty.
#[test]
fn tracker_forgets_stale_feature() {
    let mut t = FeatureTracker::new(2, 500);
    assert!(t.add_and_match_feature(&ev_t(1, 1, 10), 0).is_none());
    assert_eq!(t.feature_count(), 1);
    t.evict_stale(10000);
    assert_eq!(t.feature_count(), 0);
    assert!(t.tracked_features().is_empty());
}

#[test]
fn tracker_eviction_runs_inside_matching() {
    let mut t = FeatureTracker::new(2, 500);
    assert!(t.add_and_match_feature(&ev_t(1, 1, 10), 0).is_none());
    // the new corner is far away (new track) and its horizon evicts the old
    // feature in the same call: eviction is unconditional housekeeping
    assert!(t.add_and_match_feature(&ev_t(9, 9, 10000), 9500).is_none());
    assert_eq!(t.feature_count(), 1);
    let f = t.tracked_features()[0];
    assert_eq!((f.row, f.col, f.timestamp), (9, 9, 10000));
}

#[test]
fn tracker_new_tracks_get_fresh_identities() {
    let mut t = FeatureTracker::new(2, 5000);
    assert!(t.add_and_match_feature(&ev_t(1, 1, 10), 0).is_none());
    assert!(t.add_and_match_feature(&ev_t(8, 8, 20), 0).is_none());
    let a = t.tracked_features()[0];
    let b = t.tracked_features()[1];
    assert_ne!(a.id, b.id);
}
