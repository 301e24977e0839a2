use bitchy::irc::flood::{FloodTracker, FloodType};
#[test]
fn test_no_flood_below_threshold() {
    let mut tracker = FloodTracker::new(3, 10);
    assert!(!tracker.check("Alice", FloodType::Message));
    assert!(!tracker.check("Alice", FloodType::Message));
    assert!(!tracker.check("Alice", FloodType::Message));
}

#[test]
fn test_flood_at_threshold() {
    let mut tracker = FloodTracker::new(3, 10);
    assert!(!tracker.check("Alice", FloodType::Message));
    assert!(!tracker.check("Alice", FloodType::Message));
    assert!(!tracker.check("Alice", FloodType::Message));
    assert!(tracker.check("Alice", FloodType::Message)); // 4th = flood
}

#[test]
fn test_different_sources_tracked_separately() {
    let mut tracker = FloodTracker::new(2, 10);
    assert!(!tracker.check("Alice", FloodType::Message));
    assert!(!tracker.check("Alice", FloodType::Message));
    assert!(!tracker.check("Bob", FloodType::Message));
    assert!(!tracker.check("Bob", FloodType::Message));
    assert!(tracker.check("Alice", FloodType::Message)); // Alice floods
    assert!(tracker.check("Bob", FloodType::Message)); // Bob floods too
}

#[test]
fn test_different_types_tracked_separately() {
    let mut tracker = FloodTracker::new(2, 10);
    assert!(!tracker.check("Alice", FloodType::Message));
    assert!(!tracker.check("Alice", FloodType::Message));
    assert!(!tracker.check("Alice", FloodType::Ctcp));
    assert!(!tracker.check("Alice", FloodType::Ctcp));
    assert!(tracker.check("Alice", FloodType::Message)); // Message floods
    assert!(tracker.check("Alice", FloodType::Ctcp)); // Ctcp floods
}

#[test]
fn test_window_expiry() {
    let mut tracker = FloodTracker::new(2, 1);
    assert!(!tracker.check_at("Alice", FloodType::Message, 0));
    assert!(!tracker.check_at("Alice", FloodType::Message, 0));
    assert!(tracker.check_at("Alice", FloodType::Message, 0));

    // 1.1 seconds later the earlier events have left the window.
    assert!(!tracker.check_at("Alice", FloodType::Message, 1_100_000_000));
}

#[test]
fn test_cleanup() {
    let mut tracker = FloodTracker::new(5, 1);
    tracker.check_at("Alice", FloodType::Message, 0);
    tracker.check_at("Bob", FloodType::Ctcp, 0);
    assert_eq!(tracker.counters.len(), 2);

    tracker.cleanup_at(1_100_000_000);
    assert_eq!(tracker.counters.len(), 0);
}

#[test]
fn test_reset() {
    let mut tracker = FloodTracker::new(5, 10);
    tracker.check("Alice", FloodType::Message);
    tracker.check("Alice", FloodType::Ctcp);
    tracker.check("Bob", FloodType::Message);
    assert_eq!(tracker.counters.len(), 3);

    tracker.reset("Alice");
    assert_eq!(tracker.counters.len(), 1);
    assert!(!tracker.check("Alice", FloodType::Message));
}

#[test]
fn test_case_insensitive_source() {
    let mut tracker = FloodTracker::new(2, 10);
    assert!(!tracker.check("Alice", FloodType::Message));
    assert!(!tracker.check("ALICE", FloodType::Message));
    assert!(tracker.check("alice", FloodType::Message));
}

#[test]
fn test_all_flood_types() {
    let types = [
        FloodType::Message,
        FloodType::Ctcp,
        FloodType::Join,
        FloodType::Notice,
        FloodType::Invite,
        FloodType::Nick,
    ];
    let mut tracker = FloodTracker::new(1, 10);
    for ft in &types {
        assert!(!tracker.check("test", *ft));
        assert!(tracker.check("test", *ft));
    }
}

#[test]
fn cleanup_changes_no_later_answer() {
    let mut swept = FloodTracker::new(2, 1);
    let mut kept = FloodTracker::new(2, 1);
    for t in [0u128, 500_000_000] {
        assert!(!swept.check_at("Alice", FloodType::Message, t));
        assert!(!kept.check_at("Alice", FloodType::Message, t));
    }
    swept.cleanup_at(1_200_000_000);
    assert_eq!(swept.counters.len(), 1);
    assert_eq!(swept.counters[0].timestamps, vec![500_000_000]);
    assert_eq!(
        swept.check_at("alice", FloodType::Message, 1_300_000_000),
        kept.check_at("alice", FloodType::Message, 1_300_000_000)
    );
}
