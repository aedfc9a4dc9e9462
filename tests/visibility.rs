use msg_queue::VisibilityControl;
use std::time::Duration;

const SECOND: u128 = 1_000_000_000;

#[test]
fn test_is_visible() {
    let visibility = VisibilityControl::new();
    assert!(visibility.is_visible(1));
}

#[test]
fn test_set_visibility_timeout() {
    let mut visibility = VisibilityControl::new();
    let message_id = 1;

    visibility.set_visibility_timeout_at(message_id, 5 * SECOND, 0);
    assert!(!visibility.is_visible_at(message_id, 0));

    assert!(visibility.is_visible_at(message_id, 6 * SECOND));
}

#[test]
fn lease_of_five_units() {
    let mut visibility = VisibilityControl::default();
    visibility.set_visibility_timeout_at(1, 5, 0);
    assert!(!visibility.is_visible_at(1, 4));
    assert!(visibility.is_visible_at(1, 5));
    assert!(visibility.is_visible_at(1, 6));
}

#[test]
fn real_timeout_hides_immediately() {
    let mut visibility = VisibilityControl::new();
    visibility.set_visibility_timeout(1, Duration::from_secs(5));
    assert!(!visibility.is_visible(1));
    assert!(visibility.is_visible(2));
}

#[test]
fn never_leased_id_is_visible() {
    let mut visibility = VisibilityControl::new();
    visibility.set_visibility_timeout_at(1, 100, 0);
    assert!(visibility.is_visible_at(2, 0));
    assert!(visibility.is_visible(2));
}

#[test]
fn zero_timeout_is_visible_at_once() {
    let mut visibility = VisibilityControl::new();
    visibility.set_visibility_timeout_at(1, 0, 7);
    assert!(visibility.is_visible_at(1, 7));
    assert!(!visibility.is_visible_at(1, 6));
}

#[test]
fn later_lease_replaces_earlier() {
    let mut visibility = VisibilityControl::new();
    visibility.set_visibility_timeout_at(1, 100, 0);
    visibility.set_visibility_timeout_at(1, 10, 0);
    assert!(visibility.is_visible_at(1, 10));
}

#[test]
fn clear_makes_visible_again() {
    let mut visibility = VisibilityControl::new();
    visibility.set_visibility_timeout_at(1, 100, 0);
    visibility.clear(1);
    assert!(visibility.is_visible_at(1, 0));
}

#[test]
fn lease_expiry_saturates() {
    let mut visibility = VisibilityControl::new();
    visibility.set_visibility_timeout_at(1, u128::MAX, 10);
    assert!(!visibility.is_visible_at(1, u128::MAX - 1));
    assert!(visibility.is_visible_at(1, u128::MAX));
}

#[test]
fn clock_does_not_go_backwards() {
    let visibility = VisibilityControl::new();
    let a = visibility.now();
    let b = visibility.now();
    assert!(b >= a);
}
