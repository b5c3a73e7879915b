use clipboard_manager::hold_detector::HoldDetector;

// Monotonic timestamps in milliseconds from an arbitrary origin.
const T0: u64 = 1_000_000;
const THREE_SECONDS: u64 = 3_000;

#[test]
fn does_not_fire_before_threshold() {
    let mut d = HoldDetector::new();
    let t0 = T0;
    d.set_ctrl(true);
    d.set_c(true);
    assert!(!d.check(t0, THREE_SECONDS));
    assert!(!d.check(t0 + 2999, THREE_SECONDS));
}

#[test]
fn fires_once_at_threshold_and_not_again_while_held() {
    let mut d = HoldDetector::new();
    let t0 = T0;
    d.set_ctrl(true);
    d.set_c(true);
    d.check(t0, THREE_SECONDS);
    assert!(d.check(t0 + 3_000, THREE_SECONDS));
    assert!(!d.check(t0 + 4_000, THREE_SECONDS));
}

#[test]
fn releasing_c_resets_and_requires_full_hold_again() {
    let mut d = HoldDetector::new();
    let t0 = T0;
    d.set_ctrl(true);
    d.set_c(true);
    d.check(t0, THREE_SECONDS);
    d.set_c(false);
    assert!(!d.check(t0 + 3_000, THREE_SECONDS));
    d.set_c(true);
    assert!(!d.check(t0 + 3_000, THREE_SECONDS), "must restart the 3s window");
    assert!(d.check(t0 + 6_000, THREE_SECONDS));
}

#[test]
fn only_ctrl_or_only_c_never_fires() {
    let mut d = HoldDetector::new();
    let t0 = T0;
    d.set_ctrl(true);
    assert!(!d.check(t0 + 10_000, THREE_SECONDS));
}

#[test]
fn only_c_held_never_fires() {
    let mut d = HoldDetector::new();
    d.set_c(true);
    assert!(!d.check(T0, THREE_SECONDS));
    assert!(!d.check(T0 + 10_000, THREE_SECONDS));
}

#[test]
fn releasing_ctrl_also_resets_the_hold() {
    let mut d = HoldDetector::new();
    d.set_ctrl(true);
    d.set_c(true);
    assert!(!d.check(T0, THREE_SECONDS));
    d.set_ctrl(false);
    d.set_ctrl(true);
    assert!(!d.check(T0 + 3_000, THREE_SECONDS));
    assert!(!d.check(T0 + 5_999, THREE_SECONDS));
    assert!(d.check(T0 + 6_000, THREE_SECONDS));
}

#[test]
fn fired_hold_can_fire_again_after_release_and_new_hold() {
    let mut d = HoldDetector::new();
    d.set_ctrl(true);
    d.set_c(true);
    d.check(T0, THREE_SECONDS);
    assert!(d.check(T0 + 3_000, THREE_SECONDS));
    d.set_c(false);
    d.set_c(true);
    d.check(T0 + 4_000, THREE_SECONDS);
    assert!(d.check(T0 + 7_000, THREE_SECONDS));
}

#[test]
fn clock_going_backwards_counts_as_no_time_elapsed() {
    let mut d = HoldDetector::new();
    d.set_ctrl(true);
    d.set_c(true);
    d.check(T0, THREE_SECONDS);
    assert!(!d.check(T0 - 5_000, THREE_SECONDS));
    assert!(d.check(T0 + 3_000, THREE_SECONDS));
}

#[test]
fn zero_threshold_fires_at_first_check() {
    let mut d = HoldDetector::new();
    d.set_ctrl(true);
    d.set_c(true);
    assert!(d.check(T0, 0));
    assert!(!d.check(T0, 0));
}

#[test]
fn many_checks_while_held_fire_once() {
    let mut d = HoldDetector::new();
    d.set_ctrl(true);
    d.set_c(true);
    let fired = (0..100u64).filter(|i| d.check(1_000 + i * 100, 3_000)).count();
    assert_eq!(fired, 1);
}
