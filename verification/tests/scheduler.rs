use process_monitor::scheduler::{should_refresh, DEFAULT_MIN_INTERVAL};

#[test]
fn refresh_is_not_due_before_the_interval() {
    assert!(!should_refresh(3, 0, 5));
}

#[test]
fn refresh_is_due_when_the_interval_has_elapsed() {
    assert!(should_refresh(5, 0, 5));
    assert!(should_refresh(6, 0, 5));
    assert!(should_refresh(105, 100, 5));
}

#[test]
fn refresh_is_not_due_one_tick_early() {
    assert!(!should_refresh(4, 0, 5));
    assert!(!should_refresh(104, 100, 5));
}

#[test]
fn clock_behind_the_last_refresh_counts_as_no_time_elapsed() {
    assert!(!should_refresh(10, 20, 5));
    assert!(!should_refresh(0, u64::MAX, 1));
    assert!(should_refresh(10, 20, 0));
}

#[test]
fn zero_interval_is_always_due() {
    assert!(should_refresh(0, 0, 0));
    assert!(should_refresh(7, 7, 0));
}

#[test]
fn extreme_times_do_not_overflow() {
    assert!(should_refresh(u64::MAX, 0, u64::MAX));
    assert!(!should_refresh(u64::MAX - 1, 0, u64::MAX));
}

#[test]
fn default_interval_is_five_seconds() {
    assert_eq!(DEFAULT_MIN_INTERVAL, 5);
}
