use issue_cache::scheduler::{after_cycle, Step, REFRESH_INTERVAL_SECS};

#[test]
fn refresh_interval_is_twenty_minutes() {
    assert_eq!(REFRESH_INTERVAL_SECS, 20 * 60);
}

#[test]
fn failed_first_cycle_gives_up() {
    assert_eq!(after_cycle(true, false), Step::GiveUp);
}

#[test]
fn successful_first_cycle_waits() {
    assert_eq!(after_cycle(true, true), Step::Wait(1200));
}

#[test]
fn later_cycles_wait_whatever_their_outcome() {
    assert_eq!(after_cycle(false, true), Step::Wait(1200));
    assert_eq!(after_cycle(false, false), Step::Wait(1200));
}
