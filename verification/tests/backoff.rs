use penfreely_bridge::backoff::Backoff;
use penfreely_bridge::duration::Duration;

#[test]
fn doubles_each_attempt_up_to_the_ceiling() {
    let mut backoff = Backoff::new(Duration::from_secs(1), Duration::from_secs(8));

    assert_eq!(backoff.next_delay(), Duration::from_secs(1));
    assert_eq!(backoff.next_delay(), Duration::from_secs(2));
    assert_eq!(backoff.next_delay(), Duration::from_secs(4));
    assert_eq!(backoff.next_delay(), Duration::from_secs(8));
    // Capped at the ceiling.
    assert_eq!(backoff.next_delay(), Duration::from_secs(8));
}

#[test]
fn reset_returns_to_the_initial_delay() {
    let mut backoff = Backoff::new(Duration::from_secs(1), Duration::from_secs(8));
    backoff.next_delay();
    backoff.next_delay();

    backoff.reset();

    assert_eq!(backoff.next_delay(), Duration::from_secs(1));
}

#[test]
fn a_ceiling_that_is_no_multiple_is_met_exactly() {
    let mut backoff = Backoff::new(Duration::from_millis(300), Duration::from_millis(1000));
    assert_eq!(backoff.next_delay(), Duration::from_millis(300));
    assert_eq!(backoff.next_delay(), Duration::from_millis(600));
    assert_eq!(backoff.next_delay(), Duration::from_secs(1));
    assert_eq!(backoff.next_delay(), Duration::from_secs(1));
}

#[test]
fn an_initial_delay_above_the_ceiling_is_capped() {
    let mut backoff = Backoff::new(Duration::from_secs(10), Duration::from_secs(8));
    assert_eq!(backoff.next_delay(), Duration::from_secs(8));
    assert_eq!(backoff.next_delay(), Duration::from_secs(8));
    backoff.reset();
    assert_eq!(backoff.next_delay(), Duration::from_secs(8));
    assert_eq!(backoff.delay_after_attempt(true), Duration::from_secs(8));
}

#[test]
fn a_zero_delay_stays_zero() {
    let mut backoff = Backoff::new(Duration::from_secs(0), Duration::from_secs(4));
    assert_eq!(backoff.next_delay(), Duration::from_secs(0));
    assert_eq!(backoff.next_delay(), Duration::from_secs(0));
}

#[test]
fn a_clone_advances_on_its_own() {
    let mut backoff = Backoff::new(Duration::from_secs(1), Duration::from_secs(8));
    backoff.next_delay();
    let mut copy = backoff.clone();
    assert_eq!(copy.next_delay(), Duration::from_secs(2));
    assert_eq!(copy.next_delay(), Duration::from_secs(4));
    assert_eq!(backoff.next_delay(), Duration::from_secs(2));
}

#[test]
fn delays_after_attempts_count_the_failures_since_the_last_clean_one() {
    let mut backoff = Backoff::new(Duration::from_secs(1), Duration::from_secs(30));
    let mut delays = Vec::new();
    for clean in [false, false, false, true, false, false, true] {
        assert!(backoff.can_advance(clean));
        delays.push(backoff.delay_after_attempt(clean).as_secs());
    }
    assert_eq!(delays, vec![1, 2, 4, 1, 2, 4, 1]);
}

#[test]
fn the_longest_delay_cannot_be_doubled() {
    let longest = Duration::from_secs(u64::MAX);
    let backoff = Backoff::new(longest, longest);
    assert!(!backoff.can_advance(false));
    assert!(!backoff.can_advance(true));
    let backoff = Backoff::new(longest, Duration::from_secs(1));
    assert!(backoff.can_advance(false));
    assert!(backoff.can_advance(true));
    let backoff = Backoff::new(Duration::from_millis(u64::MAX), Duration::from_millis(u64::MAX));
    assert!(backoff.can_advance(false));
}

#[test]
fn a_duration_has_seconds_and_nanoseconds() {
    let span = Duration::from_millis(1_500);
    assert_eq!(span.as_secs(), 1);
    assert_eq!(span.subsec_nanos(), 500_000_000);
    assert_eq!(Duration::from_millis(60_000), Duration::from_secs(60));
    assert_eq!(Duration::from_secs(u64::MAX).as_secs(), u64::MAX);
    assert_eq!(span.double(), Duration::from_secs(3));
    assert_eq!(span.min(Duration::from_secs(2)), span);
    assert_eq!(span.min(Duration::from_secs(1)), Duration::from_secs(1));
}
