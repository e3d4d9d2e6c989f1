use mini_greeter::backoff::{backoff_delay, BACKOFF_AFTER_FAILURES, BASE_PAUSE, MAX_BACKOFF};

#[test]
fn the_first_failures_get_the_base_pause() {
    assert_eq!(BACKOFF_AFTER_FAILURES, 3);
    assert_eq!(backoff_delay(0), 1200);
    assert_eq!(backoff_delay(1), 1200);
    assert_eq!(backoff_delay(2), 1200);
}

#[test]
fn later_failures_lengthen_the_pause() {
    assert_eq!(backoff_delay(3), 2000);
    assert_eq!(backoff_delay(4), 2800);
    assert_eq!(backoff_delay(12), 9200);
    assert_eq!(backoff_delay(13), 10000);
}

#[test]
fn the_pause_is_capped() {
    assert_eq!(backoff_delay(14), 10000);
    assert_eq!(backoff_delay(22), 10000);
    assert_eq!(backoff_delay(23), 10000);
    assert_eq!(backoff_delay(u32::MAX), 10000);
}

#[test]
fn the_pause_never_shrinks_and_stays_in_bounds() {
    for n in 0..100 {
        assert!(backoff_delay(n) <= backoff_delay(n + 1));
        assert!(BASE_PAUSE <= backoff_delay(n) && backoff_delay(n) <= MAX_BACKOFF);
    }
}
