use freader::db::models::Subscription;
use freader::db::Id;
use freader::updater::{
    error_backoff, jitter, next_refresh_at, Updater, HOUR, JITTER_END, JITTER_MIN, MINUTE,
};

#[test]
fn backoff_is_capped_at_sixteen_hours() {
    assert_eq!(error_backoff(0), 0);
    assert_eq!(error_backoff(3), 3);
    assert_eq!(error_backoff(16), 16);
    assert_eq!(error_backoff(17), 16);
    assert_eq!(error_backoff(20), 16);
    assert_eq!(error_backoff(u32::MAX), 16);
}

#[test]
fn backoff_never_shrinks_from_zero_to_twenty_failures() {
    let mut previous = error_backoff(0);
    for error_count in 1..=20 {
        let hours = error_backoff(error_count);
        assert!(hours >= previous);
        assert!(hours <= 16);
        previous = hours;
    }
}

#[test]
fn next_refresh_adds_the_longer_delay_and_the_jitter() {
    assert_eq!(next_refresh_at(1_000, 0, 0), 1_000 + HOUR);
    assert_eq!(next_refresh_at(1_000, 1, -5), 1_000 + HOUR - 5 * MINUTE);
    assert_eq!(next_refresh_at(1_000, 2, 0), 1_000 + 2 * HOUR);
    assert_eq!(next_refresh_at(1_000, 7, 4), 1_000 + 7 * HOUR + 4 * MINUTE);
    assert_eq!(next_refresh_at(1_000, 16, 0), 1_000 + 16 * HOUR);
    assert_eq!(next_refresh_at(1_000, 40, 0), 1_000 + 16 * HOUR);
    assert_eq!(next_refresh_at(-HOUR, 0, 0), 0);
}

#[test]
fn next_refresh_is_an_hour_away_at_least_without_negative_jitter() {
    let now = 1_700_000_000_000_000;
    for error_count in 0..=20 {
        for minutes in 0..5 {
            assert!(next_refresh_at(now, error_count, minutes) >= now + HOUR);
        }
        for minutes in -5..0 {
            assert!(next_refresh_at(now, error_count, minutes) >= now + HOUR - 5 * MINUTE);
        }
    }
}

#[test]
fn next_refresh_stops_at_the_last_instant() {
    assert_eq!(next_refresh_at(i64::MAX, 0, 0), i64::MAX);
    assert_eq!(next_refresh_at(i64::MAX - HOUR, 0, 1), i64::MAX);
    assert_eq!(next_refresh_at(i64::MAX - HOUR, 0, 0), i64::MAX);
    assert_eq!(next_refresh_at(i64::MAX - HOUR, 1, -1), i64::MAX - MINUTE);
}

#[test]
fn jitter_lies_within_its_bounds() {
    let mut seen_low = false;
    let mut seen_high = false;
    for _ in 0..10_000 {
        let minutes = jitter();
        assert!(JITTER_MIN <= minutes && minutes < JITTER_END);
        assert!(-5 <= minutes && minutes < 5);
        seen_low = seen_low || minutes < 0;
        seen_high = seen_high || minutes >= 0;
    }
    assert!(seen_low && seen_high);
}

#[test]
fn next_refresh_from_the_clock_is_in_the_future() {
    let subscription = Subscription {
        id: Id::from_raw(1),
        feed_url: "http://example.com/feed.xml".to_string(),
        title: "Example".to_string(),
        site_url: None,
        next_refresh: 0,
        error_count: 3,
    };
    let at = Updater::next_refresh(&subscription);
    // After 2020, and three hours from some moment of this run, give or take
    // the jitter.
    assert!(at > 1_577_836_800_000_000 + 3 * HOUR - 5 * MINUTE);
}
