//! Publish times, cooldowns and relative ages.

use deps_core::freshness::{
    format_relative_age, is_within_cooldown, FreshnessSettings, PublishTime, DEFAULT_COOLDOWN_SECS,
};

#[test]
fn test_parse_rfc3339_cargo_bare_z() {
    let t = PublishTime::parse_rfc3339("2026-07-18T23:05:13Z").unwrap();
    assert_eq!(t.as_unix_secs(), 1_784_415_913);
}

#[test]
fn test_parse_rfc3339_pypi_six_digit_fraction() {
    assert!(PublishTime::parse_rfc3339("2026-05-14T19:25:27.735762Z").is_some());
}

#[test]
fn test_parse_rfc3339_composer_numeric_offset() {
    let a = PublishTime::parse_rfc3339("2026-01-02T08:56:05+00:00").unwrap();
    let b = PublishTime::parse_rfc3339("2026-01-02T08:56:05Z").unwrap();
    assert_eq!(a, b);
}

#[test]
fn test_parse_rfc3339_bundler_millisecond_fraction() {
    assert!(PublishTime::parse_rfc3339("2024-01-15T10:30:00.000Z").is_some());
}

#[test]
fn test_parse_rfc3339_dart_fractional_form() {
    assert!(PublishTime::parse_rfc3339("2025-03-10T14:22:05.123Z").is_some());
}

#[test]
fn test_parse_rfc3339_go_bare_z() {
    assert!(PublishTime::parse_rfc3339("2026-02-01T00:00:00Z").is_some());
}

#[test]
fn test_parse_rfc3339_garbage_is_none() {
    assert!(PublishTime::parse_rfc3339("not-a-timestamp").is_none());
}

#[test]
fn test_parse_rfc3339_empty_is_none() {
    assert!(PublishTime::parse_rfc3339("").is_none());
}

#[test]
fn test_age_secs_from_future_timestamp_clamps_to_zero() {
    let now = PublishTime::from_unix_secs(1_000);
    let published_in_future = PublishTime::from_unix_secs(1_500);
    assert_eq!(published_in_future.age_secs_from(now), 0);
}

#[test]
fn test_age_secs_from_normal_case() {
    let published = PublishTime::from_unix_secs(1_000);
    let now = PublishTime::from_unix_secs(1_360);
    assert_eq!(published.age_secs_from(now), 360);
}

#[test]
fn test_age_secs_from_extreme_values_do_not_panic() {
    let published = PublishTime::from_unix_secs(i64::MIN);
    let now = PublishTime::from_unix_secs(i64::MAX);
    let _ = published.age_secs_from(now);

    let published = PublishTime::from_unix_secs(i64::MAX);
    let now = PublishTime::from_unix_secs(i64::MIN);
    assert_eq!(published.age_secs_from(now), 0);
}

#[test]
fn test_is_within_cooldown_future_timestamp_counts_as_within() {
    let now = PublishTime::from_unix_secs(1_000);
    let published_in_future = PublishTime::from_unix_secs(1_500);
    let age = published_in_future.age_secs_from(now);
    assert!(is_within_cooldown(age, DEFAULT_COOLDOWN_SECS));
}

#[test]
fn test_is_within_cooldown_at_boundary_is_false() {
    assert!(!is_within_cooldown(200, 200));
}

#[test]
fn test_is_within_cooldown_one_below_boundary_is_true() {
    assert!(is_within_cooldown(199, 200));
}

#[test]
fn test_format_relative_age_just_now() {
    assert_eq!(format_relative_age(0), "just now");
    assert_eq!(format_relative_age(59), "just now");
}

#[test]
fn test_format_relative_age_minutes() {
    assert_eq!(format_relative_age(60), "1 minute ago");
    assert_eq!(format_relative_age(119), "1 minute ago");
    assert_eq!(format_relative_age(300), "5 minutes ago");
    assert_eq!(format_relative_age(3600 - 1), "59 minutes ago");
}

#[test]
fn test_format_relative_age_hours() {
    assert_eq!(format_relative_age(3600), "1 hour ago");
    assert_eq!(format_relative_age(2 * 3600), "2 hours ago");
    assert_eq!(format_relative_age(86_400 - 1), "23 hours ago");
}

#[test]
fn test_format_relative_age_days() {
    assert_eq!(format_relative_age(86_400), "1 day ago");
    assert_eq!(format_relative_age(3 * 86_400), "3 days ago");
    assert_eq!(format_relative_age(604_800 - 1), "6 days ago");
}

#[test]
fn test_format_relative_age_weeks() {
    assert_eq!(format_relative_age(604_800), "1 week ago");
    assert_eq!(format_relative_age(2 * 604_800), "2 weeks ago");
    assert_eq!(format_relative_age(2_592_000 - 1), "4 weeks ago");
}

#[test]
fn test_format_relative_age_months() {
    assert_eq!(format_relative_age(2_592_000), "1 month ago");
    assert_eq!(format_relative_age(5 * 2_592_000), "5 months ago");
    assert_eq!(format_relative_age(31_536_000 - 1), "12 months ago");
}

#[test]
fn test_format_relative_age_years() {
    assert_eq!(format_relative_age(31_536_000), "1 year ago");
    assert_eq!(format_relative_age(2 * 31_536_000), "2 years ago");
}

#[test]
fn test_freshness_settings_default() {
    let settings = FreshnessSettings::default();
    assert!(settings.enabled);
    assert_eq!(settings.cooldown_secs, DEFAULT_COOLDOWN_SECS);
}

#[test]
fn clock_readings_become_times() {
    assert_eq!(PublishTime::from_clock(None).as_unix_secs(), 0);
    assert_eq!(PublishTime::from_clock(Some(1_753_052_713)).as_unix_secs(), 1_753_052_713);
    assert_eq!(PublishTime::from_clock(Some(u64::MAX)).as_unix_secs(), -1);
    assert!(PublishTime::now().as_unix_secs() > 1_600_000_000);
}

#[test]
fn milliseconds_truncate_towards_the_epoch() {
    assert_eq!(PublishTime::from_unix_millis(1_753_052_713_999).as_unix_secs(), 1_753_052_713);
    assert_eq!(PublishTime::from_unix_millis(-1_999).as_unix_secs(), -1);
    assert_eq!(PublishTime::from_unix_millis(-999).as_unix_secs(), 0);
    assert_eq!(PublishTime::from_unix_millis(i64::MIN).as_unix_secs(), i64::MIN / 1000);
}

#[test]
fn ages_saturate_at_the_largest_signed_number() {
    let oldest = PublishTime::from_unix_secs(i64::MIN);
    let latest = PublishTime::from_unix_secs(i64::MAX);
    assert_eq!(oldest.age_secs_from(latest), i64::MAX as u64);
}

#[test]
fn release_that_left_its_cooldown_stays_out() {
    let published = PublishTime::from_unix_secs(1_000);
    for later in [259_200, 259_201, 1_000_000] {
        let now = PublishTime::from_unix_secs(1_000 + later);
        assert!(!is_within_cooldown(published.age_secs_from(now), DEFAULT_COOLDOWN_SECS));
    }
}
