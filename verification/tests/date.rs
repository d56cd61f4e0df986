use leaf::date::{civil_from_days, today_utc, utc_date_from_secs};
use std::time::{Duration, UNIX_EPOCH};

#[test]
fn today_utc_formats_the_unix_epoch() {
    assert_eq!(today_utc(UNIX_EPOCH).expect("epoch date"), "1970-01-01");
}

#[test]
fn today_utc_advances_at_the_day_boundary() {
    let next_day = UNIX_EPOCH + Duration::from_secs(86_400);
    assert_eq!(today_utc(next_day).expect("next day"), "1970-01-02");
}

#[test]
fn today_utc_rejects_times_before_the_epoch() {
    assert!(today_utc(UNIX_EPOCH - Duration::from_secs(1)).is_err());
}

#[test]
fn civil_from_days_handles_leap_days_and_negative_days() {
    assert_eq!(civil_from_days(0), (1970, 1, 1));
    assert_eq!(civil_from_days(-1), (1969, 12, 31));
    assert_eq!(civil_from_days(11_016), (2000, 2, 29));
    assert_eq!(civil_from_days(19_723), (2024, 1, 1));
}

#[test]
fn utc_date_from_secs_formats_the_day() {
    assert_eq!(utc_date_from_secs(86_399), "1970-01-01");
    assert_eq!(utc_date_from_secs(951_782_400), "2000-02-29");
}
