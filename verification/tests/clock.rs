use ytb_wayback::clock::{civil_from_days, utc_timestamp};

#[test]
fn civil_dates() {
    assert_eq!(civil_from_days(0), (1970, 1, 1));
    assert_eq!(civil_from_days(19_900), (2024, 6, 26));
    assert_eq!(civil_from_days(-1), (1969, 12, 31));
    assert_eq!(civil_from_days(15_000), (2011, 1, 26));
}

#[test]
fn civil_dates_around_leap_days() {
    // 2000 is a leap year (divisible by 400), 1900 is not.
    assert_eq!(civil_from_days(11_016), (2000, 2, 29));
    assert_eq!(civil_from_days(11_017), (2000, 3, 1));
    assert_eq!(civil_from_days(-25_508), (1900, 3, 1));
    assert_eq!(civil_from_days(-25_509), (1900, 2, 28));
    assert_eq!(civil_from_days(-719_468), (0, 3, 1));
}

#[test]
fn utc_timestamps() {
    assert_eq!(utc_timestamp(0), "1970-01-01 00:00:00 UTC");
    assert_eq!(utc_timestamp(1_719_400_000), "2024-06-26 11:06:40 UTC");
    assert_eq!(utc_timestamp(86_399), "1970-01-01 23:59:59 UTC");
    assert_eq!(utc_timestamp(951_782_400), "2000-02-29 00:00:00 UTC");
}

#[test]
fn utc_timestamp_pads_and_grows_the_year() {
    // Year 10000 starts 253402300800 seconds after the epoch.
    assert_eq!(utc_timestamp(253_402_300_800), "10000-01-01 00:00:00 UTC");
    assert_eq!(utc_timestamp(253_402_300_799), "9999-12-31 23:59:59 UTC");
}

#[test]
fn day_counts_and_dates_round_trip() {
    for z in [-800_000i64, -1, 0, 59, 60, 11_016, 19_900, 2_932_896] {
        let (y, m, d) = civil_from_days(z);
        assert!((1..=12).contains(&m) && d >= 1 && d <= 31);
        // The next day is one step later in the calendar.
        let (y2, m2, d2) = civil_from_days(z + 1);
        assert!((y2, m2, d2) > (y, m, d));
    }
}
