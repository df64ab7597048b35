use aliyun_tools::calendar::{civil_from_days, format_unix_timestamp_utc};
use aliyun_tools::clock::{aliyun_timestamp, timestamp_of_seconds};
use aliyun_tools::error::ToolError;
use std::time::{Duration, UNIX_EPOCH};

#[test]
fn formats_utc_timestamp() {
    assert_eq!(format_unix_timestamp_utc(0), "1970-01-01T00:00:00Z");
    assert_eq!(
        format_unix_timestamp_utc(1_704_067_200),
        "2024-01-01T00:00:00Z"
    );
}

#[test]
fn knows_days_around_the_epoch() {
    assert_eq!(civil_from_days(0), (1970, 1, 1));
    assert_eq!(civil_from_days(-1), (1969, 12, 31));
    assert_eq!(civil_from_days(58), (1970, 2, 28));
    assert_eq!(civil_from_days(59), (1970, 3, 1));
    assert_eq!(civil_from_days(364), (1970, 12, 31));
    assert_eq!(civil_from_days(365), (1971, 1, 1));
}

#[test]
fn knows_leap_days() {
    assert_eq!(civil_from_days(11_016), (2000, 2, 29));
    assert_eq!(civil_from_days(19_782), (2024, 2, 29));
    assert_eq!(civil_from_days(-25_509), (1900, 2, 28));
    assert_eq!(civil_from_days(-25_508), (1900, 3, 1));
    assert_eq!(civil_from_days(-719_469), (0, 2, 29));
    assert_eq!(civil_from_days(-719_835), (-1, 2, 28));
}

fn days_in_month(year: i64, month: u32) -> u32 {
    match month {
        2 if year % 4 == 0 && (year % 100 != 0 || year % 400 == 0) => 29,
        2 => 28,
        4 | 6 | 9 | 11 => 30,
        _ => 31,
    }
}

#[test]
fn days_follow_one_another() {
    let mut expected: (i64, u32, u32) = (-1, 2, 28);
    for number in -719_835i64..800_000 {
        let date = civil_from_days(number);
        assert_eq!((i64::from(date.0), date.1, date.2), expected);
        let (year, month, day) = expected;
        expected = if day < days_in_month(year, month) {
            (year, month, day + 1)
        } else if month < 12 {
            (year, month + 1, 1)
        } else {
            (year + 1, 1, 1)
        };
    }
}

#[test]
fn writes_each_field_of_a_timestamp() {
    assert_eq!(format_unix_timestamp_utc(59), "1970-01-01T00:00:59Z");
    assert_eq!(format_unix_timestamp_utc(3_599), "1970-01-01T00:59:59Z");
    assert_eq!(format_unix_timestamp_utc(86_399), "1970-01-01T23:59:59Z");
    assert_eq!(
        format_unix_timestamp_utc(1_709_210_096),
        "2024-02-29T12:34:56Z"
    );
    assert_eq!(
        format_unix_timestamp_utc(253_402_300_799),
        "9999-12-31T23:59:59Z"
    );
    assert_eq!(
        format_unix_timestamp_utc(253_402_300_800),
        "10000-01-01T00:00:00Z"
    );
}

#[test]
fn cuts_the_year_to_32_bits() {
    assert_eq!(
        format_unix_timestamp_utc(67_767_976_233_532_799),
        "2147483647-12-31T23:59:59Z"
    );
    assert_eq!(
        format_unix_timestamp_utc(67_767_976_233_532_800),
        "-2147483648-01-01T00:00:00Z"
    );
    assert_eq!(
        format_unix_timestamp_utc(135_536_014_481_616_000),
        "-005-03-01T00:00:00Z"
    );
    assert_eq!(
        format_unix_timestamp_utc(u64::MAX),
        "438498967-11-09T07:00:15Z"
    );
}

#[test]
fn different_seconds_have_different_timestamps() {
    let seconds = [0u64, 1, 60, 3_600, 86_400, 2_678_400, 31_536_000, 253_402_300_799];
    for a in seconds {
        for b in seconds {
            assert_eq!(
                format_unix_timestamp_utc(a) == format_unix_timestamp_utc(b),
                a == b
            );
        }
        assert_eq!(format_unix_timestamp_utc(a).len(), 20);
    }
}

#[test]
fn reads_the_clock_in_whole_seconds() {
    assert_eq!(aliyun_timestamp(UNIX_EPOCH).unwrap(), "1970-01-01T00:00:00Z");
    let now = UNIX_EPOCH + Duration::from_millis(1_704_067_200_999);
    assert_eq!(aliyun_timestamp(now).unwrap(), "2024-01-01T00:00:00Z");
    assert_eq!(
        timestamp_of_seconds(Ok(1_704_067_200)).unwrap(),
        "2024-01-01T00:00:00Z"
    );
}

#[test]
fn refuses_a_clock_before_the_epoch() {
    let now = UNIX_EPOCH - Duration::from_secs(1);
    let error = aliyun_timestamp(now).unwrap_err();
    assert!(matches!(error, ToolError::ClockBeforeEpoch(_)));
    assert_eq!(error.message(), "system time is before UNIX_EPOCH");
}
