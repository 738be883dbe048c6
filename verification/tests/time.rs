use chrono::Datelike;
use cloudone::time::{
    date, http_date_text, is_before, nanos_at, nanos_now, now_string, seconds_at, unix_now,
    EPOCH_NANOS,
};

#[test]
fn dates_of_http() {
    assert_eq!(http_date_text(0), "Thu, 01 Jan 1970 00:00:00 GMT");
    assert_eq!(http_date_text(951_782_400), "Tue, 29 Feb 2000 00:00:00 GMT");
    assert_eq!(http_date_text(784_111_777), "Sun, 06 Nov 1994 08:49:37 GMT");
    assert_eq!(http_date_text(4_107_542_399), "Sun, 28 Feb 2100 23:59:59 GMT");
    assert_eq!(http_date_text(4_107_542_400), "Mon, 01 Mar 2100 00:00:00 GMT");
    assert_eq!(http_date_text(1_735_689_599), "Tue, 31 Dec 2024 23:59:59 GMT");
}

#[test]
fn the_calendar_agrees_with_chrono() {
    for days in (0..200_000u64).step_by(17) {
        let d = chrono::DateTime::<chrono::Utc>::from_timestamp(days as i64 * 86400, 0).unwrap();
        assert_eq!(date(days), (d.year() as u64, d.month() as u64, d.day() as u64));
        let text = d.format("%a, %d %b %Y %H:%M:%S GMT").to_string();
        assert_eq!(http_date_text(days * 86400), text);
    }
}

#[test]
fn instants_are_ordered() {
    assert!(is_before((1, 5), (2, 0)));
    assert!(is_before((1, 5), (1, 6)));
    assert!(!is_before((1, 5), (1, 5)));
    assert!(!is_before((2, 0), (1, 9)));
}

#[test]
fn readings_of_the_clock() {
    assert_eq!(seconds_at(Ok((1_700_000_000, 9))), 1_700_000_000);
    assert_eq!(seconds_at(Err((3, 9))), 0);
    assert_eq!(nanos_at(Ok((2, 5))), EPOCH_NANOS + 2_000_000_005);
    assert_eq!(nanos_at(Ok((0, 0))), EPOCH_NANOS);
    assert_eq!(nanos_at(Err((2, 5))), EPOCH_NANOS - 2_000_000_005);
    assert_eq!(nanos_at(Err((u64::MAX, 999_999_999))), 1);
}

#[test]
fn the_clock_is_late_enough() {
    assert!(unix_now() > 1_700_000_000);
    assert!(nanos_now() > EPOCH_NANOS + 1_700_000_000_000_000_000);
    let t = chrono::DateTime::parse_from_rfc3339(&now_string()).unwrap();
    assert!(t.timestamp() > 1_700_000_000);
}
