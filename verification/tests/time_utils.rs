use nexus::time_utils::{
    epoch_to_date_display, epoch_to_iso, epoch_to_ymd, is_stale, is_stale_age, now_epoch, relative_time,
    relative_time_of, seconds_ago, seconds_ago_at,
};

#[test]
fn test_epoch_to_ymd_epoch_start() {
    assert_eq!(epoch_to_ymd(0), (1970, 1, 1));
}

#[test]
fn test_epoch_to_ymd_known_date() {
    // 2000-01-01 = 946684800
    let (y, m, d) = epoch_to_ymd(946684800);
    assert_eq!((y, m, d), (2000, 1, 1));
}

#[test]
fn test_epoch_to_iso() {
    assert_eq!(epoch_to_iso(0), "1970-01-01T00:00:00Z");
}

#[test]
fn test_relative_time_just_now() {
    let now = now_epoch();
    let ts = epoch_to_iso(now);
    assert_eq!(relative_time(&ts), "just now");
}

#[test]
fn test_relative_time_minutes() {
    let now = now_epoch();
    let ts = epoch_to_iso(now - 300);
    assert_eq!(relative_time(&ts), "5m");
}

#[test]
fn test_relative_time_hours() {
    let now = now_epoch();
    let ts = epoch_to_iso(now - 7200);
    assert_eq!(relative_time(&ts), "2h");
}

#[test]
fn test_relative_time_days() {
    let now = now_epoch();
    let ts = epoch_to_iso(now - 86400 * 3);
    assert_eq!(relative_time(&ts), "3d");
}

#[test]
fn test_is_stale_recent() {
    let now = now_epoch();
    let ts = epoch_to_iso(now - 86400);
    assert!(!is_stale(&ts, 7 * 86400));
}

#[test]
fn test_is_stale_old() {
    let now = now_epoch();
    let ts = epoch_to_iso(now - 86400 * 10);
    assert!(is_stale(&ts, 7 * 86400));
}

#[test]
fn test_seconds_ago_valid() {
    let now = now_epoch();
    let ts = epoch_to_iso(now - 60);
    let secs = seconds_ago(&ts).unwrap();
    assert!((secs - 60).abs() <= 1);
}

#[test]
fn test_seconds_ago_invalid() {
    assert!(seconds_ago("not-a-date").is_none());
    assert!(seconds_ago("short").is_none());
}

#[test]
fn iso_timestamps_of_known_dates() {
    assert_eq!(epoch_to_iso(946684800), "2000-01-01T00:00:00Z");
    assert_eq!(epoch_to_iso(1709208000), "2024-02-29T12:00:00Z");
    assert_eq!(epoch_to_ymd(1709208000), (2024, 2, 29));
    assert_eq!(epoch_to_date_display(1709208000), "2024.02.29");
}

#[test]
fn seconds_ago_at_fixed_clock() {
    // 2000-01-01T00:01:40Z is 946684900.
    assert_eq!(seconds_ago_at("2000-01-01T00:00:00Z", 946684900), Some(100));
    assert_eq!(seconds_ago_at("2000-01-01T00:00:00", 946684800), Some(0));
    // month 13 counts the twelve months of the year before it
    assert_eq!(seconds_ago_at("1970-13-01T00:00:00Z", 31536000), Some(0));
    assert_eq!(seconds_ago_at("20x0-01-01T00:00:00Z", 0), None);
}

#[test]
fn relative_text_boundaries() {
    assert_eq!(relative_time_of(None), "?");
    assert_eq!(relative_time_of(Some(-5)), "future");
    assert_eq!(relative_time_of(Some(0)), "just now");
    assert_eq!(relative_time_of(Some(59)), "just now");
    assert_eq!(relative_time_of(Some(60)), "1m");
    assert_eq!(relative_time_of(Some(3599)), "59m");
    assert_eq!(relative_time_of(Some(3600)), "1h");
    assert_eq!(relative_time_of(Some(86399)), "23h");
    assert_eq!(relative_time_of(Some(86400)), "1d");
    assert_eq!(relative_time_of(Some(86400 * 30)), "1mo");
    assert_eq!(relative_time_of(Some(86400 * 365)), "1y");
}

#[test]
fn staleness_by_age() {
    assert!(!is_stale_age(Some(10), 10));
    assert!(is_stale_age(Some(11), 10));
    assert!(!is_stale_age(None, 10));
}

#[test]
fn iso_text_reads_back_as_its_time() {
    for t in [0u64, 59, 86_399, 951_782_400, 1_772_294_400, 4_102_444_799, 253_402_300_799] {
        let iso = epoch_to_iso(t);
        assert_eq!(seconds_ago_at(&iso, 5_000_000_000), Some(5_000_000_000 - t as i64));
    }
    assert_eq!(epoch_to_iso(951_782_400), "2000-02-29T00:00:00Z");
}
