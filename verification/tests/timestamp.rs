use game_debug::timestamp::{capture_now_timestamp, capture_timestamp, stamp_for_clock};

#[test]
fn capture_timestamp_formats_utc() {
    // 2026-09-20 20:00:00 UTC — month/day/hour boundaries pinned.
    assert_eq!(capture_timestamp(1_789_934_400), "20260920-200000");
    assert_eq!(capture_timestamp(0), "19700101-000000");
    assert_eq!(capture_timestamp(86_399), "19700101-235959");
    assert_eq!(capture_timestamp(86_400), "19700102-000000");
    // Leap day 2024-02-29 12:00:00 UTC.
    assert_eq!(capture_timestamp(1_709_208_000), "20240229-120000");
    // Shape: 15 chars, dash at 8.
    let ts = capture_now_timestamp();
    assert_eq!(ts.len(), 15, "bad timestamp shape: {ts}");
    assert_eq!(&ts[8..9], "-");
}

#[test]
fn capture_timestamp_century_rules() {
    // 2000 is a leap year (divisible by 400), 2100 is not.
    assert_eq!(capture_timestamp(951_782_400), "20000229-000000");
    assert_eq!(capture_timestamp(4_107_542_400), "21000301-000000");
    assert_eq!(capture_timestamp(4_107_542_399), "21000228-235959");
    // Year ends.
    assert_eq!(capture_timestamp(946_684_799), "19991231-235959");
    assert_eq!(capture_timestamp(253_402_300_799), "99991231-235959");
    assert_eq!(capture_timestamp(253_402_300_800), "100000101-000000");
}

#[test]
fn capture_timestamp_extreme_input() {
    // The largest reading still yields a date (a very late year).
    let ts = capture_timestamp(u64::MAX);
    assert!(ts.ends_with("-070015"), "{ts}");
    assert_eq!(capture_timestamp(u64::MAX), "5845540512231109-070015");
}

#[test]
fn clock_reading_without_value_is_unknown() {
    assert_eq!(stamp_for_clock(None), "unknown-time");
    assert_eq!(stamp_for_clock(Some(86_400)), "19700102-000000");
}

#[test]
fn capture_timestamps_sort_by_time() {
    let moments = [
        0u64, 59, 60, 3_599, 3_600, 86_399, 86_400, 951_782_399, 951_782_400, 1_709_208_000,
        1_789_934_400, 253_402_300_799,
    ];
    for pair in moments.windows(2) {
        assert!(
            capture_timestamp(pair[0]) < capture_timestamp(pair[1]),
            "{} vs {}",
            pair[0],
            pair[1]
        );
    }
}
