use confish::calendar::civil_from_days;
use confish::time::Duration;
use confish::tracing_layer::{
    add_dropped, flush_on_arrival, flush_on_tick, format_rfc3339, map_level, ShipperSettings,
    TraceLevel,
};
use confish::types::LogLevel;

fn at(secs: u64, millis: u32) -> Duration {
    Duration::new(secs, millis * 1_000_000)
}

#[test]
fn formats_the_epoch() {
    assert_eq!(format_rfc3339(Duration::from_secs(0)), "1970-01-01T00:00:00.000Z");
}

#[test]
fn formats_known_timestamps() {
    assert_eq!(
        format_rfc3339(at(946_684_799, 0)),
        "1999-12-31T23:59:59.000Z"
    );
    assert_eq!(
        format_rfc3339(at(1_700_000_000, 123)),
        "2023-11-14T22:13:20.123Z"
    );
    assert_eq!(
        format_rfc3339(at(1_782_864_000, 7)),
        "2026-07-01T00:00:00.007Z"
    );
}

#[test]
fn formats_leap_days() {
    assert_eq!(
        format_rfc3339(at(1_709_164_800, 0)),
        "2024-02-29T00:00:00.000Z"
    );
    // 2000 was a leap year despite being a century year.
    assert_eq!(
        format_rfc3339(at(951_782_400, 0)),
        "2000-02-29T00:00:00.000Z"
    );
}

#[test]
fn maps_all_five_tracing_levels() {
    assert_eq!(map_level(TraceLevel::Trace), LogLevel::Debug);
    assert_eq!(map_level(TraceLevel::Debug), LogLevel::Debug);
    assert_eq!(map_level(TraceLevel::Info), LogLevel::Info);
    assert_eq!(map_level(TraceLevel::Warn), LogLevel::Warning);
    assert_eq!(map_level(TraceLevel::Error), LogLevel::Error);
}

#[test]
fn formats_far_future_and_sub_second_instants() {
    assert_eq!(
        format_rfc3339(at(253_402_300_799, 999)),
        "9999-12-31T23:59:59.999Z"
    );
    assert_eq!(
        format_rfc3339(at(253_402_300_800, 0)),
        "10000-01-01T00:00:00.000Z"
    );
    assert_eq!(
        format_rfc3339(Duration::new(5, 999_999)),
        "1970-01-01T00:00:05.000Z"
    );
    assert_eq!(format_rfc3339(at(4_107_542_400, 0)), "2100-03-01T00:00:00.000Z");
}

#[test]
fn civil_dates_round_trip_century_rules() {
    assert_eq!(civil_from_days(0), (1970, 1, 1));
    assert_eq!(civil_from_days(59), (1970, 3, 1));
    assert_eq!(civil_from_days(365), (1971, 1, 1));
    // 2100 is not a leap year: February 28 is followed by March 1.
    assert_eq!(civil_from_days(47_540), (2100, 2, 28));
    assert_eq!(civil_from_days(47_541), (2100, 3, 1));
    assert_eq!(civil_from_days(10_957), (2000, 1, 1));
}

#[test]
fn shipper_defaults_and_clamps() {
    let defaults = ShipperSettings::new();
    assert_eq!(defaults.capacity, 1000);
    assert_eq!(defaults.flush_after, 50);
    assert_eq!(defaults.flush_interval, Duration::from_secs(5));
    assert_eq!(defaults.shutdown_timeout, Duration::from_secs(5));
    let zeroed = ShipperSettings {
        capacity: 0,
        flush_after: 0,
        flush_interval: Duration::from_secs(0),
        shutdown_timeout: Duration::from_secs(1),
    }
    .effective();
    assert_eq!(zeroed.capacity, 1);
    assert_eq!(zeroed.flush_after, 1);
    assert_eq!(zeroed.flush_interval, Duration::from_millis(1));
    assert!(flush_on_arrival(50, 50));
    assert!(!flush_on_arrival(49, 50));
    assert!(flush_on_tick(1));
    assert!(!flush_on_tick(0));
    assert_eq!(add_dropped(3, 4), 7);
    assert_eq!(add_dropped(u64::MAX, 2), 1);
}

#[test]
fn consecutive_days_advance_the_calendar() {
    let mut prev = civil_from_days(0);
    for days in 1..200_000u64 {
        let (y, m, d) = civil_from_days(days);
        let (py, pm, pd) = prev;
        let next_day = y == py && m == pm && d == pd + 1;
        let next_month = y == py && m == pm + 1 && d == 1;
        let next_year = y == py + 1 && m == 1 && d == 1 && pm == 12 && pd == 31;
        assert!(next_day || next_month || next_year, "at day {days}: {prev:?} -> {:?}", (y, m, d));
        prev = (y, m, d);
    }
}

#[test]
fn timestamps_are_24_characters_through_year_9999() {
    for secs in [0u64, 86_399, 951_782_400, 4_107_542_400, 253_402_300_799] {
        assert_eq!(format_rfc3339(at(secs, 999)).len(), 24);
    }
}
