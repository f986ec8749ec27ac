use chrono::{Offset, TimeZone};
use tkone_schedule::biz_day::WeekendSkipper;
use tkone_schedule::date::SpecIteratorBuilder;
use tkone_schedule::zone::ZonedDateTime;
use tkone_schedule::{NaiveDateTime, NextResult, Result};

const NY: &str = "America/New_York";

fn dt(y: i32, m: u32, d: u32, h: u32, mi: u32, s: u32) -> NaiveDateTime {
    NaiveDateTime::from_ymd_hms(y, m, d, h, mi, s).unwrap()
}

/// Seconds east of UTC of the wall-clock time `t` in `zone`, as chrono-tz
/// gives it (the earlier offset of a repeated hour).
fn zone_offset(zone: &str, t: &NaiveDateTime) -> i32 {
    let tz: chrono_tz::Tz = zone.parse().unwrap();
    let (y, m, d) = t.to_ymd();
    let c = chrono::NaiveDate::from_ymd_opt(y, m, d)
        .unwrap()
        .and_hms_opt(t.hour_of_day(), t.minute_of_hour(), t.second_of_minute())
        .unwrap();
    tz.from_local_datetime(&c).earliest().unwrap().offset().fix().local_minus_utc()
}

/// The wall-clock time of an outcome, once its offset is checked against
/// the zone's.
fn local(z: &ZonedDateTime) -> NaiveDateTime {
    assert_eq!(z.offset, zone_offset(NY, &z.local), "offset at {:?}", z.local);
    z.local
}

fn locals(v: Vec<NextResult<ZonedDateTime>>) -> Vec<NextResult<NaiveDateTime>> {
    v.iter()
        .map(|r| match r {
            NextResult::Single(a) => NextResult::Single(local(a)),
            NextResult::AdjustedLater(a, o) => NextResult::AdjustedLater(local(a), local(o)),
            NextResult::AdjustedEarlier(a, o) => NextResult::AdjustedEarlier(local(a), local(o)),
        })
        .collect()
}

struct TestCase {
    spec: &'static str,
    start: NaiveDateTime,
    take: usize,
    expected: Result<Vec<NextResult<NaiveDateTime>>>,
}

#[test]
fn test_date_iteration_for_weekday_valid_specs() {
    let bdp = WeekendSkipper::new();

    let test_cases = vec![
        TestCase {
            spec: "YY-MM-MON",
            take: 10,
            start: dt(2025, 1, 1, 0, 0, 0),
            expected: Ok(vec![
                NextResult::Single(dt(2025, 1, 1, 0, 0, 0)),
                NextResult::Single(dt(2025, 1, 6, 0, 0, 0)),
                NextResult::Single(dt(2025, 1, 13, 0, 0, 0)),
                NextResult::Single(dt(2025, 1, 20, 0, 0, 0)),
                NextResult::Single(dt(2025, 1, 27, 0, 0, 0)),
                NextResult::Single(dt(2025, 2, 3, 0, 0, 0)),
                NextResult::Single(dt(2025, 2, 10, 0, 0, 0)),
                NextResult::Single(dt(2025, 2, 17, 0, 0, 0)),
                NextResult::Single(dt(2025, 2, 24, 0, 0, 0)),
                NextResult::Single(dt(2025, 3, 3, 0, 0, 0)),
            ]),
        },
        TestCase {
            spec: "YY-1M-WED#1",
            take: 5,
            start: dt(2025, 1, 1, 0, 0, 0),
            expected: Ok(vec![
                NextResult::Single(dt(2025, 1, 1, 0, 0, 0)),
                NextResult::Single(dt(2025, 2, 5, 0, 0, 0)),
                NextResult::Single(dt(2025, 3, 5, 0, 0, 0)),
                NextResult::Single(dt(2025, 4, 2, 0, 0, 0)),
                NextResult::Single(dt(2025, 5, 7, 0, 0, 0)),
            ]),
        },
        TestCase {
            spec: "YY-1M-WED#L",
            take: 5,
            start: dt(2025, 1, 29, 0, 0, 0),
            expected: Ok(vec![
                NextResult::Single(dt(2025, 1, 29, 0, 0, 0)),
                NextResult::Single(dt(2025, 2, 26, 0, 0, 0)),
                NextResult::Single(dt(2025, 3, 26, 0, 0, 0)),
                NextResult::Single(dt(2025, 4, 30, 0, 0, 0)),
                NextResult::Single(dt(2025, 5, 28, 0, 0, 0)),
            ]),
        },
        TestCase {
            spec: "2025-3M-WED#2L",
            take: 5,
            start: dt(2025, 1, 22, 0, 0, 0),
            expected: Ok(vec![
                NextResult::Single(dt(2025, 1, 22, 0, 0, 0)),
                NextResult::Single(dt(2025, 4, 23, 0, 0, 0)),
                NextResult::Single(dt(2025, 7, 23, 0, 0, 0)),
                NextResult::Single(dt(2025, 10, 22, 0, 0, 0)),
            ]),
        },
        TestCase {
            spec: "1Y-12-SUN#L",
            take: 3,
            start: dt(2025, 12, 28, 0, 0, 0),
            expected: Ok(vec![
                NextResult::Single(dt(2025, 12, 28, 0, 0, 0)),
                NextResult::Single(dt(2026, 12, 27, 0, 0, 0)),
                NextResult::Single(dt(2027, 12, 26, 0, 0, 0)),
            ]),
        },
    ];

    for tc in test_cases {
        let mut iter = SpecIteratorBuilder::new_with_start(&tc.spec, bdp.clone(), NY, tc.start)
            .build()
            .unwrap();
        let results = locals(iter.take(tc.take).unwrap());
        assert_eq!(tc.expected, Ok(results), "Failed for spec: {}", tc.spec);
    }
}

#[test]
fn test_date_iteration_for_multiple_days_valid_specs() {
    let bdp = WeekendSkipper::new();

    let test_cases = vec![
        TestCase {
            spec: "YY-MM-[01,10,20,25]",
            take: 10,
            start: dt(2025, 1, 1, 0, 0, 0),
            expected: Ok(vec![
                NextResult::Single(dt(2025, 1, 1, 0, 0, 0)),
                NextResult::Single(dt(2025, 1, 10, 0, 0, 0)),
                NextResult::Single(dt(2025, 1, 20, 0, 0, 0)),
                NextResult::Single(dt(2025, 1, 25, 0, 0, 0)),
                NextResult::Single(dt(2025, 2, 1, 0, 0, 0)),
                NextResult::Single(dt(2025, 2, 10, 0, 0, 0)),
                NextResult::Single(dt(2025, 2, 20, 0, 0, 0)),
                NextResult::Single(dt(2025, 2, 25, 0, 0, 0)),
                NextResult::Single(dt(2025, 3, 1, 0, 0, 0)),
                NextResult::Single(dt(2025, 3, 10, 0, 0, 0)),
            ]),
        },
        TestCase {
            spec: "YY-[01,04,07,10]-[01,15]",
            take: 10,
            start: dt(2025, 1, 1, 0, 0, 0),
            expected: Ok(vec![
                NextResult::Single(dt(2025, 1, 1, 0, 0, 0)),
                NextResult::Single(dt(2025, 1, 15, 0, 0, 0)),
                NextResult::Single(dt(2025, 4, 1, 0, 0, 0)),
                NextResult::Single(dt(2025, 4, 15, 0, 0, 0)),
                NextResult::Single(dt(2025, 7, 1, 0, 0, 0)),
                NextResult::Single(dt(2025, 7, 15, 0, 0, 0)),
                NextResult::Single(dt(2025, 10, 1, 0, 0, 0)),
                NextResult::Single(dt(2025, 10, 15, 0, 0, 0)),
                NextResult::Single(dt(2026, 1, 1, 0, 0, 0)),
                NextResult::Single(dt(2026, 1, 15, 0, 0, 0)),
            ]),
        },
        TestCase {
            spec: "[2025,2026]-[01,07]-[01,15]",
            take: 10,
            start: dt(2025, 1, 1, 0, 0, 0),
            expected: Ok(vec![
                NextResult::Single(dt(2025, 1, 1, 0, 0, 0)),
                NextResult::Single(dt(2025, 1, 15, 0, 0, 0)),
                NextResult::Single(dt(2025, 7, 1, 0, 0, 0)),
                NextResult::Single(dt(2025, 7, 15, 0, 0, 0)),
                NextResult::Single(dt(2026, 1, 1, 0, 0, 0)),
                NextResult::Single(dt(2026, 1, 15, 0, 0, 0)),
                NextResult::Single(dt(2026, 7, 1, 0, 0, 0)),
                NextResult::Single(dt(2026, 7, 15, 0, 0, 0)),
            ]),
        },
        TestCase {
            spec: "[2025,2026]-MM-[01,15]",
            take: 12,
            start: dt(2025, 10, 1, 0, 0, 0),
            expected: Ok(vec![
                NextResult::Single(dt(2025, 10, 1, 0, 0, 0)),
                NextResult::Single(dt(2025, 10, 15, 0, 0, 0)),
                NextResult::Single(dt(2025, 11, 1, 0, 0, 0)),
                NextResult::Single(dt(2025, 11, 15, 0, 0, 0)),
                NextResult::Single(dt(2025, 12, 1, 0, 0, 0)),
                NextResult::Single(dt(2025, 12, 15, 0, 0, 0)),
                NextResult::Single(dt(2026, 1, 1, 0, 0, 0)),
                NextResult::Single(dt(2026, 1, 15, 0, 0, 0)),
                NextResult::Single(dt(2026, 2, 1, 0, 0, 0)),
                NextResult::Single(dt(2026, 2, 15, 0, 0, 0)),
                NextResult::Single(dt(2026, 3, 1, 0, 0, 0)),
                NextResult::Single(dt(2026, 3, 15, 0, 0, 0)),
            ]),
        },
    ];

    for tc in test_cases {
        let mut iter = SpecIteratorBuilder::new_with_start(&tc.spec, bdp.clone(), NY, tc.start)
            .build()
            .unwrap();
        let results = locals(iter.take(tc.take).unwrap());
        assert_eq!(tc.expected, Ok(results), "Failed for spec: {}", tc.spec);
    }
}

/// Day specs. Every day (`YY-MM-DD`) and every fourth day of January
/// (`YY-01-4D`) are covered with the rolling cadences, where both go on
/// into later days and years.
#[test]
fn test_date_iteration_for_day_valid_specs() {
    let bdp = WeekendSkipper::new();
    let test_cases = vec![
        TestCase {
            spec: "YY-MM-4D",
            take: 10,
            start: dt(2025, 1, 1, 0, 0, 0),
            expected: Ok(vec![
                NextResult::Single(dt(2025, 1, 1, 0, 0, 0)),
                NextResult::Single(dt(2025, 1, 5, 0, 0, 0)),
                NextResult::Single(dt(2025, 1, 9, 0, 0, 0)),
                NextResult::Single(dt(2025, 1, 13, 0, 0, 0)),
                NextResult::Single(dt(2025, 1, 17, 0, 0, 0)),
                NextResult::Single(dt(2025, 1, 21, 0, 0, 0)),
                NextResult::Single(dt(2025, 1, 25, 0, 0, 0)),
                NextResult::Single(dt(2025, 1, 29, 0, 0, 0)),
                NextResult::Single(dt(2025, 2, 2, 0, 0, 0)),
                NextResult::Single(dt(2025, 2, 6, 0, 0, 0)),
            ]),
        },
        TestCase {
            spec: "YY-1M-7D",
            take: 5,
            start: dt(2024, 12, 1, 0, 0, 0),
            expected: Ok(vec![
                NextResult::Single(dt(2024, 12, 1, 0, 0, 0)),
                NextResult::Single(dt(2025, 1, 8, 0, 0, 0)),
                NextResult::Single(dt(2025, 2, 15, 0, 0, 0)),
                NextResult::Single(dt(2025, 3, 22, 0, 0, 0)),
                NextResult::Single(dt(2025, 4, 29, 0, 0, 0)),
            ]),
        },
        TestCase {
            spec: "YY-1M-14",
            take: 5,
            start: dt(2024, 12, 14, 23, 0, 0),
            expected: Ok(vec![
                NextResult::Single(dt(2024, 12, 14, 23, 0, 0)),
                NextResult::Single(dt(2025, 1, 14, 23, 0, 0)),
                NextResult::Single(dt(2025, 2, 14, 23, 0, 0)),
                NextResult::Single(dt(2025, 3, 14, 23, 0, 0)),
                NextResult::Single(dt(2025, 4, 14, 23, 0, 0)),
            ]),
        },
        TestCase {
            spec: "1Y-06-15",
            take: 5,
            start: dt(2025, 6, 15, 0, 0, 0),
            expected: Ok(vec![
                NextResult::Single(dt(2025, 6, 15, 0, 0, 0)),
                NextResult::Single(dt(2026, 6, 15, 0, 0, 0)),
                NextResult::Single(dt(2027, 6, 15, 0, 0, 0)),
                NextResult::Single(dt(2028, 6, 15, 0, 0, 0)),
                NextResult::Single(dt(2029, 6, 15, 0, 0, 0)),
            ]),
        },
        TestCase {
            spec: "1Y-3M-15",
            take: 5,
            start: dt(2025, 6, 15, 0, 0, 0),
            expected: Ok(vec![
                NextResult::Single(dt(2025, 6, 15, 0, 0, 0)),
                NextResult::Single(dt(2026, 9, 15, 0, 0, 0)),
                NextResult::Single(dt(2027, 12, 15, 0, 0, 0)),
                NextResult::Single(dt(2029, 3, 15, 0, 0, 0)),
                NextResult::Single(dt(2030, 6, 15, 0, 0, 0)),
            ]),
        },
        TestCase {
            spec: "2025-3M-L",
            take: 5,
            start: dt(2024, 12, 31, 0, 0, 0),
            expected: Ok(vec![
                NextResult::Single(dt(2024, 12, 31, 0, 0, 0)),
                NextResult::Single(dt(2025, 3, 31, 0, 0, 0)),
                NextResult::Single(dt(2025, 6, 30, 0, 0, 0)),
                NextResult::Single(dt(2025, 9, 30, 0, 0, 0)),
                NextResult::Single(dt(2025, 12, 31, 0, 0, 0)),
            ]),
        },
        TestCase {
            spec: "YY-1M-31L",
            take: 5,
            start: dt(2024, 12, 31, 0, 0, 0),
            expected: Ok(vec![
                NextResult::Single(dt(2024, 12, 31, 0, 0, 0)),
                NextResult::Single(dt(2025, 1, 31, 0, 0, 0)),
                NextResult::Single(dt(2025, 2, 28, 0, 0, 0)),
                NextResult::Single(dt(2025, 3, 31, 0, 0, 0)),
                NextResult::Single(dt(2025, 4, 30, 0, 0, 0)),
            ]),
        },
        TestCase {
            spec: "YY-1M-31N",
            take: 5,
            start: dt(2024, 12, 31, 0, 0, 0),
            expected: Ok(vec![
                NextResult::Single(dt(2024, 12, 31, 0, 0, 0)),
                NextResult::Single(dt(2025, 1, 31, 0, 0, 0)),
                NextResult::AdjustedLater(
                    dt(2025, 2, 28, 0, 0, 0),
                    dt(2025, 3, 1, 0, 0, 0),
                ),
                NextResult::Single(dt(2025, 3, 31, 0, 0, 0)),
                NextResult::AdjustedLater(
                    dt(2025, 4, 30, 0, 0, 0),
                    dt(2025, 5, 1, 0, 0, 0),
                ),
            ]),
        },
        TestCase {
            spec: "YY-1M-31O",
            take: 5,
            start: dt(2024, 12, 31, 0, 0, 0),
            expected: Ok(vec![
                NextResult::Single(dt(2024, 12, 31, 0, 0, 0)),
                NextResult::Single(dt(2025, 1, 31, 0, 0, 0)),
                NextResult::AdjustedLater(
                    dt(2025, 2, 28, 0, 0, 0),
                    dt(2025, 3, 3, 0, 0, 0),
                ),
                NextResult::Single(dt(2025, 3, 31, 0, 0, 0)),
                NextResult::AdjustedLater(
                    dt(2025, 4, 30, 0, 0, 0),
                    dt(2025, 5, 1, 0, 0, 0),
                ),
            ]),
        },
    ];

    for tc in test_cases {
        let mut iter = SpecIteratorBuilder::new_with_start(&tc.spec, bdp.clone(), NY, tc.start)
            .build()
            .unwrap();
        let results = locals(iter.take(tc.take).unwrap());
        assert_eq!(tc.expected, Ok(results), "Failed for spec: {}", tc.spec);
    }
}
