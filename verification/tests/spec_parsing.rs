use tkone_schedule::biz_day::Direction;
use tkone_schedule::date::{
    parse_spec, BizDayAdjustment, Cycle as DateCycle, DayCycle, LastDayOption, NextNthDayOption,
    Spec as DateSpec, WeekdayOption,
};
use tkone_schedule::time::{Cycle, Spec};
use tkone_schedule::{Weekday, WeekdayStartingMonday};

#[test]
fn spec_test_time_spec_from_str() {
    let time_spec = "HH:30M:05".parse::<Spec>().unwrap();
    assert_eq!(
        &time_spec,
        &Spec {
            hours: Cycle::ForEach,
            minutes: Cycle::Every(30),
            seconds: Cycle::At(5),
            ..Default::default()
        },
    );
    assert_eq!(time_spec.to_string(), "HH:30M:05");
}

#[test]
fn test_time_spec_asis_parsing() {
    let spec = "_:00:00".parse::<Spec>().unwrap();
    assert_eq!(spec.hours, Cycle::AsIs);
    assert_eq!(spec.minutes, Cycle::At(0));
    assert_eq!(spec.seconds, Cycle::At(0));
    assert_eq!(spec.to_string(), "_:00:00");
}

#[test]
fn test_time_spec_all_foreach() {
    let spec = "HH:MM:SS".parse::<Spec>().unwrap();
    assert_eq!(spec.hours, Cycle::ForEach);
    assert_eq!(spec.minutes, Cycle::ForEach);
    assert_eq!(spec.seconds, Cycle::ForEach);
    assert_eq!(spec.to_string(), "HH:MM:SS");
}

#[test]
fn test_time_spec_mixed() {
    let spec = "1H:30:SS".parse::<Spec>().unwrap();
    assert_eq!(spec.hours, Cycle::Every(1));
    assert_eq!(spec.minutes, Cycle::At(30));
    assert_eq!(spec.seconds, Cycle::ForEach);
    assert_eq!(spec.to_string(), "1H:30:SS");
}

#[test]
fn test_every_zero_is_parse_error() {
    assert!("0H:00:00".parse::<Spec>().is_err(), "0H should be a parse error");
    assert!("HH:0M:00".parse::<Spec>().is_err(), "0M should be a parse error");
    assert!("HH:MM:0S".parse::<Spec>().is_err(), "0S should be a parse error");
}

#[test]
fn test_time_spec_roundtrip() {
    for s in &[
        "HH:MM:SS",
        "1H:00:00",
        "HH:30M:00",
        "_:_:_",
        "_:00:00",
        "09:30:00",
        "HH:MM:30S",
        "2H:15:00",
    ] {
        let parsed = s.parse::<Spec>().unwrap();
        assert_eq!(&parsed.to_string(), s, "roundtrip failed for {}", s);
    }
}

#[test]
fn spec_test_valid_parsing() {
    let inputs = vec![
        (
            "YY-MM-15BD~NW",
            DateCycle::ForEach,
            DateCycle::ForEach,
            DayCycle::NextNth(15, NextNthDayOption::BizDay),
            Some(BizDayAdjustment::Weekday(Direction::Next)),
        ),
        (
            "[2023,2024]-01-01",
            DateCycle::Values(vec![2023, 2024]),
            DateCycle::Values(vec![1]),
            DayCycle::OnDays { days: vec![1], option: LastDayOption::NA },
            None,
        ),
    ];

    for (raw, yr, mo, dy, adj) in inputs {
        let res = parse_spec(raw).expect(&format!("Failed to parse {}", raw));
        assert_eq!(res.years, yr);
        assert_eq!(res.months, mo);
        assert_eq!(res.days, dy);
        assert_eq!(res.biz_day_adj, adj);
    }
}

fn set<T: Ord>(mut items: Vec<T>) -> Vec<T> {
    items.sort();
    items.dedup();
    items
}

struct TestCase {
    name: &'static str,
    input: &'static str,
    expected: DateSpec,
    expected_str: &'static str,
}

#[test]
fn spec_run_table_tests() {
    let cases = vec![
        TestCase {
            name: "test_one",
            input: "YY-1M-29L~W",
            expected_str: "YY-1M-29L~W",
            expected: DateSpec {
                years: DateCycle::ForEach,
                months: DateCycle::NextNth(1),
                days: DayCycle::OnDays { days: set(vec![29]), option: LastDayOption::LastDay },
                biz_day_adj: Some(BizDayAdjustment::Weekday(Direction::Nearest)),
            },
        },
        TestCase {
            name: "test_two",
            input: "YY-1M-1WD",
            expected_str: "YY-1M-1WD",
            expected: DateSpec {
                years: DateCycle::ForEach,
                months: DateCycle::NextNth(1),
                days: DayCycle::NextNth(1, NextNthDayOption::WeekDay),
                biz_day_adj: None,
            },
        },
        TestCase {
            name: "test_31st",
            input: "2024-MM-31L~3P",
            expected_str: "2024-MM-31L~3P",
            expected: DateSpec {
                years: DateCycle::Values(set(vec![2024])),
                months: DateCycle::ForEach,
                days: DayCycle::OnDays { days: set(vec![31]), option: LastDayOption::LastDay },
                biz_day_adj: Some(BizDayAdjustment::Prev(3)),
            },
        },
        TestCase {
            name: "test_weekday",
            input: "2024-1M-TUE#2L~3P",
            expected_str: "2024-1M-TUE#2L~3P",
            expected: DateSpec {
                years: DateCycle::Values(set(vec![2024])),
                months: DateCycle::NextNth(1),
                days: DayCycle::OnWeekDays {
                    weekdays: set(vec![WeekdayStartingMonday(Weekday::Tue)]),
                    option: WeekdayOption::Ending(Some(2)),
                },
                biz_day_adj: Some(BizDayAdjustment::Prev(3)),
            },
        },
        TestCase {
            name: "test_month_year_set",
            input: "[2024]-[01,02]-TUE#2L~3P",
            expected_str: "2024-[01,02]-TUE#2L~3P",
            expected: DateSpec {
                years: DateCycle::Values(set(vec![2024])),
                months: DateCycle::Values(set(vec![1, 2])),
                days: DayCycle::OnWeekDays {
                    weekdays: set(vec![WeekdayStartingMonday(Weekday::Tue)]),
                    option: WeekdayOption::Ending(Some(2)),
                },
                biz_day_adj: Some(BizDayAdjustment::Prev(3)),
            },
        },
        TestCase {
            name: "test_month_day_set",
            input: "2024-[01,02]-[05,10,15]~3P",
            expected_str: "2024-[01,02]-[05,10,15]~3P",
            expected: DateSpec {
                years: DateCycle::Values(set(vec![2024])),
                months: DateCycle::Values(set(vec![1, 2])),
                days: DayCycle::OnDays { days: set(vec![5, 10, 15]), option: LastDayOption::NA },
                biz_day_adj: Some(BizDayAdjustment::Prev(3)),
            },
        },
        TestCase {
            name: "test_month_weekday_set",
            input: "2024-[01,02]-[SAT,SUN]~3P",
            expected_str: "2024-[01,02]-[SAT,SUN]~3P",
            expected: DateSpec {
                years: DateCycle::Values(set(vec![2024])),
                months: DateCycle::Values(set(vec![1, 2])),
                days: DayCycle::OnWeekDays {
                    weekdays: set(vec![
                        WeekdayStartingMonday(Weekday::Sat),
                        WeekdayStartingMonday(Weekday::Sun),
                    ]),
                    option: WeekdayOption::NA,
                },
                biz_day_adj: Some(BizDayAdjustment::Prev(3)),
            },
        },
        TestCase {
            name: "test_year_month_day",
            input: "[2023,2025]-MM-30BD",
            expected_str: "[2023,2025]-MM-30BD",
            expected: DateSpec {
                years: DateCycle::Values(set(vec![2023, 2025])),
                months: DateCycle::ForEach,
                days: DayCycle::NextNth(30, NextNthDayOption::BizDay),
                biz_day_adj: None,
            },
        },
        TestCase {
            name: "test_year_month_day_last",
            input: "[2023,2025]-MM-L",
            expected_str: "[2023,2025]-MM-L",
            expected: DateSpec {
                years: DateCycle::Values(set(vec![2023, 2025])),
                months: DateCycle::ForEach,
                days: DayCycle::OnDays { days: set(vec![]), option: LastDayOption::LastDay },
                biz_day_adj: None,
            },
        },
    ];

    for case in cases {
        println!("Running test: {}", case.name);
        let parsed =
            parse_spec(case.input).expect(&format!("Failed to parse input: {}", case.input));
        assert_eq!(
            format!("{:?}", parsed),
            format!("{:?}", case.expected),
            "Mismatch in test case '{}'",
            case.name
        );
        assert_eq!(parsed.to_string(), case.expected_str, "String mismatch in '{}'", case.name);
    }
}

#[test]
fn test_compact_at_time() {
    let spec = "YY-1M-31L~WT11:00:00".parse::<tkone_schedule::datetime::Spec>().unwrap();
    assert_eq!(spec.date_spec, "YY-1M-31L~W");
    assert_eq!(spec.time_spec, "11:00:00");
}

#[test]
fn test_every_hour() {
    let spec = "YY-MM-DDT1H:00:00".parse::<tkone_schedule::datetime::Spec>().unwrap();
    assert_eq!(spec.date_spec, "YY-MM-DD");
    assert_eq!(spec.time_spec, "1H:00:00");
}

#[test]
fn test_weekday_not_confused_with_separator() {
    // THU in day spec should not be confused with the T separator
    let spec = "YY-MM-THUT11:00:00".parse::<tkone_schedule::datetime::Spec>().unwrap();
    assert_eq!(spec.date_spec, "YY-MM-THU");
    assert_eq!(spec.time_spec, "11:00:00");

    let spec = "YY-MM-TUET11:00:00".parse::<tkone_schedule::datetime::Spec>().unwrap();
    assert_eq!(spec.date_spec, "YY-MM-TUE");
    assert_eq!(spec.time_spec, "11:00:00");
}

#[test]
fn test_hh_time_spec() {
    let spec = "YY-MM-DDTHH:30M:00".parse::<tkone_schedule::datetime::Spec>().unwrap();
    assert_eq!(spec.date_spec, "YY-MM-DD");
    assert_eq!(spec.time_spec, "HH:30M:00");
}
