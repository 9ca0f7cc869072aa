use kline_ingest::cli::{both_bounds, Commands};
use kline_ingest::date::{
    date_from_fields, leap_year, Date, DateString, DateWindow, UnknownDateFormat,
};

fn day(year: i32, month: u32, day: u32) -> Date {
    Date::from_ymd(year, month, day).expect("a day that exists")
}

#[test]
fn from_ymd_accepts_days_that_exist() {
    assert_eq!(Date::from_ymd(2021, 1, 1), Some(Date { year: 2021, month: 1, day: 1 }));
    assert_eq!(Date::from_ymd(2021, 12, 31), Some(Date { year: 2021, month: 12, day: 31 }));
    assert_eq!(Date::from_ymd(2020, 2, 29), Some(Date { year: 2020, month: 2, day: 29 }));
    assert_eq!(Date::from_ymd(2000, 2, 29), Some(Date { year: 2000, month: 2, day: 29 }));
    assert_eq!(Date::from_ymd(-4, 2, 29), Some(Date { year: -4, month: 2, day: 29 }));
}

#[test]
fn from_ymd_refuses_days_that_do_not_exist() {
    assert_eq!(Date::from_ymd(2021, 2, 29), None);
    assert_eq!(Date::from_ymd(1900, 2, 29), None);
    assert_eq!(Date::from_ymd(2021, 4, 31), None);
    assert_eq!(Date::from_ymd(2021, 0, 1), None);
    assert_eq!(Date::from_ymd(2021, 13, 1), None);
    assert_eq!(Date::from_ymd(2021, 1, 0), None);
    assert_eq!(Date::from_ymd(2021, 1, 32), None);
}

#[test]
fn leap_years_follow_the_gregorian_rule() {
    assert!(leap_year(2020));
    assert!(leap_year(2000));
    assert!(leap_year(0));
    assert!(leap_year(-4));
    assert!(!leap_year(2021));
    assert!(!leap_year(1900));
    assert!(!leap_year(-1));
    assert!(!leap_year(i32::MIN + 1));
    assert!(leap_year(i32::MIN));
}

#[test]
fn is_before_orders_by_year_month_day() {
    assert!(day(2020, 12, 31).is_before(&day(2021, 1, 1)));
    assert!(day(2021, 1, 31).is_before(&day(2021, 2, 1)));
    assert!(day(2021, 2, 1).is_before(&day(2021, 2, 2)));
    assert!(!day(2021, 2, 2).is_before(&day(2021, 2, 2)));
    assert!(!day(2021, 2, 3).is_before(&day(2021, 2, 2)));
    assert!(!day(2022, 1, 1).is_before(&day(2021, 12, 31)));
}

#[test]
fn window_bounds_are_inclusive() {
    let window = DateWindow::new(Some(day(2021, 1, 1)), Some(day(2021, 1, 3)));
    assert!(!window.contains(&day(2020, 12, 31)));
    assert!(window.contains(&day(2021, 1, 1)));
    assert!(window.contains(&day(2021, 1, 2)));
    assert!(window.contains(&day(2021, 1, 3)));
    assert!(!window.contains(&day(2021, 1, 4)));
}

#[test]
fn window_without_a_bound_is_open_on_that_side() {
    let from = DateWindow::new(Some(day(2021, 1, 2)), None);
    assert!(!from.contains(&day(2021, 1, 1)));
    assert!(from.contains(&day(2021, 1, 2)));
    assert!(from.contains(&day(9999, 12, 31)));
    let until = DateWindow::new(None, Some(day(2021, 1, 2)));
    assert!(until.contains(&day(1, 1, 1)));
    assert!(until.contains(&day(2021, 1, 2)));
    assert!(!until.contains(&day(2021, 1, 3)));
    let open = DateWindow::unbounded();
    assert_eq!(open, DateWindow { start: None, end: None });
    assert!(open.contains(&day(1970, 1, 1)));
}

#[test]
fn window_with_start_after_end_admits_nothing() {
    let window = DateWindow::new(Some(day(2021, 1, 3)), Some(day(2021, 1, 1)));
    assert!(!window.contains(&day(2021, 1, 1)));
    assert!(!window.contains(&day(2021, 1, 2)));
    assert!(!window.contains(&day(2021, 1, 3)));
}

#[test]
fn try_parse_date_reads_year_month_day() {
    assert_eq!("2021-01-03".try_parse_date(), Some(day(2021, 1, 3)));
    assert_eq!("2020-02-29".try_parse_date(), Some(day(2020, 2, 29)));
    assert_eq!("1999-12-31".try_parse_date(), Some(day(1999, 12, 31)));
}

#[test]
fn try_parse_date_refuses_other_texts() {
    assert_eq!("".try_parse_date(), None);
    assert_eq!("yesterday".try_parse_date(), None);
    assert_eq!("2021-02-29".try_parse_date(), None);
    assert_eq!("2021-13-01".try_parse_date(), None);
    assert_eq!("2021/01/03".try_parse_date(), None);
    assert_eq!("2021-01-03 and more".try_parse_date(), None);
}

#[test]
fn optional_text_parses_like_the_text() {
    assert_eq!(Some("2021-01-03".to_string()).try_parse_date(), Some(day(2021, 1, 3)));
    assert_eq!(Some("nonsense".to_string()).try_parse_date(), None);
    let missing: Option<String> = None;
    assert_eq!(missing.try_parse_date(), None);
    assert_eq!(Some("2021-01-03".to_string()).parse_date(), day(2021, 1, 3));
}

#[test]
fn parse_date_gives_the_date_of_a_text_that_reads_as_one() {
    assert_eq!("2021-01-03".parse_date(), day(2021, 1, 3));
    assert_eq!("2020-02-29".parse_date(), day(2020, 2, 29));
}

#[test]
fn both_bounds_reports_unknown_formats() {
    assert_eq!(
        both_bounds("2021-01-01", "2021-01-03"),
        Ok(DateWindow { start: Some(day(2021, 1, 1)), end: Some(day(2021, 1, 3)) })
    );
    assert_eq!(both_bounds("03.01.2021", "2021-01-03"), Err(UnknownDateFormat));
    assert_eq!(both_bounds("2021-01-01", "2021-02-30"), Err(UnknownDateFormat));
    assert_eq!(both_bounds("", ""), Err(UnknownDateFormat));
}

#[test]
fn date_from_fields_checks_the_day() {
    assert_eq!(date_from_fields(Some((2021, 1, 3))), Some(day(2021, 1, 3)));
    assert_eq!(date_from_fields(Some((2021, 2, 30))), None);
    assert_eq!(date_from_fields(None), None);
}

#[test]
fn fetch_command_ignores_bounds_that_do_not_parse() {
    let command = Commands::Fetch {
        path: "out".to_string(),
        symbol: ".*".to_string(),
        interval: "1m".to_string(),
        start_date: Some("2021-01-01".to_string()),
        end_date: Some("soon".to_string()),
    };
    assert_eq!(command.window(), Ok(DateWindow { start: Some(day(2021, 1, 1)), end: None }));
}

#[test]
fn test_command_needs_both_bounds() {
    let command = Commands::Test {
        symbol: ".*".to_string(),
        start_date: "2021-01-01".to_string(),
        end_date: "2021-01-03".to_string(),
        path: "out".to_string(),
    };
    assert_eq!(
        command.window(),
        Ok(DateWindow { start: Some(day(2021, 1, 1)), end: Some(day(2021, 1, 3)) })
    );
    let broken = Commands::TestVariants {
        symbol: ".*".to_string(),
        start_date: "2021-01-01".to_string(),
        end_date: "".to_string(),
        path: "out".to_string(),
    };
    assert_eq!(broken.window(), Err(UnknownDateFormat));
    assert_eq!(both_bounds("x", "2021-01-03"), Err(UnknownDateFormat));
}
