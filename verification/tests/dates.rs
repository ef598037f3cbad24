use chrono::{Datelike, NaiveDate};
use rudium_planner::date::text_or_empty;
use rudium_planner::Date;

#[test]
fn a_date_holds_its_year_month_and_day() {
    let date = Date::from_ymd_opt(2024, 2, 29).unwrap();
    assert_eq!(date.year(), 2024);
    assert_eq!(date.month(), 2);
    assert_eq!(date.day(), 29);
}

#[test]
fn the_default_date_is_the_first_of_january_1970() {
    let date = Date::default();
    assert_eq!((date.year(), date.month(), date.day()), (1970, 1, 1));
    assert_eq!(date, Date::from_ymd_opt(1970, 1, 1).unwrap());
    let chrono_default = NaiveDate::default();
    assert_eq!(
        (date.year(), date.month(), date.day()),
        (chrono_default.year(), chrono_default.month(), chrono_default.day())
    );
}

#[test]
fn leap_days() {
    assert!(Date::from_ymd_opt(2024, 2, 29).is_some());
    assert!(Date::from_ymd_opt(2023, 2, 29).is_none());
    assert!(Date::from_ymd_opt(2000, 2, 29).is_some());
    assert!(Date::from_ymd_opt(1900, 2, 29).is_none());
    assert!(Date::from_ymd_opt(0, 2, 29).is_some());
    assert!(Date::from_ymd_opt(-4, 2, 29).is_some());
    assert!(Date::from_ymd_opt(-100, 2, 29).is_none());
    assert!(Date::from_ymd_opt(-400, 2, 29).is_some());
    assert!(Date::from_ymd_opt(2024, 2, 30).is_none());
}

#[test]
fn months_and_days_out_of_range() {
    assert!(Date::from_ymd_opt(2015, 0, 14).is_none());
    assert!(Date::from_ymd_opt(2015, 13, 1).is_none());
    assert!(Date::from_ymd_opt(2015, 3, 0).is_none());
    assert!(Date::from_ymd_opt(2015, 3, 32).is_none());
    assert!(Date::from_ymd_opt(2023, 4, 31).is_none());
    assert!(Date::from_ymd_opt(2023, 4, 30).is_some());
    assert!(Date::from_ymd_opt(2023, 12, 31).is_some());
    assert!(Date::from_ymd_opt(2023, u32::MAX, 1).is_none());
    assert!(Date::from_ymd_opt(2023, 1, u32::MAX).is_none());
}

#[test]
fn the_first_and_the_last_year() {
    assert!(Date::from_ymd_opt(262142, 12, 31).is_some());
    assert!(Date::from_ymd_opt(262143, 1, 1).is_none());
    assert!(Date::from_ymd_opt(-262143, 1, 1).is_some());
    assert!(Date::from_ymd_opt(-262144, 12, 31).is_none());
    assert!(Date::from_ymd_opt(i32::MAX, 1, 1).is_none());
    assert!(Date::from_ymd_opt(i32::MIN, 1, 1).is_none());
}

#[test]
fn the_days_that_exist_are_those_of_chrono() {
    let years = [
        -262144, -262143, -401, -400, -101, -100, -5, -4, -1, 0, 1, 4, 100, 400, 1582, 1900, 1970,
        1999, 2000, 2023, 2024, 2100, 262142, 262143,
    ];
    for year in years {
        for month in 0..=13 {
            for day in 0..=32 {
                let ours = Date::from_ymd_opt(year, month, day);
                let theirs = NaiveDate::from_ymd_opt(year, month, day);
                assert_eq!(ours.is_some(), theirs.is_some(), "{}-{}-{}", year, month, day);
                if let (Some(ours), Some(theirs)) = (ours, theirs) {
                    assert_eq!(ours.year(), theirs.year());
                    assert_eq!(ours.month(), theirs.month());
                    assert_eq!(ours.day(), theirs.day());
                }
            }
        }
    }
}

#[test]
fn a_date_as_a_label() {
    assert_eq!(Date::from_ymd_opt(2024, 1, 1).unwrap().to_string(), "2024-01-01");
    assert_eq!(Date::from_ymd_opt(1970, 12, 31).unwrap().to_string(), "1970-12-31");
    assert_eq!(Date::from_ymd_opt(33, 4, 3).unwrap().to_string(), "0033-04-03");
    assert_eq!(Date::from_ymd_opt(-1, 1, 1).unwrap().to_string(), "-0001-01-01");
    assert_eq!(Date::from_ymd_opt(10000, 12, 31).unwrap().to_string(), "+10000-12-31");
    assert_eq!(Date::default().to_string(), "1970-01-01");
}

#[test]
fn the_label_is_the_text_of_chrono() {
    for (year, month, day) in [(2024, 2, 29), (-262143, 1, 1), (262142, 12, 31), (0, 6, 15)] {
        let ours = Date::from_ymd_opt(year, month, day).unwrap().to_string();
        let theirs = NaiveDate::from_ymd_opt(year, month, day).unwrap().to_string();
        assert_eq!(ours, theirs);
    }
}

#[test]
fn dates_compare_by_their_numbers() {
    let a = Date::from_ymd_opt(2024, 1, 1).unwrap();
    let b = Date::from_ymd_opt(2024, 1, 1).unwrap();
    let c = Date::from_ymd_opt(2024, 1, 2).unwrap();
    assert_eq!(a, b);
    assert_ne!(a, c);
    let copy = a;
    assert_eq!(copy, a);
}

#[test]
fn a_label_of_no_text_is_empty() {
    assert_eq!(text_or_empty(Some("2024-01-01".to_string())), "2024-01-01");
    assert_eq!(text_or_empty(Some(String::new())), "");
    assert_eq!(text_or_empty(None), "");
}
