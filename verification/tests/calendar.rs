use adocpdf::calendar::{date_from_unix_days, days_from_civil, unix_timestamp};
use adocpdf::ports::Date;

#[test]
fn the_epoch_is_the_first_of_january_nineteen_seventy() {
    assert_eq!(date_from_unix_days(0), Date::new(1970, 1, 1).unwrap(), "day zero anchors the whole conversion");
}

#[test]
fn a_known_day_converts_to_its_known_date() {
    assert_eq!(date_from_unix_days(11_017), Date::new(2000, 3, 1).unwrap());
}

#[test]
fn the_day_before_a_leap_day_is_the_leap_day() {
    assert_eq!(date_from_unix_days(11_016), Date::new(2000, 2, 29).unwrap());
}

#[test]
fn a_non_leap_century_has_no_leap_day() {
    let first_of_march = -25_508;

    assert_eq!(date_from_unix_days(first_of_march), Date::new(1900, 3, 1).unwrap());
    assert_eq!(date_from_unix_days(first_of_march - 1), Date::new(1900, 2, 28).unwrap());
}

#[test]
fn converting_a_date_to_days_and_back_returns_it() {
    for date in [
        Date::new(1970, 1, 1).unwrap(),
        Date::new(2000, 2, 29).unwrap(),
        Date::new(1900, 2, 28).unwrap(),
        Date::new(2026, 8, 16).unwrap(),
        Date::new(2100, 12, 31).unwrap(),
    ] {
        assert_eq!(date_from_unix_days(days_from_civil(date)), date, "the two conversions must agree by construction");
    }
}

#[test]
fn the_epoch_is_timestamp_zero() {
    assert_eq!(unix_timestamp(Date::new(1970, 1, 1).unwrap()), 0);
}

#[test]
fn a_timestamp_lands_on_midnight() {
    let timestamp = unix_timestamp(Date::new(2026, 8, 16).unwrap());

    assert_eq!(timestamp % 86_400, 0, "a date carries no time of day, so it must not invent one");
}

#[test]
fn days_before_the_epoch_count_backwards() {
    assert_eq!(date_from_unix_days(-1), Date::new(1969, 12, 31).unwrap());
    assert_eq!(days_from_civil(Date::new(1969, 12, 31).unwrap()), -1);
    assert_eq!(days_from_civil(Date::new(-1, 3, 1).unwrap()), -719_834);
    assert_eq!(date_from_unix_days(-719_834), Date::new(-1, 3, 1).unwrap());
}

#[test]
fn every_day_of_four_centuries_converts_back_to_itself() {
    let mut day = days_from_civil(Date::new(1800, 1, 1).unwrap());
    let end = days_from_civil(Date::new(2200, 1, 1).unwrap());
    while day < end {
        assert_eq!(days_from_civil(date_from_unix_days(day)), day);
        day += 1;
    }
}

#[test]
fn the_earliest_day_count_is_dated_without_failing() {
    let date = date_from_unix_days(i64::MIN);
    assert_eq!(date.year, 0, "a year beyond what a date holds is reported as year zero");
    assert!((1..=12).contains(&date.month));
    assert!((1..=31).contains(&date.day));
}
