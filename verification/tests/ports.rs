use adocpdf::ports::{Clock, Date, FixedClock, InvalidDate, SystemClock};

#[test]
fn an_ordinary_date_is_accepted() {
    let date = Date::new(2026, 8, 16).unwrap();

    assert_eq!((date.year, date.month, date.day), (2026, 8, 16));
}

#[test]
fn a_month_outside_the_year_is_rejected() {
    assert_eq!(Date::new(2026, 0, 1), Err(InvalidDate::Month { month: 0 }));
    assert_eq!(Date::new(2026, 13, 1), Err(InvalidDate::Month { month: 13 }));
}

#[test]
fn a_day_outside_the_month_is_rejected() {
    assert_eq!(Date::new(2026, 1, 0), Err(InvalidDate::Day { day: 0 }));
    assert_eq!(Date::new(2026, 1, 32), Err(InvalidDate::Day { day: 32 }));
}

#[test]
fn a_rejected_date_says_what_was_wrong() {
    assert!(Date::new(2026, 13, 1).unwrap_err().message().contains("13"));
    assert_eq!(
        InvalidDate::Day { day: 40 }.message(),
        "day must be between 1 and 31, got 40"
    );
}

#[test]
fn a_fixed_clock_reports_the_same_date_every_time() {
    let date = Date::new(2026, 8, 16).unwrap();
    let clock = FixedClock::new(date);

    assert_eq!(clock.today(), date);
    assert_eq!(clock.today(), date);
    assert_eq!(clock.today(), date);
}

#[test]
fn the_system_clock_reports_a_plausible_date() {
    let today = SystemClock::new().today();

    assert!(today.year >= 2024, "the host clock should be somewhere in this century, got {today:?}");
    assert!((1..=12).contains(&today.month));
    assert!((1..=31).contains(&today.day));
}

#[test]
fn seconds_are_read_as_the_day_they_fall_on() {
    assert_eq!(adocpdf::ports::date_of_seconds(0), Date::new(1970, 1, 1).unwrap());
    assert_eq!(adocpdf::ports::date_of_seconds(86_399), Date::new(1970, 1, 1).unwrap());
    assert_eq!(adocpdf::ports::date_of_seconds(86_400), Date::new(1970, 1, 2).unwrap());
}
