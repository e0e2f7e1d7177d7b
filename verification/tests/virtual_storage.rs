use chrono::{Datelike, NaiveDate, NaiveDateTime, Timelike};
use pywr_core::timestep::{CivilDateTime, PywrDuration, Timestep};
use pywr_core::virtual_storage::{Month, VirtualStorageActivePeriod, VirtualStorageReset, months_since_last_reset};

/// The library's datetime of a chrono datetime.
fn datetime(dt: NaiveDateTime) -> CivilDateTime {
    CivilDateTime::new(
        dt.year() as i16,
        dt.month() as i8,
        dt.day() as i8,
        dt.hour() as i8,
        dt.minute() as i8,
        dt.second() as i8,
        dt.nanosecond() as i32,
    )
    .unwrap()
}

/// The library's datetime of the start of a chrono date.
fn date(d: NaiveDate) -> CivilDateTime {
    datetime(d.and_hms_opt(0, 0, 0).unwrap())
}

#[test]
fn test_months_since_last_reset() {
    let current = NaiveDate::from_ymd_opt(2022, 12, 31)
        .unwrap()
        .and_hms_opt(0, 0, 0)
        .unwrap();
    let last_reset = NaiveDate::from_ymd_opt(2022, 12, 31)
        .unwrap()
        .and_hms_opt(0, 0, 0)
        .unwrap();
    assert_eq!(months_since_last_reset(&datetime(current), &datetime(last_reset)), 0);

    let current = NaiveDate::from_ymd_opt(2023, 12, 31)
        .unwrap()
        .and_hms_opt(0, 0, 0)
        .unwrap();
    let last_reset = NaiveDate::from_ymd_opt(2022, 12, 31)
        .unwrap()
        .and_hms_opt(0, 0, 0)
        .unwrap();
    assert_eq!(months_since_last_reset(&datetime(current), &datetime(last_reset)), 12);

    let current = NaiveDate::from_ymd_opt(2023, 1, 1)
        .unwrap()
        .and_hms_opt(0, 0, 0)
        .unwrap();
    let last_reset = NaiveDate::from_ymd_opt(2022, 12, 31)
        .unwrap()
        .and_hms_opt(0, 0, 0)
        .unwrap();
    assert_eq!(months_since_last_reset(&datetime(current), &datetime(last_reset)), 1);

    let current = NaiveDate::from_ymd_opt(2022, 12, 1)
        .unwrap()
        .and_hms_opt(0, 0, 0)
        .unwrap();
    let last_reset = NaiveDate::from_ymd_opt(2022, 12, 31)
        .unwrap()
        .and_hms_opt(0, 0, 0)
        .unwrap();
    assert_eq!(months_since_last_reset(&datetime(current), &datetime(last_reset)), 0);
}

#[test]
/// Test virtual storage active period
fn test_virtual_storage_node_active_period() {
    let period = VirtualStorageActivePeriod::Period {
        start_day: 15,
        start_month: Month::March,
        end_day: 15,
        end_month: Month::September,
    };

    // Dates inside the period
    assert!(period.is_active(&date(NaiveDate::from_ymd_opt(2016, 3, 15).unwrap())));
    assert!(period.is_active(&date(NaiveDate::from_ymd_opt(2016, 7, 8).unwrap())));
    assert!(period.is_active(&date(NaiveDate::from_ymd_opt(2016, 9, 15).unwrap())));

    // Dates outside the period
    assert!(!period.is_active(&date(NaiveDate::from_ymd_opt(2016, 3, 14).unwrap())));
    assert!(!period.is_active(&date(NaiveDate::from_ymd_opt(2016, 9, 16).unwrap())));
    assert!(!period.is_active(&date(NaiveDate::from_ymd_opt(2016, 12, 31).unwrap())));
}

#[test]
fn test_virtual_storage_node_active_period_wrap() {
    let period = VirtualStorageActivePeriod::Period {
        start_day: 15,
        start_month: Month::September,
        end_day: 15,
        end_month: Month::March,
    };

    // Dates inside the period
    assert!(period.is_active(&date(NaiveDate::from_ymd_opt(2016, 9, 15).unwrap())));
    assert!(period.is_active(&date(NaiveDate::from_ymd_opt(2016, 12, 31).unwrap())));
    assert!(period.is_active(&date(NaiveDate::from_ymd_opt(2017, 1, 1).unwrap())));
    assert!(period.is_active(&date(NaiveDate::from_ymd_opt(2017, 3, 15).unwrap())));

    // Dates outside the period
    assert!(!period.is_active(&date(NaiveDate::from_ymd_opt(2016, 9, 14).unwrap())));
    assert!(!period.is_active(&date(NaiveDate::from_ymd_opt(2016, 3, 16).unwrap())));
    assert!(!period.is_active(&date(NaiveDate::from_ymd_opt(2016, 6, 1).unwrap())));
}

#[test]
fn test_virtual_storage_node_active_period_same_month() {
    let period = VirtualStorageActivePeriod::Period {
        start_day: 10,
        start_month: Month::June,
        end_day: 20,
        end_month: Month::June,
    };

    // Dates inside the period
    assert!(period.is_active(&date(NaiveDate::from_ymd_opt(2016, 6, 10).unwrap())));
    assert!(period.is_active(&date(NaiveDate::from_ymd_opt(2016, 6, 15).unwrap())));
    assert!(period.is_active(&date(NaiveDate::from_ymd_opt(2016, 6, 20).unwrap())));

    // Dates outside the period
    assert!(!period.is_active(&date(NaiveDate::from_ymd_opt(2016, 6, 9).unwrap())));
    assert!(!period.is_active(&date(NaiveDate::from_ymd_opt(2016, 6, 21).unwrap())));
    assert!(!period.is_active(&date(NaiveDate::from_ymd_opt(2016, 5, 31).unwrap())));
    assert!(!period.is_active(&date(NaiveDate::from_ymd_opt(2016, 7, 1).unwrap())));
}

#[test]
fn test_virtual_storage_node_active_period_same_month_wrap() {
    let period = VirtualStorageActivePeriod::Period {
        start_day: 20,
        start_month: Month::June,
        end_day: 10,
        end_month: Month::June,
    };

    // Dates inside the period
    assert!(period.is_active(&date(NaiveDate::from_ymd_opt(2016, 6, 20).unwrap())));
    assert!(period.is_active(&date(NaiveDate::from_ymd_opt(2016, 6, 25).unwrap())));
    assert!(period.is_active(&date(NaiveDate::from_ymd_opt(2016, 6, 30).unwrap())));
    assert!(period.is_active(&date(NaiveDate::from_ymd_opt(2016, 6, 1).unwrap())));
    assert!(period.is_active(&date(NaiveDate::from_ymd_opt(2016, 6, 5).unwrap())));
    assert!(period.is_active(&date(NaiveDate::from_ymd_opt(2016, 6, 10).unwrap())));
    assert!(period.is_active(&date(NaiveDate::from_ymd_opt(2016, 5, 31).unwrap())));
    assert!(period.is_active(&date(NaiveDate::from_ymd_opt(2016, 7, 1).unwrap())));

    // Dates outside the period
    assert!(!period.is_active(&date(NaiveDate::from_ymd_opt(2016, 6, 19).unwrap())));
    assert!(!period.is_active(&date(NaiveDate::from_ymd_opt(2016, 6, 11).unwrap())));
}

#[test]
fn resets_follow_their_rule() {
    let step = |y, m, d, index| Timestep::new(date(NaiveDate::from_ymd_opt(y, m, d).unwrap()), index, PywrDuration::from_days(1));
    let never = VirtualStorageReset::Never;
    assert!(never.is_due(&step(2020, 5, 1, 0), true, None));
    assert!(never.is_due(&step(2020, 5, 1, 3), false, None));
    assert!(!never.is_due(&step(2020, 5, 1, 3), true, None));
    let yearly = VirtualStorageReset::DayOfYear { day: 1, month: Month::April };
    assert!(yearly.is_due(&step(2020, 4, 1, 9), true, None));
    assert!(!yearly.is_due(&step(2020, 4, 2, 9), true, None));
    let quarterly = VirtualStorageReset::NumberOfMonths { months: 3 };
    let last = date(NaiveDate::from_ymd_opt(2020, 1, 31).unwrap());
    assert!(quarterly.is_due(&step(2020, 4, 1, 9), true, Some(&last)));
    assert!(!quarterly.is_due(&step(2020, 3, 31, 9), true, Some(&last)));
    assert!(quarterly.is_due(&step(2020, 3, 31, 9), true, None));
}

#[test]
fn a_period_is_active_on_its_ends() {
    for (sd, sm, ed, em) in [(15, Month::March, 15, Month::September), (15, Month::September, 15, Month::March), (20, Month::June, 10, Month::June)] {
        let period = VirtualStorageActivePeriod::Period { start_day: sd, start_month: sm, end_day: ed, end_month: em };
        assert!(period.is_active_on(sm.number_from_month(), sd));
        assert!(period.is_active_on(em.number_from_month(), ed));
    }
    assert!(VirtualStorageActivePeriod::Always.is_active(&date(NaiveDate::from_ymd_opt(2021, 2, 3).unwrap())));
}
