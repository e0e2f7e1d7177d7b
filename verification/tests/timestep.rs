use jiff::civil::{date, DateTime};
use pywr_core::timestep::{
    CivilDateTime, PywrDuration, TimeDomainBuilder, TimeDomainBuilderError, Timestep, TimestepDuration,
};

/// The library's datetime of a `jiff` datetime.
fn civil(dt: DateTime) -> CivilDateTime {
    CivilDateTime::new(
        dt.year(),
        dt.month(),
        dt.day(),
        dt.hour(),
        dt.minute(),
        dt.second(),
        dt.subsec_nanosecond(),
    )
    .unwrap()
}

fn parse(text: &str) -> CivilDateTime {
    civil(text.parse().unwrap())
}

#[test]
fn test_days() {
    let start = parse("2021-01-01 00:00:00");
    let end = parse("2021-01-10 00:00:00");
    let timestep = TimestepDuration::Days(1);

    let timestepper = TimeDomainBuilder::new(start, end, timestep);
    let timesteps = timestepper.timesteps().unwrap();
    assert_eq!(timesteps.len(), 10);
    assert_eq!(timesteps.first().unwrap().duration, PywrDuration::from_days(1));
    assert_eq!(timesteps.last().unwrap().duration, PywrDuration::from_days(1));

    let timestep = TimestepDuration::Frequency(String::from("1d"));

    let timestepper = TimeDomainBuilder::new(start, end, timestep);
    let timesteps = timestepper.timesteps().unwrap();
    println!("Timesteps: {:?}", timesteps);
    assert_eq!(timesteps.len(), 10);
    assert_eq!(timesteps.first().unwrap().duration, PywrDuration::from_days(1));
    assert_eq!(timesteps.last().unwrap().duration, PywrDuration::from_days(1));
}

#[test]
fn test_weeks() {
    let start = parse("2021-01-01 00:00:00");
    let end = parse("2021-01-22 00:00:00");
    let timestep = TimestepDuration::Frequency(String::from("1w"));

    let timestepper = TimeDomainBuilder::new(start, end, timestep);
    let timesteps = timestepper.timesteps().unwrap();

    assert_eq!(timesteps.len(), 4);
    assert_eq!(timesteps.first().unwrap().duration, PywrDuration::from_days(7));
    assert_eq!(timesteps.last().unwrap().duration, PywrDuration::from_days(7));
}

#[test]
fn test_months() {
    let start = parse("2021-01-01 00:00:00");
    let end = parse("2021-04-01 00:00:00");
    let timestep = TimestepDuration::Frequency(String::from("1mo"));

    let timestepper = TimeDomainBuilder::new(start, end, timestep);
    let timesteps = timestepper.timesteps().unwrap();
    assert_eq!(timesteps.len(), 4);
    assert_eq!(timesteps[0].duration, PywrDuration::from_days(31));
    assert_eq!(timesteps[1].duration, PywrDuration::from_days(28));
    assert_eq!(timesteps[2].duration, PywrDuration::from_days(31));
    assert_eq!(timesteps[3].duration, PywrDuration::from_days(30));
}

#[test]
fn test_month_ends() {
    let start = parse("2021-01-31 00:00:00");
    let end = parse("2021-04-30 00:00:00");
    let timestep = TimestepDuration::Frequency(String::from("1mo"));

    let timestepper = TimeDomainBuilder::new(start, end, timestep);
    let timesteps = timestepper.timesteps().unwrap();
    assert_eq!(timesteps.len(), 4);
    assert_eq!(timesteps[0].duration, PywrDuration::from_days(28));
    assert_eq!(timesteps[0].date, civil(date(2021, 1, 31).at(0, 0, 0, 0)));
    assert_eq!(timesteps[1].duration, PywrDuration::from_days(31));
    assert_eq!(timesteps[1].date, civil(date(2021, 2, 28).at(0, 0, 0, 0)));
    assert_eq!(timesteps[2].duration, PywrDuration::from_days(30));
    assert_eq!(timesteps[2].date, civil(date(2021, 3, 31).at(0, 0, 0, 0)));
    assert_eq!(timesteps[3].duration, PywrDuration::from_days(31));
    assert_eq!(timesteps[3].date, civil(date(2021, 4, 30).at(0, 0, 0, 0)));
}

#[test]
fn test_hours() {
    let start = parse("2021-01-01 12:00:00");
    let end = parse("2021-01-01 16:00:00");
    let timestep = TimestepDuration::Frequency(String::from("1h"));

    let timestepper = TimeDomainBuilder::new(start, end, timestep);
    let timesteps = timestepper.timesteps().unwrap();
    assert_eq!(timesteps.len(), 5);
    assert_eq!(timesteps.first().unwrap().duration, PywrDuration::from_hours(1));
    assert_eq!(timesteps.last().unwrap().duration, PywrDuration::from_hours(1));
}

const SECS_IN_DAY: i64 = 86_400;

/// The fractional number of days in a duration, as the floating-point helpers compute it.
fn fractional_days(duration: &PywrDuration) -> f64 {
    (duration.seconds() as f64 + duration.subsec_nanoseconds() as f64 / 1e9) / SECS_IN_DAY as f64
}

/// The whole number of days in a duration, if it is one.
fn whole_days(duration: &PywrDuration) -> Option<i64> {
    let days = fractional_days(duration);
    if days.fract() == 0.0 { Some(days as i64) } else { None }
}

#[test]
fn test_pywr_duration() {
    let duration = PywrDuration::from_days(5);
    assert_eq!(whole_days(&duration), Some(5));
    assert_eq!(fractional_days(&duration), 5.0);
    assert_eq!(duration.duration_string(), String::from("5d"));

    let duration = PywrDuration::from_hours(12);
    assert_eq!(whole_days(&duration), None);
    assert_eq!(fractional_days(&duration), 0.5);
    assert_eq!(duration.duration_string(), String::from("12h"));

    let duration = PywrDuration::from_minutes(30);
    assert_eq!(whole_days(&duration), None);
    assert_eq!(fractional_days(&duration), 1.0 / 48.0);
    assert_eq!(duration.duration_string(), String::from("30m"));

    let duration_secs = SECS_IN_DAY + 1;
    let duration = PywrDuration::from_seconds(duration_secs);
    assert_eq!(whole_days(&duration), None);
    assert_eq!(fractional_days(&duration), duration_secs as f64 / SECS_IN_DAY as f64);
    assert_eq!(duration.duration_string(), String::from("1d1s"));

    let duration_secs = SECS_IN_DAY - 1;
    let duration = PywrDuration::from_seconds(duration_secs);
    assert_eq!(whole_days(&duration), None);
    assert_eq!(fractional_days(&duration), duration_secs as f64 / SECS_IN_DAY as f64);
    assert_eq!(duration.duration_string(), String::from("23h59m59s"));
}

#[test]
fn duration_strings_name_each_unit() {
    assert_eq!(PywrDuration::from_days(5).duration_string(), String::from("5d"));
    assert_eq!(PywrDuration::from_hours(12).duration_string(), String::from("12h"));
    assert_eq!(PywrDuration::from_minutes(30).duration_string(), String::from("30m"));
    assert_eq!(PywrDuration::from_seconds(86_400 + 1).duration_string(), String::from("1d1s"));
    assert_eq!(PywrDuration::from_seconds(86_400 - 1).duration_string(), String::from("23h59m59s"));
    assert_eq!(PywrDuration::from_seconds(0).duration_string(), String::new());
    assert_eq!(PywrDuration::from_seconds(-60).duration_string(), String::new());
}

#[test]
fn durations_count_their_milliseconds() {
    assert_eq!(PywrDuration::from_days(1).milliseconds(), 86_400_000);
    assert_eq!(PywrDuration::from_hours(-2).milliseconds(), -7_200_000);
    assert_eq!(PywrDuration::from_minutes(3).milliseconds(), 180_000);
    assert!(PywrDuration::from_seconds(1).is_positive());
    assert!(!PywrDuration::from_seconds(0).is_positive());
    assert!(!PywrDuration::from_seconds(-1).is_positive());
}

#[test]
fn days_of_the_year_count_a_leap_day() {
    let leap = Timestep::new(civil(date(2024, 3, 1).at(0, 0, 0, 0)), 0, PywrDuration::from_days(1));
    assert!(leap.is_first());
    assert!(leap.is_leap_year());
    assert_eq!(leap.day_of_year(), 61);
    assert_eq!(leap.day_of_year_index(), 60);
    let common = Timestep::new(civil(date(2023, 3, 1).at(0, 0, 0, 0)), 3, PywrDuration::from_days(1));
    assert!(!common.is_first());
    assert!(!common.is_leap_year());
    assert_eq!(common.day_of_year(), 60);
    assert_eq!(common.day_of_year_index(), 60);
    let february = Timestep::new(civil(date(2023, 2, 28).at(0, 0, 0, 0)), 3, PywrDuration::from_days(1));
    assert_eq!(february.day_of_year_index(), 58);
    let last = Timestep::new(civil(date(2023, 12, 31).at(23, 0, 0, 0)), 3, PywrDuration::from_days(1));
    assert_eq!(last.day_of_year(), 365);
    assert_eq!(last.day_of_year_index(), 365);
    let next = last.next(PywrDuration::from_hours(2)).unwrap();
    assert_eq!(next.date, civil(date(2024, 1, 1).at(1, 0, 0, 0)));
    assert_eq!(next.index, 4);
}

#[test]
fn datetimes_are_checked_and_ordered() {
    assert!(CivilDateTime::new(2023, 2, 29, 0, 0, 0, 0).is_none());
    assert!(CivilDateTime::new(2024, 2, 29, 0, 0, 0, 0).is_some());
    assert!(CivilDateTime::new(2024, 13, 1, 0, 0, 0, 0).is_none());
    assert!(CivilDateTime::new(2024, 1, 1, 24, 0, 0, 0).is_none());
    assert!(CivilDateTime::new(10000, 1, 1, 0, 0, 0, 0).is_none());
    let a = civil(date(2024, 1, 31).at(23, 59, 59, 999_999_999));
    let b = civil(date(2024, 2, 1).at(0, 0, 0, 0));
    assert!(a.lt(&b));
    assert!(a.le(&b));
    assert!(!b.le(&a));
    assert!(a.le(&a));
    assert!(!a.lt(&a));
    assert_eq!(b.month(), 2);
    assert_eq!(a.subsec_nanosecond(), 999_999_999);
}

#[test]
fn domains_need_a_timestep_and_a_positive_duration() {
    let start = parse("2021-01-10 00:00:00");
    let end = parse("2021-01-01 00:00:00");
    let backwards = TimeDomainBuilder::new(start, end, TimestepDuration::Days(1));
    assert!(matches!(backwards.build(), Err(TimeDomainBuilderError::NoTimesteps)));
    assert!(backwards.timesteps().unwrap().is_empty());

    let zero = TimeDomainBuilder::new(end, start, TimestepDuration::Hours(0));
    assert!(matches!(zero.build(), Err(TimeDomainBuilderError::NonPositiveTimestepDuration)));

    let negative = TimeDomainBuilder::new(end, start, TimestepDuration::Frequency(String::from("-1d")));
    assert!(matches!(negative.build(), Err(TimeDomainBuilderError::NonPositiveTimestepDuration)));

    let unparsable = TimeDomainBuilder::new(end, start, TimestepDuration::Frequency(String::from("fortnightly")));
    assert!(matches!(unparsable.build(), Err(TimeDomainBuilderError::FrequencyParseError { .. })));

    let huge = TimeDomainBuilder::new(end, start, TimestepDuration::Days(u64::MAX));
    assert!(matches!(huge.build(), Err(TimeDomainBuilderError::OutOfRange)));

    let near_the_end = TimeDomainBuilder::new(
        parse("9999-12-30 00:00:00"),
        parse("9999-12-31 00:00:00"),
        TimestepDuration::Days(1),
    );
    assert!(matches!(near_the_end.build(), Err(TimeDomainBuilderError::OutOfRange)));
}

#[test]
fn domains_report_their_timesteps() {
    let start = parse("2021-01-01 00:00:00");
    let end = parse("2021-01-03 00:00:00");
    let domain = TimeDomainBuilder::new(start, end, TimestepDuration::Hours(24)).build().unwrap();
    assert_eq!(domain.len(), 3);
    assert!(!domain.is_empty());
    assert_eq!(domain.first_timestep().date, start);
    assert_eq!(domain.last_timestep().date, end);
    assert_eq!(domain.last_timestep().index, 2);
    assert_eq!(domain.fixed_step_duration(), Some(PywrDuration::from_days(1)));
    assert_eq!(domain.timesteps().len(), 3);

    let months = TimeDomainBuilder::new(start, parse("2021-03-01 00:00:00"), TimestepDuration::Frequency("1mo".into()))
        .build()
        .unwrap();
    assert_eq!(months.len(), 3);
    assert_eq!(months.fixed_step_duration(), None);
}
