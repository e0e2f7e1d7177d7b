use jiff::civil::date;
use pywr_core::recorders::aggregator::{AggregationFrequency, PeriodValue};
use pywr_core::timestep::{CivilDateTime, PywrDuration, TimeDomainBuilder, TimestepDuration};

fn at(y: i16, m: i8, d: i8, h: i8) -> CivilDateTime {
    let dt = date(y, m, d).at(h, 0, 0, 0);
    CivilDateTime::new(dt.year(), dt.month(), dt.day(), dt.hour(), dt.minute(), dt.second(), dt.subsec_nanosecond())
        .unwrap()
}

#[test]
fn dates_fall_in_their_periods() {
    let start = at(2023, 1, 30, 0);
    assert_eq!(AggregationFrequency::Monthly.is_date_in_period(&start, &at(2023, 1, 1, 0)), Some(true));
    assert_eq!(AggregationFrequency::Monthly.is_date_in_period(&start, &at(2023, 2, 1, 0)), Some(false));
    assert_eq!(AggregationFrequency::Monthly.is_date_in_period(&start, &at(2024, 1, 30, 0)), Some(false));
    assert_eq!(AggregationFrequency::Annual.is_date_in_period(&start, &at(2023, 12, 31, 0)), Some(true));
    assert_eq!(AggregationFrequency::Annual.is_date_in_period(&start, &at(2024, 1, 1, 0)), Some(false));
    let days = AggregationFrequency::Days(3);
    assert_eq!(days.is_date_in_period(&start, &at(2023, 1, 30, 0)), Some(true));
    assert_eq!(days.is_date_in_period(&start, &at(2023, 2, 1, 23)), Some(true));
    assert_eq!(days.is_date_in_period(&start, &at(2023, 2, 2, 0)), Some(false));
    assert_eq!(days.is_date_in_period(&start, &at(2023, 1, 29, 0)), Some(false));
    assert_eq!(AggregationFrequency::Days(8_000_000).is_date_in_period(&start, &start), None);
}

#[test]
fn next_periods_start_on_their_first_day() {
    assert_eq!(AggregationFrequency::Monthly.start_of_next_period(&at(2023, 1, 31, 12)), Some(at(2023, 2, 1, 0)));
    assert_eq!(AggregationFrequency::Monthly.start_of_next_period(&at(2023, 12, 5, 3)), Some(at(2024, 1, 1, 0)));
    assert_eq!(AggregationFrequency::Annual.start_of_next_period(&at(2023, 6, 5, 3)), Some(at(2024, 1, 1, 0)));
    assert_eq!(AggregationFrequency::Days(10).start_of_next_period(&at(2024, 2, 25, 3)), Some(at(2024, 3, 6, 3)));
    assert_eq!(AggregationFrequency::Annual.start_of_next_period(&at(9999, 6, 5, 3)), None);
    assert_eq!(AggregationFrequency::Monthly.start_of_next_period(&at(9999, 12, 5, 3)), None);
}

#[test]
fn values_split_at_period_boundaries() {
    let value = PeriodValue::new(at(2023, 1, 30, 0), PywrDuration::from_days(3), 2.5f64);
    assert_eq!(value.end(), Some(at(2023, 2, 2, 0)));
    let pieces = AggregationFrequency::Monthly.split_value_into_periods(value).unwrap();
    assert_eq!(pieces.len(), 2);
    assert_eq!(pieces[0].start, at(2023, 1, 30, 0));
    assert_eq!(pieces[0].duration, PywrDuration::from_days(2));
    assert_eq!(pieces[1].start, at(2023, 2, 1, 0));
    assert_eq!(pieces[1].duration, PywrDuration::from_days(1));
    assert!(pieces.iter().all(|p| p.value == 2.5));

    let within = PeriodValue::new(at(2023, 3, 3, 0), PywrDuration::from_hours(5), 1u32);
    let pieces = AggregationFrequency::Annual.split_value_into_periods(within).unwrap();
    assert_eq!(pieces.len(), 1);
    assert_eq!(pieces[0].duration, PywrDuration::from_hours(5));

    let empty = PeriodValue::new(at(2023, 3, 3, 0), PywrDuration::from_hours(0), 1u32);
    assert!(AggregationFrequency::Annual.split_value_into_periods(empty).unwrap().is_empty());

    let weekly = PeriodValue::new(at(2023, 1, 1, 0), PywrDuration::from_days(10), 7i64);
    let pieces = AggregationFrequency::Days(4).split_value_into_periods(weekly).unwrap();
    let durations: Vec<PywrDuration> = pieces.iter().map(|p| p.duration).collect();
    assert_eq!(durations, vec![PywrDuration::from_days(4), PywrDuration::from_days(4), PywrDuration::from_days(2)]);

    let backwards = PeriodValue::new(at(2023, 1, 1, 0), PywrDuration::from_days(10), 7i64);
    assert!(AggregationFrequency::Days(-1).split_value_into_periods(backwards).is_none());
}

#[test]
fn period_values_gather_and_index() {
    let values = [
        PeriodValue::new(at(2023, 1, 1, 0), PywrDuration::from_days(1), 1.0f64),
        PeriodValue::new(at(2023, 1, 2, 0), PywrDuration::from_days(2), 2.0f64),
    ];
    let gathered = PeriodValue::from_values(&values);
    assert_eq!(gathered.start, at(2023, 1, 1, 0));
    assert_eq!(gathered.duration, PywrDuration::from_days(2));
    assert_eq!(gathered.value, vec![1.0, 2.0]);
    assert_eq!(gathered.len(), 2);
    assert!(!gathered.is_empty());
    let second = gathered.index(1);
    assert_eq!(second.value, 2.0);
    assert_eq!(second.start, at(2023, 1, 1, 0));
}

#[test]
fn domains_count_their_periods() {
    let domain = TimeDomainBuilder::new(at(2021, 1, 1, 0), at(2021, 3, 31, 0), TimestepDuration::Days(1))
        .build()
        .unwrap();
    assert_eq!(AggregationFrequency::Monthly.number_of_periods(&domain), 2);
    assert_eq!(AggregationFrequency::Annual.number_of_periods(&domain), 0);
    assert_eq!(AggregationFrequency::Days(7).number_of_periods(&domain), 12);
    let years = TimeDomainBuilder::new(at(2020, 6, 1, 0), at(2023, 2, 1, 0), TimestepDuration::Frequency("1mo".into()))
        .build()
        .unwrap();
    assert_eq!(AggregationFrequency::Monthly.number_of_periods(&years), 32);
    assert_eq!(AggregationFrequency::Annual.number_of_periods(&years), 3);
}
