use jiff::civil::date;
use pywr_core::recorders::aggregator::{AggregationFrequency, PeriodValue};
use pywr_core::recorders::periodic::{ClosedPeriod, PeriodicAggregatorState};
use pywr_core::timestep::{CivilDateTime, PywrDuration};

fn at(y: i16, m: i8, d: i8, h: i8) -> CivilDateTime {
    let dt = date(y, m, d).at(h, 0, 0, 0);
    CivilDateTime::new(dt.year(), dt.month(), dt.day(), dt.hour(), dt.minute(), dt.second(), dt.subsec_nanosecond())
        .unwrap()
}

/// The sum of a closed period's values, each weighted by its duration in days, as the sum
/// aggregation computes it.
fn sum(period: &ClosedPeriod<f64>) -> Option<f64> {
    if period.values.is_empty() {
        return None;
    }
    Some(period.values.iter().map(|v| v.value * v.duration.seconds() as f64 / 86_400.0).sum())
}

/// A monthly sum aggregator fed one value: the aggregated value of the period it closes.
fn monthly_sum(state: &mut PeriodicAggregatorState<f64>, value: PeriodValue<f64>) -> Option<f64> {
    let closed = state
        .process_split_value(value, &AggregationFrequency::Monthly)
        .expect("the value is within the range of datetimes");
    assert!(closed.len() <= 1, "the value spans a single aggregation period");
    closed.first().and_then(sum)
}

fn daily(start: CivilDateTime, value: f64) -> PeriodValue<f64> {
    PeriodValue::new(start, PywrDuration::from_days(1), value)
}

#[test]
fn mod_test_periodic_aggregator() {
    let mut state = PeriodicAggregatorState::default();

    let agg_value = monthly_sum(&mut state, daily(at(2023, 1, 30, 0), 1.0));
    assert!(agg_value.is_none());

    let agg_value = monthly_sum(&mut state, daily(at(2023, 1, 31, 0), 1.0));
    assert!(agg_value.is_none());

    let agg_value = monthly_sum(&mut state, daily(at(2023, 2, 1, 0), 1.0));
    assert!(agg_value.is_some());

    let agg_value = monthly_sum(&mut state, daily(at(2023, 2, 2, 0), 1.0));
    assert!(agg_value.is_none());
}

#[test]
fn periodic_test_periodic_aggregator() {
    let mut state = PeriodicAggregatorState::default();
    let values = [(30, None), (31, None)];
    for (day, expected) in values {
        assert_eq!(monthly_sum(&mut state, daily(at(2023, 1, day, 0), 1.0)), expected);
    }
    // February's first value closes January, which summed two days of one.
    assert_eq!(monthly_sum(&mut state, daily(at(2023, 2, 1, 0), 1.0)), Some(2.0));
    assert_eq!(monthly_sum(&mut state, daily(at(2023, 2, 2, 0), 1.0)), None);
}

#[test]
fn aggregator_test_periodic_aggregator() {
    let mut state = PeriodicAggregatorState::default();
    assert!(monthly_sum(&mut state, daily(at(2023, 1, 30, 0), 1.0)).is_none());
    assert!(monthly_sum(&mut state, daily(at(2023, 1, 31, 0), 1.0)).is_none());
    assert!(monthly_sum(&mut state, daily(at(2023, 2, 1, 0), 1.0)).is_some());
    assert!(monthly_sum(&mut state, daily(at(2023, 2, 2, 0), 1.0)).is_none());
}

#[test]
fn a_closed_period_lasts_until_the_next_value() {
    let mut state = PeriodicAggregatorState::default();
    let freq = AggregationFrequency::Days(2);
    assert!(state.process_value(daily(at(2023, 3, 1, 0), 4.0), &freq).is_none());
    assert!(state.process_value(daily(at(2023, 3, 2, 0), 5.0), &freq).is_none());
    let closed = state.process_value(daily(at(2023, 3, 3, 0), 6.0), &freq).unwrap();
    assert_eq!(closed.start, at(2023, 3, 1, 0));
    assert_eq!(closed.duration, PywrDuration::from_days(2));
    assert_eq!(closed.values.len(), 2);
    assert_eq!(state.period_start(), Some(at(2023, 3, 3, 0)));

    let current = state.current_period().unwrap();
    assert_eq!(current.start, at(2023, 3, 3, 0));
    assert_eq!(current.duration, PywrDuration::from_days(0));
    assert_eq!(current.values[0].value, 6.0);
}

#[test]
fn a_value_across_a_boundary_is_split_between_periods() {
    let mut state = PeriodicAggregatorState::default();
    let freq = AggregationFrequency::Monthly;
    let value = PeriodValue::new(at(2023, 1, 30, 0), PywrDuration::from_days(4), 1.0);
    let closed = state.process_split_value(value, &freq).unwrap();
    // January's two days close when February's first piece arrives.
    assert_eq!(closed.len(), 1);
    assert_eq!(closed[0].start, at(2023, 1, 30, 0));
    assert_eq!(closed[0].values[0].duration, PywrDuration::from_days(2));
    assert_eq!(closed[0].duration, PywrDuration::from_days(2));
    let current = state.current_period().unwrap();
    assert_eq!(current.start, at(2023, 2, 1, 0));
    assert_eq!(current.values[0].duration, PywrDuration::from_days(2));
}

#[test]
fn values_without_a_frequency_share_one_period() {
    let mut state = PeriodicAggregatorState::default();
    assert!(state.current_period().is_none());
    for day in 1..=3 {
        state.process_value_no_period(daily(at(2023, 5, day, 0), day as f64));
    }
    let current = state.current_period().unwrap();
    assert_eq!(current.values.len(), 3);
    assert_eq!(current.duration, PywrDuration::from_days(2));
}

#[test]
fn periods_past_the_range_of_datetimes_are_refused() {
    let mut state = PeriodicAggregatorState::default();
    let freq = AggregationFrequency::Days(5);
    let late = daily(at(9999, 12, 20, 0), 1.0);
    assert!(state.process_split_value(late, &freq).is_some());
    // The period of the next value would end past the last datetime, so the value is
    // refused and the state kept.
    assert!(state.process_split_value(daily(at(9999, 12, 28, 0), 1.0), &freq).is_none());
    assert_eq!(state.current_period().unwrap().values.len(), 1);
    assert_eq!(state.period_start(), Some(at(9999, 12, 20, 0)));
}
