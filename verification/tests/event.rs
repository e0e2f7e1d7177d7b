use pywr_core::recorders::event::{Event, EventAggregatorState};
use pywr_core::timestep::{CivilDateTime, PywrDuration};

fn midnight(y: i16, m: i8, d: i8) -> CivilDateTime {
    CivilDateTime::new(y, m, d, 0, 0, 0, 0).unwrap()
}

/// The condition of an aggregator that looks for values above a threshold.
fn greater_than(value: f64, threshold: f64) -> bool {
    value > threshold
}

/// The condition of an aggregator that looks for values below a threshold.
fn less_than(value: f64, threshold: f64) -> bool {
    value < threshold
}

#[test]
fn test_event_aggregator() {
    let threshold = 1.0;
    let mut state = EventAggregatorState::default();

    let start = midnight(2023, 1, 30);
    let agg_value = state.process_activity(greater_than(3.0, threshold), start);
    assert!(agg_value.is_none());

    let start = midnight(2023, 1, 31);
    let agg_value = state.process_activity(greater_than(3.0, threshold), start);
    assert!(agg_value.is_none());

    let start = midnight(2023, 2, 1);
    let agg_value = state.process_activity(greater_than(1.0, threshold), start);
    assert!(agg_value.is_some());

    let start = midnight(2023, 2, 2);
    let agg_value = state.process_activity(greater_than(1.0, threshold), start);
    assert!(agg_value.is_none());
}

#[test]
fn test_event_aggregator_less_than() {
    let threshold = 2.0;
    let mut state = EventAggregatorState::default();

    let start = midnight(2023, 3, 1);
    let v1 = state.process_activity(less_than(1.5, threshold), start);
    assert!(v1.is_none());

    let start2 = midnight(2023, 3, 2);
    let v2 = state.process_activity(less_than(2.5, threshold), start2);
    assert!(v2.is_some());
    let event = v2.unwrap();
    assert_eq!(event.start, start);
    assert_eq!(event.end, Some(start2));
}

#[test]
fn test_multiple_events() {
    let threshold = 5.0;
    let mut state = EventAggregatorState::default();

    let dates: Vec<CivilDateTime> = (0..6).map(|i| midnight(2023, 4, 1 + i)).collect();

    // Start event
    assert!(state.process_activity(greater_than(6.0, threshold), dates[0]).is_none());
    // Continue event
    assert!(state.process_activity(greater_than(7.0, threshold), dates[1]).is_none());
    // End event
    let ev1 = state.process_activity(greater_than(4.0, threshold), dates[2]);
    assert!(ev1.is_some());
    assert_eq!(ev1.unwrap().start, dates[0]);
    assert_eq!(ev1.unwrap().end, Some(dates[2]));

    // Start new event
    assert!(state.process_activity(greater_than(8.0, threshold), dates[3]).is_none());
    // End new event
    let ev2 = state.process_activity(greater_than(2.0, threshold), dates[4]);
    assert!(ev2.is_some());
    assert_eq!(ev2.unwrap().start, dates[3]);
    assert_eq!(ev2.unwrap().end, Some(dates[4]));

    // No event
    assert!(state.process_activity(greater_than(1.0, threshold), dates[5]).is_none());
}

#[test]
fn test_no_event_triggered() {
    let threshold = 10.0;
    let mut state = EventAggregatorState::default();

    for i in 0..5 {
        let start = midnight(2023, 5, 1 + i);
        let v = state.process_activity(greater_than(5.0, threshold), start);
        assert!(v.is_none());
    }
}

#[test]
fn test_event_starts_but_never_ends() {
    let threshold = 2.0;
    let mut state = EventAggregatorState::default();

    let start = midnight(2023, 6, 1);
    assert!(state.process_activity(greater_than(3.0, threshold), start).is_none());

    let start2 = midnight(2023, 6, 2);
    assert!(state.process_activity(greater_than(4.0, threshold), start2).is_none());
}

#[test]
fn an_event_lasts_from_its_start_to_its_end() {
    let event = Event { start: midnight(2023, 1, 30), end: Some(midnight(2023, 2, 1)) };
    assert_eq!(event.duration(), Some(PywrDuration::from_days(2)));
    let open = Event { start: midnight(2023, 1, 30), end: None };
    assert_eq!(open.duration(), None);
    let hours = Event {
        start: midnight(2023, 1, 30),
        end: Some(CivilDateTime::new(2023, 1, 30, 6, 30, 0, 0).unwrap()),
    };
    assert_eq!(hours.duration().unwrap().seconds(), 6 * 3600 + 30 * 60);
}

#[test]
fn an_event_runs_from_the_first_active_period_of_its_run() {
    // Law: an event under way started at the first period of the trailing run of active
    // periods, and is reported once the condition stops holding.
    let mut state = EventAggregatorState::default();
    let flags = [false, true, false, true, true, true, false];
    let mut events = Vec::new();
    for (i, active) in flags.iter().enumerate() {
        if let Some(e) = state.process_activity(*active, midnight(2023, 7, 1 + i as i8)) {
            events.push(e);
        }
    }
    assert_eq!(events.len(), 2);
    assert_eq!(events[0].start, midnight(2023, 7, 2));
    assert_eq!(events[0].end, Some(midnight(2023, 7, 3)));
    assert_eq!(events[1].start, midnight(2023, 7, 4));
    assert_eq!(events[1].end, Some(midnight(2023, 7, 7)));
}
