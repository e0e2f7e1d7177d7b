//! Periodic aggregation: values over time gathered into the periods of an aggregation
//! frequency, each period handed on, with its values, once a value of a later period comes.

use vstd::prelude::*;

use crate::recorders::aggregator::{in_period, split_outcome, AggregationFrequency, PeriodValue};
use crate::timestep::{datetime_difference, duration_between, CivilDateTime, DateTimeView, DurationView, PywrDuration};

verus! {

/// A period whose values are all in: where it starts, how long it lasted, and its values.
#[derive(Debug, Clone)]
pub struct ClosedPeriod<T> {
    pub start: CivilDateTime,
    pub duration: PywrDuration,
    pub values: Vec<PeriodValue<T>>,
}

/// A closed period as plain values.
pub struct ClosedView<T> {
    pub start: DateTimeView,
    pub duration: DurationView,
    pub values: Seq<PeriodValue<T>>,
}

/// The view of a closed period.
pub open spec fn closed_view<T>(p: ClosedPeriod<T>) -> ClosedView<T> {
    ClosedView { start: p.start@, duration: p.duration@, values: p.values@ }
}

/// The state of a periodic aggregator: the values of the period under way, if any, in the
/// order in which they came.
#[derive(Debug)]
pub struct PeriodicAggregatorState<T> {
    current_values: Option<Vec<PeriodValue<T>>>,
}

impl<T> View for PeriodicAggregatorState<T> {
    type V = Option<Seq<PeriodValue<T>>>;

    closed spec fn view(&self) -> Option<Seq<PeriodValue<T>>> {
        match self.current_values {
            Some(v) => Some(v@),
            None => None,
        }
    }
}

/// What one value does to the period under way: the first value opens a period; a value
/// that lies in the period of the first one joins it; another value closes the period, which
/// lasted up to that value's start, and opens the next. `None` where the end of the period
/// under way is past the range of datetimes.
pub open spec fn period_step<T>(
    freq: AggregationFrequency,
    current: Option<Seq<PeriodValue<T>>>,
    value: PeriodValue<T>,
) -> Option<(Option<Seq<PeriodValue<T>>>, Option<ClosedView<T>>)> {
    match current {
        None => Some((Some(seq![value]), None)),
        Some(vs) => match in_period(freq, vs[0].start@, value.start@) {
            None => None,
            Some(true) => Some((Some(vs.push(value)), None)),
            Some(false) => Some(
                (
                    Some(seq![value]),
                    Some(
                        ClosedView {
                            start: vs[0].start@,
                            duration: datetime_difference(value.start@, vs[0].start@),
                            values: vs,
                        },
                    ),
                ),
            ),
        },
    }
}

/// The values taken one after another (see [`period_step`]): the state after them, and the
/// periods that they closed, in order; `None` where a step fails.
pub open spec fn period_steps<T>(
    freq: AggregationFrequency,
    current: Option<Seq<PeriodValue<T>>>,
    values: Seq<PeriodValue<T>>,
) -> Option<(Option<Seq<PeriodValue<T>>>, Seq<ClosedView<T>>)>
    decreases values.len(),
{
    if values.len() == 0 {
        Some((current, Seq::empty()))
    } else {
        match period_steps(freq, current, values.drop_last()) {
            None => None,
            Some((state, closed)) => match period_step(freq, state, values.last()) {
                None => None,
                Some((next, Some(p))) => Some((next, closed.push(p))),
                Some((next, None)) => Some((next, closed)),
            },
        }
    }
}

/// The start of the period under way, as the steps of [`period_steps`] leave it: it is the
/// start of the first value of that period.
pub open spec fn period_start_of<T>(current: Option<Seq<PeriodValue<T>>>) -> Option<DateTimeView> {
    match current {
        Some(vs) => Some(vs[0].start@),
        None => None,
    }
}

proof fn lemma_steps_extend<T>(
    freq: AggregationFrequency,
    current: Option<Seq<PeriodValue<T>>>,
    values: Seq<PeriodValue<T>>,
    i: int,
)
    requires
        0 <= i < values.len(),
    ensures
        values.take(i + 1).drop_last() == values.take(i),
        values.take(i + 1).last() == values[i],
        period_steps(freq, current, values.take(i + 1)) == match period_steps(freq, current, values.take(i)) {
            None => None,
            Some((state, closed)) => match period_step(freq, state, values[i]) {
                None => None,
                Some((next, Some(p))) => Some((next, closed.push(p))),
                Some((next, None)) => Some((next, closed)),
            },
        },
{
    assert(values.take(i + 1).drop_last() =~= values.take(i));
}

impl<T> PeriodicAggregatorState<T> {
    #[verifier::type_invariant]
    spec fn inv(self) -> bool {
        self.current_values matches Some(v) ==> v@.len() > 0
    }
}

impl<T> Default for PeriodicAggregatorState<T> {
    /// The state of an aggregator that has seen no value.
    fn default() -> (r: Self)
        ensures
            r@ is None,
    {
        PeriodicAggregatorState { current_values: None }
    }
}

impl<T: Copy> PeriodicAggregatorState<T> {
    /// The start of the period under way, if one is.
    pub fn period_start(&self) -> (r: Option<CivilDateTime>)
        ensures
            match r {
                Some(d) => period_start_of(self@) == Some(d@),
                None => self@ is None,
            },
    {
        proof {
            use_type_invariant(self);
        }
        match &self.current_values {
            Some(v) => Some(v[0].start),
            None => None,
        }
    }

    /// Takes the next value (see [`period_step`]), whose start lies in the period under way or
    /// after it, and returns the period that it closes, if it closes one.
    pub fn process_value(&mut self, value: PeriodValue<T>, agg_freq: &AggregationFrequency) -> (r: Option<
        ClosedPeriod<T>,
    >)
        requires
            period_step(*agg_freq, old(self)@, value) is Some,
        ensures
            period_step(*agg_freq, old(self)@, value) matches Some((next, closing)) && final(self)@ == next
                && match closing {
                Some(p) => r matches Some(c) && closed_view(c) == p,
                None => r is None,
            },
    {
        proof {
            use_type_invariant(&*self);
        }
        let mut taken = PeriodicAggregatorState { current_values: None };
        std::mem::swap(self, &mut taken);
        match taken.current_values {
            Some(mut current) => {
                let period_start = current[0].start;
                let in_period = agg_freq.is_date_in_period(&period_start, &value.start);
                if in_period == Some(true) {
                    current.push(value);
                    self.current_values = Some(current);
                    None
                } else {
                    let duration = duration_between(&value.start, &period_start);
                    self.current_values = Some(vec![value]);
                    Some(ClosedPeriod { start: period_start, duration, values: current })
                }
            },
            None => {
                self.current_values = Some(vec![value]);
                None
            },
        }
    }

    /// Takes the next value where no frequency splits the values into periods: every value
    /// joins the one period.
    pub fn process_value_no_period(&mut self, value: PeriodValue<T>)
        ensures
            final(self)@ == match old(self)@ {
                Some(vs) => Some(vs.push(value)),
                None => Some(seq![value]),
            },
    {
        proof {
            use_type_invariant(&*self);
        }
        let mut taken = PeriodicAggregatorState { current_values: None };
        std::mem::swap(self, &mut taken);
        match taken.current_values {
            Some(mut current) => {
                current.push(value);
                self.current_values = Some(current);
            },
            None => {
                self.current_values = Some(vec![value]);
            },
        }
    }

    /// The period under way, as far as it has come: from the start of its first value to the
    /// start of its last, with its values; `None` before any value.
    pub fn current_period(&self) -> (r: Option<ClosedPeriod<T>>)
        ensures
            match self@ {
                Some(vs) => r matches Some(c) && closed_view(c) == (ClosedView {
                    start: vs[0].start@,
                    duration: datetime_difference(vs[vs.len() - 1].start@, vs[0].start@),
                    values: vs,
                }),
                None => r is None,
            },
    {
        proof {
            use_type_invariant(self);
        }
        match &self.current_values {
            Some(current) => {
                let start = current[0].start;
                let last = current[current.len() - 1].start;
                let mut values: Vec<PeriodValue<T>> = Vec::new();
                let mut i: usize = 0;
                while i < current.len()
                    invariant
                        i <= current@.len(),
                        values@ == current@.take(i as int),
                    decreases current@.len() - i,
                {
                    values.push(current[i]);
                    proof {
                        assert(current@.take(i + 1) =~= current@.take(i as int).push(current@[i as int]));
                    }
                    i = i + 1;
                }
                proof {
                    assert(current@.take(current@.len() as int) =~= current@);
                }
                Some(ClosedPeriod { start, duration: duration_between(&last, &start), values })
            },
            None => None,
        }
    }

    /// Takes a value that may span several periods: cuts it at the boundaries of the periods
    /// (see [`split_outcome`]) and takes the pieces in order (see [`period_steps`]), returning
    /// the periods that they close. `None`, with the state unchanged, where the value cannot be
    /// cut or the end of a period under way is past the range of datetimes.
    pub fn process_split_value(&mut self, value: PeriodValue<T>, agg_freq: &AggregationFrequency) -> (r: Option<
        Vec<ClosedPeriod<T>>,
    >)
        ensures
            match r {
                Some(closed) => exists|pieces: Vec<PeriodValue<T>>|
                    #[trigger] split_outcome(*agg_freq, value, Some(pieces)) && period_steps(
                        *agg_freq,
                        old(self)@,
                        pieces@,
                    ) == Some((final(self)@, closed_views(closed@))),
                None => final(self)@ == old(self)@ && (split_outcome(*agg_freq, value, None) || exists|
                    pieces: Vec<PeriodValue<T>>,
                |
                    #[trigger] split_outcome(*agg_freq, value, Some(pieces)) && period_steps(
                        *agg_freq,
                        old(self)@,
                        pieces@,
                    ) is None),
            },
    {
        let ghost before = self@;
        let pieces = match agg_freq.split_value_into_periods(value) {
            Some(p) => p,
            None => {
                return None;
            },
        };
        assert(split_outcome(*agg_freq, value, Some(pieces)));
        let mut first = self.period_start();
        proof {
            use_type_invariant(&*self);
            assert(pieces@.take(0) =~= Seq::<PeriodValue<T>>::empty());
        }
        let mut i: usize = 0;
        while i < pieces.len()
            invariant
                i <= pieces@.len(),
                self@ == before,
                before == old(self)@,
                split_outcome(*agg_freq, value, Some(pieces)),
                period_steps(*agg_freq, before, pieces@.take(i as int)) is Some,
                period_start_of(steps_state(*agg_freq, before, pieces@.take(i as int))) == date_of(first),
                state_nonempty(steps_state(*agg_freq, before, pieces@.take(i as int))),
            decreases pieces@.len() - i,
        {
            proof {
                lemma_step_start(*agg_freq, before, pieces@, i as int);
            }
            let p = pieces[i].start;
            match first {
                None => {
                    first = Some(p);
                },
                Some(f) => match agg_freq.is_date_in_period(&f, &p) {
                    None => {
                        proof {
                            lemma_steps_none_extends(*agg_freq, before, pieces@, i + 1);
                            assert(split_outcome(*agg_freq, value, Some(pieces)) && period_steps(
                                *agg_freq,
                                before,
                                pieces@,
                            ) is None);
                        }
                        return None;
                    },
                    Some(true) => {},
                    Some(false) => {
                        first = Some(p);
                    },
                },
            }
            i = i + 1;
        }
        proof {
            assert(pieces@.take(pieces@.len() as int) =~= pieces@);
        }
        let mut closed: Vec<ClosedPeriod<T>> = Vec::new();
        let mut j: usize = 0;
        while j < pieces.len()
            invariant
                j <= pieces@.len(),
                before == old(self)@,
                split_outcome(*agg_freq, value, Some(pieces)),
                period_steps(*agg_freq, before, pieces@) is Some,
                period_steps(*agg_freq, before, pieces@.take(j as int)) == Some((self@, closed_views(closed@))),
            decreases pieces@.len() - j,
        {
            proof {
                lemma_steps_extend(*agg_freq, before, pieces@, j as int);
                lemma_steps_prefix_some(*agg_freq, before, pieces@, j + 1);
            }
            let ghost closed_before = closed@;
            match self.process_value(pieces[j], agg_freq) {
                Some(c) => {
                    closed.push(c);
                    proof {
                        assert(closed_views(closed@) =~= closed_views(closed_before).push(closed_view(c)));
                    }
                },
                None => {},
            }
            j = j + 1;
        }
        proof {
            assert(pieces@.take(pieces@.len() as int) =~= pieces@);
        }
        Some(closed)
    }
}

/// The views of closed periods.
pub open spec fn closed_views<T>(cs: Seq<ClosedPeriod<T>>) -> Seq<ClosedView<T>> {
    cs.map_values(|c: ClosedPeriod<T>| closed_view(c))
}

/// The state that the steps of [`period_steps`] leave, where they succeed.
pub open spec fn steps_state<T>(
    freq: AggregationFrequency,
    current: Option<Seq<PeriodValue<T>>>,
    values: Seq<PeriodValue<T>>,
) -> Option<Seq<PeriodValue<T>>> {
    match period_steps(freq, current, values) {
        Some((state, _)) => state,
        None => None,
    }
}

/// A period under way has a value.
pub open spec fn state_nonempty<T>(current: Option<Seq<PeriodValue<T>>>) -> bool {
    current matches Some(vs) ==> vs.len() > 0
}

proof fn lemma_step_start<T>(
    freq: AggregationFrequency,
    current: Option<Seq<PeriodValue<T>>>,
    values: Seq<PeriodValue<T>>,
    i: int,
)
    requires
        0 <= i < values.len(),
        period_steps(freq, current, values.take(i)) is Some,
        state_nonempty(steps_state(freq, current, values.take(i))),
    ensures
        ({
            let st = steps_state(freq, current, values.take(i));
            let v = values[i];
            &&& (period_steps(freq, current, values.take(i + 1)) is Some) == (match st {
                None => true,
                Some(vs) => in_period(freq, vs[0].start@, v.start@) is Some,
            })
            &&& period_steps(freq, current, values.take(i + 1)) is Some ==> {
                &&& state_nonempty(steps_state(freq, current, values.take(i + 1)))
                &&& period_start_of(steps_state(freq, current, values.take(i + 1))) == match st {
                    None => Some(v.start@),
                    Some(vs) => if in_period(freq, vs[0].start@, v.start@) == Some(true) {
                        Some(vs[0].start@)
                    } else {
                        Some(v.start@)
                    },
                }
            }
        }),
{
    lemma_steps_extend(freq, current, values, i);
    let st = steps_state(freq, current, values.take(i));
    let v = values[i];
    match st {
        None => {},
        Some(vs) => {
            if in_period(freq, vs[0].start@, v.start@) == Some(true) {
                assert(vs.push(v)[0] == vs[0]);
            }
        },
    }
}

/// The datetime of an optional datetime, as a plain value.
pub open spec fn date_of(d: Option<CivilDateTime>) -> Option<DateTimeView> {
    match d {
        Some(x) => Some(x@),
        None => None,
    }
}

proof fn lemma_steps_prefix_some<T>(
    freq: AggregationFrequency,
    current: Option<Seq<PeriodValue<T>>>,
    values: Seq<PeriodValue<T>>,
    k: int,
)
    requires
        0 <= k <= values.len(),
        period_steps(freq, current, values) is Some,
    ensures
        period_steps(freq, current, values.take(k)) is Some,
    decreases values.len(),
{
    if k == values.len() {
        assert(values.take(k) =~= values);
    } else {
        lemma_steps_prefix_some(freq, current, values.drop_last(), k);
        assert(values.drop_last().take(k) =~= values.take(k));
    }
}

proof fn lemma_steps_none_extends<T>(
    freq: AggregationFrequency,
    current: Option<Seq<PeriodValue<T>>>,
    values: Seq<PeriodValue<T>>,
    k: int,
)
    requires
        0 <= k <= values.len(),
        period_steps(freq, current, values.take(k)) is None,
    ensures
        period_steps(freq, current, values) is None,
{
    if period_steps(freq, current, values) is Some {
        lemma_steps_prefix_some(freq, current, values, k);
    }
}

/// The values of a run of closed periods, one period after another.
pub open spec fn closed_values<T>(closed: Seq<ClosedView<T>>) -> Seq<PeriodValue<T>>
    decreases closed.len(),
{
    if closed.len() == 0 {
        Seq::empty()
    } else {
        closed_values(closed.drop_last()) + closed.last().values
    }
}

/// The values of the period under way, if one is.
pub open spec fn open_values<T>(current: Option<Seq<PeriodValue<T>>>) -> Seq<PeriodValue<T>> {
    match current {
        Some(vs) => vs,
        None => Seq::empty(),
    }
}

/// Aggregation loses and repeats no value: after a run of values, the values of the periods
/// they closed, then those of the period under way, are the values that were under way
/// before, then the run, in order.
pub proof fn law_aggregation_keeps_every_value<T>(
    freq: AggregationFrequency,
    current: Option<Seq<PeriodValue<T>>>,
    values: Seq<PeriodValue<T>>,
)
    requires
        period_steps(freq, current, values) is Some,
    ensures
        period_steps(freq, current, values) matches Some((state, closed)) && closed_values(closed) + open_values(
            state,
        ) == open_values(current) + values,
    decreases values.len(),
{
    if values.len() == 0 {
        assert(open_values(current) + values =~= open_values(current));
        assert(closed_values(Seq::<ClosedView<T>>::empty()) + open_values(current) =~= open_values(current));
    } else {
        let rest = values.drop_last();
        let v = values.last();
        law_aggregation_keeps_every_value(freq, current, rest);
        let (s0, c0) = period_steps(freq, current, rest)->Some_0;
        assert(open_values(current) + values =~= (open_values(current) + rest).push(v));
        match s0 {
            None => {
                assert(closed_values(c0) + seq![v] =~= (closed_values(c0) + open_values(s0)).push(v));
            },
            Some(vs) => {
                if in_period(freq, vs[0].start@, v.start@) == Some(true) {
                    assert(closed_values(c0) + vs.push(v) =~= (closed_values(c0) + vs).push(v));
                } else {
                    let p = ClosedView {
                        start: vs[0].start@,
                        duration: datetime_difference(v.start@, vs[0].start@),
                        values: vs,
                    };
                    assert(c0.push(p).drop_last() =~= c0);
                    assert(closed_values(c0.push(p)) + seq![v] =~= (closed_values(c0) + vs).push(v));
                }
            },
        }
    }
}

} // verus!
