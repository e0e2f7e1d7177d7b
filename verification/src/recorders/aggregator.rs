//! Aggregation periods: how recorded values over time are cut into months, years or runs of
//! days.

use vstd::prelude::*;

use crate::timestep::{
    add_days, add_duration, datetime_difference, datetime_le, datetime_lt, datetime_ordinal,
    datetime_plus_duration, div_toward_zero, duration_between, lemma_le_year_month, plus_days,
    CivilDateTime, DateTimeView, PywrDuration, TimeDomain,
};

verus! {

/// How often values are aggregated: by calendar month, by calendar year, or every given
/// number of days (not zero).
#[derive(Debug, Clone, Copy, PartialEq, Eq, Structural)]
pub enum AggregationFrequency {
    Monthly,
    Annual,
    Days(i64),
}

/// Midnight of the first day of a month.
pub open spec fn first_of_month(year: int, month: int) -> DateTimeView {
    DateTimeView { year, month, day: 1, hour: 0, minute: 0, second: 0, nanosecond: 0 }
}

/// The start of the period after the one that `dt` lies in: midnight of the first day of the
/// next month, or of the next year, or the datetime a number of days later; `None` past the
/// range of datetimes.
pub open spec fn next_period_start(freq: AggregationFrequency, dt: DateTimeView) -> Option<DateTimeView> {
    match freq {
        AggregationFrequency::Monthly => if dt.month == 12 {
            if dt.year >= 9999 {
                None
            } else {
                Some(first_of_month(dt.year + 1, 1))
            }
        } else {
            Some(first_of_month(dt.year, dt.month + 1))
        },
        AggregationFrequency::Annual => if dt.year >= 9999 {
            None
        } else {
            Some(first_of_month(dt.year + 1, 1))
        },
        AggregationFrequency::Days(days) => plus_days(dt, days as int),
    }
}

/// Whether `date` lies in the period that starts at `start`: the same month of the same
/// year, the same year, or from the start up to, not including, a number of days later.
/// `None` where that end is past the range of datetimes.
pub open spec fn in_period(freq: AggregationFrequency, start: DateTimeView, date: DateTimeView) -> Option<bool> {
    match freq {
        AggregationFrequency::Monthly => Some(start.year == date.year && start.month == date.month),
        AggregationFrequency::Annual => Some(start.year == date.year),
        AggregationFrequency::Days(days) => match plus_days(start, days as int) {
            Some(end) => Some(datetime_le(start, date) && datetime_lt(date, end)),
            None => None,
        },
    }
}

impl AggregationFrequency {
    /// Whether `date` lies in the period that starts at `period_start` (see [`in_period`]).
    pub fn is_date_in_period(&self, period_start: &CivilDateTime, date: &CivilDateTime) -> (r: Option<bool>)
        ensures
            r == in_period(*self, period_start@, date@),
    {
        match self {
            AggregationFrequency::Monthly => Some(
                period_start.year() == date.year() && period_start.month() == date.month(),
            ),
            AggregationFrequency::Annual => Some(period_start.year() == date.year()),
            AggregationFrequency::Days(days) => match add_days(period_start, *days) {
                Some(end) => Some(period_start.le(date) && date.lt(&end)),
                None => None,
            },
        }
    }

    /// The start of the period after the one that `current` lies in (see
    /// [`next_period_start`]).
    pub fn start_of_next_period(&self, current: &CivilDateTime) -> (r: Option<CivilDateTime>)
        ensures
            match next_period_start(*self, current@) {
                Some(next) => r matches Some(d) && d@ == next,
                None => r is None,
            },
    {
        let year = current.year();
        let month = current.month();
        match self {
            AggregationFrequency::Monthly => {
                if month == 12 {
                    if year >= 9999 {
                        None
                    } else {
                        CivilDateTime::new(year + 1, 1, 1, 0, 0, 0, 0)
                    }
                } else {
                    CivilDateTime::new(year, month + 1, 1, 0, 0, 0, 0)
                }
            },
            AggregationFrequency::Annual => {
                if year >= 9999 {
                    None
                } else {
                    CivilDateTime::new(year + 1, 1, 1, 0, 0, 0, 0)
                }
            },
            AggregationFrequency::Days(days) => add_days(current, *days),
        }
    }
}

/// A value over a period of time: the period's start and duration, and the value.
#[derive(Debug, Clone, Copy)]
pub struct PeriodValue<T> {
    pub start: CivilDateTime,
    pub duration: PywrDuration,
    pub value: T,
}

impl<T> PeriodValue<T> {
    pub fn new(start: CivilDateTime, duration: PywrDuration, value: T) -> (r: Self)
        ensures
            r.start == start,
            r.duration == duration,
            r.value == value,
    {
        PeriodValue { start, duration, value }
    }

    /// The end of the period: its start moved on by its duration; `None` past the range of
    /// datetimes.
    pub fn end(&self) -> (r: Option<CivilDateTime>)
        ensures
            match datetime_plus_duration(self.start@, self.duration@) {
                Some(end) => r matches Some(d) && d@ == end,
                None => r is None,
            },
    {
        add_duration(&self.start, &self.duration)
    }
}

impl<T: Copy> PeriodValue<Vec<T>> {
    /// The value at `index` over the same period.
    pub fn index(&self, index: usize) -> (r: PeriodValue<T>)
        requires
            index < self.value@.len(),
        ensures
            r.start == self.start,
            r.duration == self.duration,
            r.value == self.value@[index as int],
    {
        PeriodValue { start: self.start, duration: self.duration, value: self.value[index] }
    }

    /// The number of values.
    pub fn len(&self) -> (r: usize)
        ensures
            r == self.value@.len(),
    {
        self.value.len()
    }

    /// Whether there are no values.
    pub fn is_empty(&self) -> (r: bool)
        ensures
            r == (self.value@.len() == 0),
    {
        self.value.len() == 0
    }

    /// The values of consecutive periods gathered into one: the first one's start, the last
    /// one's duration, and the values in order.
    pub fn from_values(values: &[PeriodValue<T>]) -> (r: PeriodValue<Vec<T>>)
        requires
            values@.len() > 0,
        ensures
            r.start == values@[0].start,
            r.duration == values@[values@.len() - 1].duration,
            r.value@ == values@.map_values(|v: PeriodValue<T>| v.value),
    {
        let mut gathered: Vec<T> = Vec::new();
        let mut i: usize = 0;
        while i < values.len()
            invariant
                i <= values@.len(),
                gathered@ == values@.take(i as int).map_values(|v: PeriodValue<T>| v.value),
            decreases values@.len() - i,
        {
            gathered.push(values[i].value);
            proof {
                assert(values@.take(i + 1).map_values(|v: PeriodValue<T>| v.value) =~= values@.take(i as int).map_values(
                    |v: PeriodValue<T>| v.value,
                ).push(values@[i as int].value));
            }
            i = i + 1;
        }
        proof {
            assert(values@.take(values@.len() as int) =~= values@);
        }
        PeriodValue { start: values[0].start, duration: values[values.len() - 1].duration, value: gathered }
    }
}

/// The boundary `k` of the periods from `start` on: `start`, then each next period's start.
pub open spec fn boundary(freq: AggregationFrequency, start: DateTimeView, k: nat) -> Option<DateTimeView>
    decreases k,
{
    if k == 0 {
        Some(start)
    } else {
        match boundary(freq, start, (k - 1) as nat) {
            Some(b) => next_period_start(freq, b),
            None => None,
        }
    }
}

/// The piece `k` of a value ending at `end` lies in the value's time: its boundary is before
/// the end and the next boundary is later than it.
pub open spec fn piece_ok(freq: AggregationFrequency, start: DateTimeView, end: DateTimeView, k: nat) -> bool {
    &&& boundary(freq, start, k) matches Some(x)
    &&& datetime_lt(x, end)
    &&& boundary(freq, start, k + 1) matches Some(y)
    &&& datetime_lt(x, y)
}

/// The first `n` pieces lie in the value's time.
pub open spec fn pieces_ok(freq: AggregationFrequency, start: DateTimeView, end: DateTimeView, n: nat) -> bool {
    forall|k: nat| k < n ==> #[trigger] piece_ok(freq, start, end, k)
}

/// The later of two datetimes being `b`, the earlier of `b` and `end`.
pub open spec fn earlier_of(b: DateTimeView, end: DateTimeView) -> DateTimeView {
    if datetime_le(b, end) {
        b
    } else {
        end
    }
}

/// What cutting a value at the boundaries of the periods gives: the pieces from its start to
/// its end, each from a boundary to the next one or to the end, with the value; `None` where
/// the end, or a boundary before it, is past the range of datetimes, or a next boundary is no
/// later than the one before.
pub open spec fn split_outcome<T>(freq: AggregationFrequency, value: PeriodValue<T>, r: Option<Vec<PeriodValue<T>>>) -> bool {
    let start = value.start@;
    match datetime_plus_duration(start, value.duration@) {
        None => r is None,
        Some(end) => match r {
            Some(pieces) => {
                &&& pieces_ok(freq, start, end, pieces@.len() as nat)
                &&& boundary(freq, start, pieces@.len() as nat) matches Some(x) && !datetime_lt(x, end)
                &&& forall|k: int|
                    0 <= k < pieces@.len() ==> {
                        let b = boundary(freq, start, k as nat)->Some_0;
                        let next = boundary(freq, start, (k + 1) as nat)->Some_0;
                        &&& (#[trigger] pieces@[k]).start@ == b
                        &&& pieces@[k].duration@ == datetime_difference(earlier_of(next, end), b)
                        &&& pieces@[k].value == value.value
                    }
            },
            None => exists|n: nat|
                {
                    &&& pieces_ok(freq, start, end, n)
                    &&& #[trigger] boundary(freq, start, n) matches Some(x)
                    &&& datetime_lt(x, end)
                    &&& match boundary(freq, start, n + 1) {
                        None => true,
                        Some(y) => !datetime_lt(x, y),
                    }
                },
        },
    }
}

proof fn lemma_pieces_extend(freq: AggregationFrequency, start: DateTimeView, end: DateTimeView, n: nat)
    requires
        pieces_ok(freq, start, end, n),
        piece_ok(freq, start, end, n),
    ensures
        pieces_ok(freq, start, end, n + 1),
{
    assert forall|k: nat| k < n + 1 implies #[trigger] piece_ok(freq, start, end, k) by {
        if k < n {
            assert(piece_ok(freq, start, end, k));
        }
    }
}

impl AggregationFrequency {
    /// Cuts a value into pieces that do not cross the boundary of a period, each with the
    /// value (see [`split_outcome`]).
    pub fn split_value_into_periods<T: Copy>(&self, value: PeriodValue<T>) -> (r: Option<Vec<PeriodValue<T>>>)
        ensures
            split_outcome(*self, value, r),
    {
        let ghost start = value.start@;
        let end = match add_duration(&value.start, &value.duration) {
            Some(end) => end,
            None => {
                return None;
            },
        };
        let mut pieces: Vec<PeriodValue<T>> = Vec::new();
        let mut current = value.start;
        while current.lt(&end)
            invariant
                start == value.start@,
                datetime_plus_duration(start, value.duration@) == Some(end@),
                boundary(*self, start, pieces@.len() as nat) == Some(current@),
                pieces_ok(*self, start, end@, pieces@.len() as nat),
                forall|k: int|
                    0 <= k < pieces@.len() ==> {
                        let b = boundary(*self, start, k as nat)->Some_0;
                        let next = boundary(*self, start, (k + 1) as nat)->Some_0;
                        &&& (#[trigger] pieces@[k]).start@ == b
                        &&& pieces@[k].duration@ == datetime_difference(earlier_of(next, end@), b)
                        &&& pieces@[k].value == value.value
                    },
            decreases (if datetime_ordinal(current@) <= datetime_ordinal(end@) {
                datetime_ordinal(end@) - datetime_ordinal(current@) + 1
            } else {
                0
            }),
        {
            let ghost n = pieces@.len() as nat;
            let next = match self.start_of_next_period(&current) {
                Some(next) => next,
                None => {
                    proof {
                        assert(boundary(*self, start, n) matches Some(x) && datetime_lt(x, end@));
                    }
                    return None;
                },
            };
            if !current.lt(&next) {
                return None;
            }
            let piece_end = if next.le(&end) {
                next
            } else {
                end
            };
            let duration = duration_between(&piece_end, &current);
            let ghost prev = pieces@;
            pieces.push(PeriodValue { start: current, duration, value: value.value });
            proof {
                assert(piece_ok(*self, start, end@, n));
                lemma_pieces_extend(*self, start, end@, n);
                assert forall|k: int| 0 <= k < pieces@.len() implies {
                    let b = boundary(*self, start, k as nat)->Some_0;
                    let nx = boundary(*self, start, (k + 1) as nat)->Some_0;
                    &&& (#[trigger] pieces@[k]).start@ == b
                    &&& pieces@[k].duration@ == datetime_difference(earlier_of(nx, end@), b)
                    &&& pieces@[k].value == value.value
                } by {
                    if k < n {
                        assert(pieces@[k] == prev[k]);
                    }
                }
            }
            current = next;
        }
        Some(pieces)
    }
}

/// The number of periods from `first` to `last`: whole calendar months or years between them,
/// the days ignored, or whole runs of days in the whole days between them.
pub open spec fn periods_between(freq: AggregationFrequency, first: DateTimeView, last: DateTimeView) -> int {
    match freq {
        AggregationFrequency::Monthly => (last.year - first.year) * 12 + last.month - first.month,
        AggregationFrequency::Annual => last.year - first.year,
        AggregationFrequency::Days(days) => div_toward_zero(
            div_toward_zero(datetime_difference(last, first).secs, 86_400),
            days as int,
        ),
    }
}

fn div_trunc(n: i128, d: i128) -> (r: i128)
    requires
        d > 0,
        -0x1_0000_0000_0000_0000 < n < 0x1_0000_0000_0000_0000,
    ensures
        r == div_toward_zero(n as int, d as int),
{
    if n >= 0 {
        n / d
    } else {
        -((-n) / d)
    }
}

impl AggregationFrequency {
    /// The number of periods in a time domain, from its first to its last timestep's date
    /// (see [`periods_between`]), as a `usize`. A frequency of days counts a positive number.
    pub fn number_of_periods(&self, time_domain: &TimeDomain) -> (r: usize)
        requires
            *self matches AggregationFrequency::Days(days) ==> days > 0,
        ensures
            r == periods_between(*self, time_domain@[0].date, time_domain@[time_domain@.len() - 1].date) as usize,
            !(*self is Days) ==> r == periods_between(
                *self,
                time_domain@[0].date,
                time_domain@[time_domain@.len() - 1].date,
            ),
    {
        time_domain.dates_increase();
        let first = time_domain.first_timestep().date;
        let last = time_domain.last_timestep().date;
        let fy = first.year();
        let ly = last.year();
        let fm = first.month();
        let lm = last.month();
        proof {
            if time_domain@.len() > 1 {
                assert(datetime_lt(time_domain@[0].date, time_domain@[time_domain@.len() - 1].date));
            }
            lemma_le_year_month(first@, last@);
        }
        match self {
            AggregationFrequency::Monthly => {
                let n = (ly as i64 - fy as i64) * 12 + lm as i64 - fm as i64;
                n as usize
            },
            AggregationFrequency::Annual => (ly as i64 - fy as i64) as usize,
            AggregationFrequency::Days(days) => {
                let difference = duration_between(&last, &first);
                let n_days = div_trunc(difference.seconds() as i128, 86_400);
                let n = div_trunc(n_days, *days as i128);
                #[verifier::truncate]
                (n as usize)
            },
        }
    }
}

} // verus!
