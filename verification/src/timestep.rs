//! Time-steps of a simulation: civil datetimes, durations, and the time domain that a model
//! is simulated over. Calendar arithmetic is done by `jiff`; which timesteps a domain holds,
//! and when its generation stops, is decided here.

use vstd::prelude::*;

use crate::text::{decimal, u64_to_decimal};

verus! {

#[verifier::external_type_specification]
#[verifier::external_body]
pub struct ExJiffError(jiff::Error);

#[verifier::external_type_specification]
#[verifier::external_body]
pub struct ExJiffSpan(jiff::Span);

// ----------------------------------------------------------------------------------------
// Civil datetimes
// ----------------------------------------------------------------------------------------

/// A civil datetime as plain values.
pub struct DateTimeView {
    pub year: int,
    pub month: int,
    pub day: int,
    pub hour: int,
    pub minute: int,
    pub second: int,
    pub nanosecond: int,
}

/// Whether `year` is a leap year of the Gregorian calendar.
pub open spec fn is_leap_year(year: int) -> bool {
    (year % 4 == 0 && year % 100 != 0) || year % 400 == 0
}

/// The number of days in a month of a year.
pub open spec fn days_in_month(year: int, month: int) -> int {
    if month == 2 {
        if is_leap_year(year) {
            29
        } else {
            28
        }
    } else if month == 4 || month == 6 || month == 9 || month == 11 {
        30
    } else {
        31
    }
}

/// A datetime that the calendar holds, between the years -9999 and 9999.
pub open spec fn is_valid_datetime(v: DateTimeView) -> bool {
    &&& -9999 <= v.year <= 9999
    &&& 1 <= v.month <= 12
    &&& 1 <= v.day <= days_in_month(v.year, v.month)
    &&& 0 <= v.hour <= 23
    &&& 0 <= v.minute <= 59
    &&& 0 <= v.second <= 59
    &&& 0 <= v.nanosecond <= 999_999_999
}

/// The position of a datetime in the chronological order: its fields read as the digits of
/// one number, the year first.
pub open spec fn datetime_ordinal(v: DateTimeView) -> int {
    ((((((v.year + 9999) * 13 + v.month) * 32 + v.day) * 24 + v.hour) * 60 + v.minute) * 60 + v.second)
        * 1_000_000_000 + v.nanosecond
}

/// `a` is no later than `b`.
pub open spec fn datetime_le(a: DateTimeView, b: DateTimeView) -> bool {
    datetime_ordinal(a) <= datetime_ordinal(b)
}

/// `a` is earlier than `b`.
pub open spec fn datetime_lt(a: DateTimeView, b: DateTimeView) -> bool {
    datetime_ordinal(a) < datetime_ordinal(b)
}

/// The number of days of a year before the first of a month.
pub open spec fn days_before_month(year: int, month: int) -> int {
    let common: int = if month == 1 {
        0
    } else if month == 2 {
        31
    } else if month == 3 {
        59
    } else if month == 4 {
        90
    } else if month == 5 {
        120
    } else if month == 6 {
        151
    } else if month == 7 {
        181
    } else if month == 8 {
        212
    } else if month == 9 {
        243
    } else if month == 10 {
        273
    } else if month == 11 {
        304
    } else {
        334
    };
    if month > 2 && is_leap_year(year) {
        common + 1
    } else {
        common
    }
}

/// The one-based day of the year of a datetime.
pub open spec fn day_of_year_spec(v: DateTimeView) -> int {
    days_before_month(v.year, v.month) + v.day
}

/// A civil datetime: a date of the Gregorian calendar and a time of day, to the nanosecond,
/// with no time zone.
#[derive(Debug, Clone, Copy, PartialEq, Eq, Structural)]
pub struct CivilDateTime {
    year: i16,
    month: i8,
    day: i8,
    hour: i8,
    minute: i8,
    second: i8,
    nanosecond: i32,
}

impl View for CivilDateTime {
    type V = DateTimeView;

    closed spec fn view(&self) -> DateTimeView {
        DateTimeView {
            year: self.year as int,
            month: self.month as int,
            day: self.day as int,
            hour: self.hour as int,
            minute: self.minute as int,
            second: self.second as int,
            nanosecond: self.nanosecond as int,
        }
    }
}

fn month_length(year: i16, month: i8) -> (r: i8)
    requires
        1 <= month <= 12,
    ensures
        r == days_in_month(year as int, month as int),
{
    if month == 2 {
        let leap = (year % 4 == 0 && year % 100 != 0) || year % 400 == 0;
        if leap {
            29
        } else {
            28
        }
    } else if month == 4 || month == 6 || month == 9 || month == 11 {
        30
    } else {
        31
    }
}

impl CivilDateTime {
    #[verifier::type_invariant]
    spec fn valid(self) -> bool {
        is_valid_datetime(self@)
    }

    /// The datetime of the given fields, if they name one.
    pub fn new(year: i16, month: i8, day: i8, hour: i8, minute: i8, second: i8, nanosecond: i32) -> (r: Option<
        CivilDateTime,
    >)
        ensures
            match r {
                Some(d) => is_valid_datetime(d@) && d@ == (DateTimeView {
                    year: year as int,
                    month: month as int,
                    day: day as int,
                    hour: hour as int,
                    minute: minute as int,
                    second: second as int,
                    nanosecond: nanosecond as int,
                }),
                None => !is_valid_datetime(
                    DateTimeView {
                        year: year as int,
                        month: month as int,
                        day: day as int,
                        hour: hour as int,
                        minute: minute as int,
                        second: second as int,
                        nanosecond: nanosecond as int,
                    },
                ),
            },
    {
        if year < -9999 || year > 9999 || month < 1 || month > 12 {
            return None;
        }
        if day < 1 || day > month_length(year, month) {
            return None;
        }
        if hour < 0 || hour > 23 || minute < 0 || minute > 59 || second < 0 || second > 59 || nanosecond < 0
            || nanosecond > 999_999_999 {
            return None;
        }
        Some(CivilDateTime { year, month, day, hour, minute, second, nanosecond })
    }

    pub fn year(&self) -> (r: i16)
        ensures
            r == self@.year,
            is_valid_datetime(self@),
    {
        proof {
            use_type_invariant(self);
        }
        self.year
    }

    pub fn month(&self) -> (r: i8)
        ensures
            r == self@.month,
            is_valid_datetime(self@),
    {
        proof {
            use_type_invariant(self);
        }
        self.month
    }

    pub fn day(&self) -> (r: i8)
        ensures
            r == self@.day,
            is_valid_datetime(self@),
    {
        proof {
            use_type_invariant(self);
        }
        self.day
    }

    pub fn hour(&self) -> (r: i8)
        ensures
            r == self@.hour,
            is_valid_datetime(self@),
    {
        proof {
            use_type_invariant(self);
        }
        self.hour
    }

    pub fn minute(&self) -> (r: i8)
        ensures
            r == self@.minute,
            is_valid_datetime(self@),
    {
        proof {
            use_type_invariant(self);
        }
        self.minute
    }

    pub fn second(&self) -> (r: i8)
        ensures
            r == self@.second,
            is_valid_datetime(self@),
    {
        proof {
            use_type_invariant(self);
        }
        self.second
    }

    pub fn subsec_nanosecond(&self) -> (r: i32)
        ensures
            r == self@.nanosecond,
    {
        self.nanosecond
    }

    /// The datetime's position in the chronological order (see [`datetime_ordinal`]).
    pub fn ordinal(&self) -> (r: i128)
        ensures
            r == datetime_ordinal(self@),
            is_valid_datetime(self@),
    {
        proof {
            use_type_invariant(self);
        }
        let y = self.year as i128 + 9999;
        let a = y * 13 + self.month as i128;
        assert(0 <= a <= 19998 * 13 + 12) by (nonlinear_arith)
            requires
                0 <= y <= 19998,
                a == y * 13 + self.month,
                1 <= self.month <= 12,
        ;
        let b = a * 32 + self.day as i128;
        assert(0 <= b <= (19998 * 13 + 12) * 32 + 31) by (nonlinear_arith)
            requires
                0 <= a <= 19998 * 13 + 12,
                b == a * 32 + self.day,
                1 <= self.day <= 31,
        ;
        let c = b * 24 + self.hour as i128;
        assert(0 <= c <= ((19998 * 13 + 12) * 32 + 31) * 24 + 23) by (nonlinear_arith)
            requires
                0 <= b <= (19998 * 13 + 12) * 32 + 31,
                c == b * 24 + self.hour,
                0 <= self.hour <= 23,
        ;
        let d = c * 60 + self.minute as i128;
        assert(0 <= d <= (((19998 * 13 + 12) * 32 + 31) * 24 + 23) * 60 + 59) by (nonlinear_arith)
            requires
                0 <= c <= ((19998 * 13 + 12) * 32 + 31) * 24 + 23,
                d == c * 60 + self.minute,
                0 <= self.minute <= 59,
        ;
        let e = d * 60 + self.second as i128;
        assert(0 <= e <= ((((19998 * 13 + 12) * 32 + 31) * 24 + 23) * 60 + 59) * 60 + 59) by (nonlinear_arith)
            requires
                0 <= d <= (((19998 * 13 + 12) * 32 + 31) * 24 + 23) * 60 + 59,
                e == d * 60 + self.second,
                0 <= self.second <= 59,
        ;
        assert(e * 1_000_000_000 <= ((((((19998 * 13 + 12) * 32 + 31) * 24 + 23) * 60 + 59) * 60 + 59))
            * 1_000_000_000) by (nonlinear_arith)
            requires
                0 <= e <= ((((19998 * 13 + 12) * 32 + 31) * 24 + 23) * 60 + 59) * 60 + 59,
        ;
        e * 1_000_000_000 + self.nanosecond as i128
    }

    /// Whether this datetime is no later than `other`.
    pub fn le(&self, other: &CivilDateTime) -> (r: bool)
        ensures
            r == datetime_le(self@, other@),
    {
        self.ordinal() <= other.ordinal()
    }

    /// Whether this datetime is earlier than `other`.
    pub fn lt(&self, other: &CivilDateTime) -> (r: bool)
        ensures
            r == datetime_lt(self@, other@),
    {
        self.ordinal() < other.ordinal()
    }
}

/// The count of months of a datetime since the start of the range of datetimes.
pub open spec fn month_index(v: DateTimeView) -> int {
    (v.year + 9999) * 13 + v.month
}

proof fn lemma_ordinal_split(v: DateTimeView)
    requires
        is_valid_datetime(v),
    ensures
        month_index(v) * 2_764_800_000_000_000 <= datetime_ordinal(v) < (month_index(v) + 1) * 2_764_800_000_000_000,
{
    let rest = ((((v.day * 24 + v.hour) * 60 + v.minute) * 60 + v.second) * 1_000_000_000 + v.nanosecond);
    let o = datetime_ordinal(v);
    let mi = month_index(v);
    assert(o == mi * 2_764_800_000_000_000 + rest) by (nonlinear_arith)
        requires
            o == ((((((v.year + 9999) * 13 + v.month) * 32 + v.day) * 24 + v.hour) * 60 + v.minute) * 60 + v.second)
                * 1_000_000_000 + v.nanosecond,
            mi == (v.year + 9999) * 13 + v.month,
            rest == ((((v.day * 24 + v.hour) * 60 + v.minute) * 60 + v.second) * 1_000_000_000 + v.nanosecond),
    ;
    assert(0 <= rest < 2_764_800_000_000_000) by (nonlinear_arith)
        requires
            1 <= v.day <= 31,
            0 <= v.hour <= 23,
            0 <= v.minute <= 59,
            0 <= v.second <= 59,
            0 <= v.nanosecond <= 999_999_999,
            rest == ((((v.day * 24 + v.hour) * 60 + v.minute) * 60 + v.second) * 1_000_000_000 + v.nanosecond),
    ;
    assert(month_index(v) * 2_764_800_000_000_000 <= datetime_ordinal(v) < (month_index(v) + 1)
        * 2_764_800_000_000_000) by (nonlinear_arith)
        requires
            datetime_ordinal(v) == month_index(v) * 2_764_800_000_000_000 + rest,
            0 <= rest < 2_764_800_000_000_000,
    ;
}

/// A datetime no later than another lies in an earlier year, or in the same year no later in
/// the months.
pub proof fn lemma_le_year_month(a: DateTimeView, b: DateTimeView)
    requires
        is_valid_datetime(a),
        is_valid_datetime(b),
        datetime_le(a, b),
    ensures
        a.year < b.year || (a.year == b.year && a.month <= b.month),
{
    lemma_ordinal_split(a);
    lemma_ordinal_split(b);
    let ma = month_index(a);
    let mb = month_index(b);
    if ma > mb {
        assert((mb + 1) * 2_764_800_000_000_000 <= ma * 2_764_800_000_000_000) by (nonlinear_arith)
            requires
                ma > mb,
        ;
    }
    assert(ma <= mb);
}

/// Whether a year of the calendar is a leap year.
fn year_is_leap(year: i16) -> (r: bool)
    ensures
        r == is_leap_year(year as int),
{
    (year % 4 == 0 && year % 100 != 0) || year % 400 == 0
}

/// The one-based day of the year of a datetime: the days of the months before its month,
/// counting February 29 in leap years, plus its day.
fn day_of_year_of(dt: &CivilDateTime) -> (r: i16)
    ensures
        r == day_of_year_spec(dt@),
{
    proof {
        use_type_invariant(dt);
    }
    let month = dt.month();
    let day = dt.day();
    let common: i16 = if month == 1 {
        0
    } else if month == 2 {
        31
    } else if month == 3 {
        59
    } else if month == 4 {
        90
    } else if month == 5 {
        120
    } else if month == 6 {
        151
    } else if month == 7 {
        181
    } else if month == 8 {
        212
    } else if month == 9 {
        243
    } else if month == 10 {
        273
    } else if month == 11 {
        304
    } else {
        334
    };
    let before = if month > 2 && year_is_leap(dt.year()) {
        common + 1
    } else {
        common
    };
    before + day as i16
}

// ----------------------------------------------------------------------------------------
// Durations
// ----------------------------------------------------------------------------------------

/// A signed duration as plain values: whole seconds and the nanoseconds beyond them.
pub struct DurationView {
    pub secs: int,
    pub nanos: int,
}

/// A duration as `jiff::SignedDuration` holds it: fewer than a second of nanoseconds, of the
/// sign of the seconds.
pub open spec fn is_valid_duration(d: DurationView) -> bool {
    &&& -1_000_000_000 < d.nanos < 1_000_000_000
    &&& d.secs == 0 || d.nanos == 0 || (d.secs > 0) == (d.nanos > 0)
    &&& i64::MIN <= d.secs <= i64::MAX
}

/// The whole duration in nanoseconds.
pub open spec fn duration_nanos(d: DurationView) -> int {
    d.secs * 1_000_000_000 + d.nanos
}

/// The quotient of `n` by a positive `d`, rounded toward zero, as Rust's `/` does.
pub open spec fn div_toward_zero(n: int, d: int) -> int {
    if n >= 0 {
        n / d
    } else {
        -((-n) / d)
    }
}

/// The number of whole milliseconds in a duration, as `jiff::SignedDuration::as_millis`
/// counts them.
pub open spec fn duration_millis(d: DurationView) -> int {
    d.secs * 1000 + div_toward_zero(d.nanos, 1_000_000)
}

/// A duration of time, signed, to the nanosecond.
#[derive(Debug, Clone, Copy, PartialEq, Eq, Structural)]
pub struct PywrDuration {
    secs: i64,
    nanos: i32,
}

impl View for PywrDuration {
    type V = DurationView;

    closed spec fn view(&self) -> DurationView {
        DurationView { secs: self.secs as int, nanos: self.nanos as int }
    }
}

/// One unit of a duration's text: the count and the unit's letters, or nothing for a count of
/// zero.
pub open spec fn duration_part(count: int, unit: Seq<char>) -> Seq<char> {
    if count > 0 {
        decimal(count as nat) + unit
    } else {
        Seq::empty()
    }
}

/// The text of a duration of `ms` milliseconds: its days, hours, minutes, seconds and
/// milliseconds, each that is not zero, as `5d`, `12h`, `1d1s` or `23h59m59s`. A duration of
/// no positive length has an empty text.
pub open spec fn duration_text(ms: int) -> Seq<char> {
    if ms <= 0 {
        Seq::empty()
    } else {
        duration_part(ms / 86_400_000, "d"@) + duration_part((ms % 86_400_000) / 3_600_000, "h"@)
            + duration_part((ms % 3_600_000) / 60_000, "m"@) + duration_part((ms % 60_000) / 1000, "s"@)
            + duration_part(ms % 1000, "ms"@)
    }
}

fn append_part(text: &mut String, count: u64, unit: &str)
    ensures
        final(text)@ == old(text)@ + duration_part(count as int, unit@),
{
    if count > 0 {
        proof {
            assert(count as int as nat == count as nat);
        }
        let digits = u64_to_decimal(count);
        text.append(digits.as_str());
        text.append(unit);
        proof {
            assert(final(text)@ =~= old(text)@ + (decimal(count as nat) + unit@)) by {
                assert(old(text)@ + decimal(count as nat) + unit@ =~= old(text)@ + (decimal(count as nat) + unit@));
            }
        }
    } else {
        proof {
            assert(old(text)@ + Seq::<char>::empty() =~= old(text)@);
        }
    }
}

proof fn lemma_duration_view_injective(a: PywrDuration, b: PywrDuration)
    ensures
        a@ == b@ ==> a == b,
{
}

impl PywrDuration {
    #[verifier::type_invariant]
    spec fn valid(self) -> bool {
        is_valid_duration(self@)
    }

    /// A duration of `days` days, as `jiff::SignedDuration::from_hours(days * 24)` makes it.
    pub fn from_days(days: i64) -> (r: Self)
        requires
            i64::MIN <= days * 86_400 <= i64::MAX,
        ensures
            r@ == (DurationView { secs: days * 86_400, nanos: 0 }),
    {
        PywrDuration { secs: days * 86_400, nanos: 0 }
    }

    /// A duration of `hours` hours, as `jiff::SignedDuration::from_hours` makes it.
    pub fn from_hours(hours: i64) -> (r: Self)
        requires
            i64::MIN <= hours * 3600 <= i64::MAX,
        ensures
            r@ == (DurationView { secs: hours * 3600, nanos: 0 }),
    {
        PywrDuration { secs: hours * 3600, nanos: 0 }
    }

    /// A duration of `minutes` minutes, as `jiff::SignedDuration::from_mins` makes it.
    pub fn from_minutes(minutes: i64) -> (r: Self)
        requires
            i64::MIN <= minutes * 60 <= i64::MAX,
        ensures
            r@ == (DurationView { secs: minutes * 60, nanos: 0 }),
    {
        PywrDuration { secs: minutes * 60, nanos: 0 }
    }

    /// A duration of `seconds` seconds.
    pub fn from_seconds(seconds: i64) -> (r: Self)
        ensures
            r@ == (DurationView { secs: seconds as int, nanos: 0 }),
    {
        PywrDuration { secs: seconds, nanos: 0 }
    }

    /// The whole seconds of the duration.
    pub fn seconds(&self) -> (r: i64)
        ensures
            r == self@.secs,
    {
        self.secs
    }

    /// The nanoseconds of the duration beyond its whole seconds, of the seconds' sign.
    pub fn subsec_nanoseconds(&self) -> (r: i32)
        ensures
            r == self@.nanos,
    {
        self.nanos
    }

    /// Whether the duration is longer than nothing.
    pub fn is_positive(&self) -> (r: bool)
        ensures
            r == (duration_nanos(self@) > 0),
    {
        proof {
            use_type_invariant(self);
        }
        self.secs > 0 || (self.secs == 0 && self.nanos > 0)
    }

    /// The number of milliseconds in the duration, as `i64` (the count of
    /// `jiff::SignedDuration::as_millis` cast to `i64`).
    pub fn milliseconds(&self) -> (r: i64)
        ensures
            r == duration_millis(self@) as i64,
    {
        proof {
            use_type_invariant(self);
        }
        let sub: i32 = if self.nanos >= 0 {
            self.nanos / 1_000_000
        } else {
            -((-self.nanos) / 1_000_000)
        };
        let millis: i128 = self.secs as i128 * 1000 + sub as i128;
        #[verifier::truncate]
        (millis as i64)
    }

    /// The duration as text of its units: `5d`, `12h`, `30m`, `1d1s`, `23h59m59s`; empty for
    /// a duration of no positive length (see [`duration_text`]).
    pub fn duration_string(&self) -> (r: String)
        ensures
            r@ == duration_text((duration_millis(self@) as i64) as int),
    {
        let ms = self.milliseconds();
        let mut text = String::new();
        if ms <= 0 {
            return text;
        }
        let m = ms as u64;
        append_part(&mut text, m / 86_400_000, "d");
        append_part(&mut text, (m % 86_400_000) / 3_600_000, "h");
        append_part(&mut text, (m % 3_600_000) / 60_000, "m");
        append_part(&mut text, (m % 60_000) / 1000, "s");
        append_part(&mut text, m % 1000, "ms");
        proof {
            assert(text@ =~= duration_text(ms as int));
        }
        text
    }
}

// ----------------------------------------------------------------------------------------
// Calendar arithmetic, by jiff
// ----------------------------------------------------------------------------------------

/// The units of a span of time, each signed as the span is.
pub struct SpanView {
    pub years: int,
    pub months: int,
    pub weeks: int,
    pub days: int,
    pub hours: int,
    pub minutes: int,
    pub seconds: int,
    pub milliseconds: int,
    pub microseconds: int,
    pub nanoseconds: int,
}

/// A span of calendar and clock units, such as one month or one week, as `jiff` parses it
/// from a frequency, with the values of its units.
#[derive(Debug)]
pub struct TimeSpan {
    span: jiff::Span,
    years: i16,
    months: i32,
    weeks: i32,
    days: i32,
    hours: i32,
    minutes: i64,
    seconds: i64,
    milliseconds: i64,
    microseconds: i64,
    nanoseconds: i64,
}

impl View for TimeSpan {
    type V = SpanView;

    closed spec fn view(&self) -> SpanView {
        SpanView {
            years: self.years as int,
            months: self.months as int,
            weeks: self.weeks as int,
            days: self.days as int,
            hours: self.hours as int,
            minutes: self.minutes as int,
            seconds: self.seconds as int,
            milliseconds: self.milliseconds as int,
            microseconds: self.microseconds as int,
            nanoseconds: self.nanoseconds as int,
        }
    }
}

/// The units of the span that `jiff` parses from a text (by `jiff::Span`'s `FromStr`), if it
/// parses one.
pub uninterp spec fn parsed_span(text: Seq<char>) -> Option<SpanView>;

/// A unit's value times `n` stays within the unit's limit, `limit` either way.
pub open spec fn product_within(value: int, n: int, limit: int) -> bool {
    -limit <= value * n <= limit
}

/// The units of a span multiplied by `n` (by `jiff::Span::checked_mul`): each unit times `n`,
/// `None` where `n` is `i64::MIN` or a unit leaves its range. A unit's range is that of
/// `jiff`'s spans: 19,998 years, 239,976 months, 1,043,497 weeks, 7,304,484 days, 175,307,616
/// hours, 10,518,456,960 minutes, 631,107,417,600 seconds, a thousand times that in
/// milliseconds and a million times in microseconds, and `i64::MAX` nanoseconds, either way.
pub open spec fn span_multiple(span: SpanView, n: int) -> Option<SpanView> {
    if n == i64::MIN {
        None
    } else if product_within(span.years, n, 19_998) && product_within(span.months, n, 239_976)
        && product_within(span.weeks, n, 1_043_497) && product_within(span.days, n, 7_304_484)
        && product_within(span.hours, n, 175_307_616) && product_within(span.minutes, n, 10_518_456_960)
        && product_within(span.seconds, n, 631_107_417_600) && product_within(
        span.milliseconds,
        n,
        631_107_417_600_000,
    ) && product_within(span.microseconds, n, 631_107_417_600_000_000) && product_within(
        span.nanoseconds,
        n,
        i64::MAX as int,
    ) {
        Some(
            SpanView {
                years: span.years * n,
                months: span.months * n,
                weeks: span.weeks * n,
                days: span.days * n,
                hours: span.hours * n,
                minutes: span.minutes * n,
                seconds: span.seconds * n,
                milliseconds: span.milliseconds * n,
                microseconds: span.microseconds * n,
                nanoseconds: span.nanoseconds * n,
            },
        )
    } else {
        None
    }
}

/// A datetime moved on by a span (by `jiff::civil::DateTime::checked_add`), if the result is
/// a datetime.
pub uninterp spec fn datetime_plus_span(dt: DateTimeView, span: SpanView) -> Option<DateTimeView>;

/// The number of days from 1970-01-01 to a date of the proleptic Gregorian calendar, counted
/// in 400-year eras from March 1st of year 0.
pub open spec fn days_from_civil(year: int, month: int, day: int) -> int {
    let y = if month <= 2 {
        year - 1
    } else {
        year
    };
    let era = y / 400;
    let year_of_era = y - era * 400;
    let shifted_month = if month > 2 {
        month - 3
    } else {
        month + 9
    };
    let day_of_year = (153 * shifted_month + 2) / 5 + day - 1;
    let day_of_era = year_of_era * 365 + year_of_era / 4 - year_of_era / 100 + day_of_year;
    era * 146_097 + day_of_era - 719_468
}

/// A datetime as the number of nanoseconds from 1970-01-01 at midnight.
pub open spec fn civil_nanos(v: DateTimeView) -> int {
    ((((days_from_civil(v.year, v.month, v.day) * 24 + v.hour) * 60 + v.minute) * 60 + v.second) * 1_000_000_000)
        + v.nanosecond
}

/// A number of nanoseconds as a duration: whole seconds, rounded toward zero, and the
/// nanoseconds left, of the same sign.
pub open spec fn duration_of_nanos(n: int) -> DurationView {
    let secs = div_toward_zero(n, 1_000_000_000);
    DurationView { secs, nanos: n - secs * 1_000_000_000 }
}

/// A datetime moved on by a duration (by `jiff::civil::DateTime::checked_add`): the datetime
/// that many nanoseconds later (or earlier), if the calendar holds one.
pub open spec fn datetime_plus_duration(dt: DateTimeView, duration: DurationView) -> Option<DateTimeView> {
    let target = civil_nanos(dt) + duration_nanos(duration);
    if exists|v: DateTimeView| is_valid_datetime(v) && #[trigger] civil_nanos(v) == target {
        Some(choose|v: DateTimeView| is_valid_datetime(v) && #[trigger] civil_nanos(v) == target)
    } else {
        None
    }
}

/// The duration from `earlier` to `later` (by `jiff::civil::DateTime::duration_since`): the
/// difference of their nanoseconds from a common epoch.
pub open spec fn datetime_difference(later: DateTimeView, earlier: DateTimeView) -> DurationView {
    duration_of_nanos(civil_nanos(later) - civil_nanos(earlier))
}

/// Parses a span of time by `jiff::Span`'s `FromStr`: friendly text such as `1mo` or `1w`, or
/// ISO 8601 durations. The contract claims that the result depends on the text alone.
#[verifier::external_body]
fn parse_span(text: &str) -> (r: Result<TimeSpan, jiff::Error>)
    ensures
        match r {
            Ok(span) => parsed_span(text@) == Some(span@),
            Err(_) => parsed_span(text@) is None,
        },
{
    match text.parse::<jiff::Span>() {
        Ok(s) => Ok(TimeSpan { years: s.get_years(), months: s.get_months(), weeks: s.get_weeks(),
            days: s.get_days(), hours: s.get_hours(), minutes: s.get_minutes(), seconds: s.get_seconds(),
            milliseconds: s.get_milliseconds(), microseconds: s.get_microseconds(),
            nanoseconds: s.get_nanoseconds(), span: s }),
        Err(e) => Err(e),
    }
}

/// Multiplies a span by `n`, by `jiff::Span::checked_mul`: each unit times `n`, or `None` where
/// a unit leaves its range or `n` is `i64::MIN` (see [`span_multiple`]).
#[verifier::external_body]
fn span_times(span: &TimeSpan, n: i64) -> (r: Option<TimeSpan>)
    ensures
        match r {
            Some(m) => span_multiple(span@, n as int) == Some(m@),
            None => span_multiple(span@, n as int) is None,
        },
{
    match span.span.checked_mul(n) {
        Ok(s) => Some(TimeSpan { years: s.get_years(), months: s.get_months(), weeks: s.get_weeks(),
            days: s.get_days(), hours: s.get_hours(), minutes: s.get_minutes(), seconds: s.get_seconds(),
            milliseconds: s.get_milliseconds(), microseconds: s.get_microseconds(),
            nanoseconds: s.get_nanoseconds(), span: s }),
        Err(_) => None,
    }
}

/// A span of `days` days and nothing else.
pub open spec fn span_of_days(days: int) -> SpanView {
    SpanView {
        years: 0,
        months: 0,
        weeks: 0,
        days,
        hours: 0,
        minutes: 0,
        seconds: 0,
        milliseconds: 0,
        microseconds: 0,
        nanoseconds: 0,
    }
}

/// A datetime moved on by `days` days, where `jiff` holds a span of that many days.
pub open spec fn plus_days(dt: DateTimeView, days: int) -> Option<DateTimeView> {
    if -7_304_484 <= days <= 7_304_484 {
        datetime_plus_span(dt, span_of_days(days))
    } else {
        None
    }
}

/// A span of `days` days, by `jiff::Span::try_days`, which refuses more than 7,304,484 days
/// either way.
#[verifier::external_body]
fn days_span(days: i64) -> (r: Option<TimeSpan>)
    ensures
        match r {
            Some(s) => -7_304_484 <= days <= 7_304_484 && s@ == span_of_days(days as int),
            None => !(-7_304_484 <= days <= 7_304_484),
        },
{
    match jiff::Span::new().try_days(days) {
        Ok(s) => Some(TimeSpan { years: s.get_years(), months: s.get_months(), weeks: s.get_weeks(),
            days: s.get_days(), hours: s.get_hours(), minutes: s.get_minutes(), seconds: s.get_seconds(),
            milliseconds: s.get_milliseconds(), microseconds: s.get_microseconds(),
            nanoseconds: s.get_nanoseconds(), span: s }),
        Err(_) => None,
    }
}

/// Moves a datetime on by a span, by `jiff::civil::DateTime::checked_add`; `None` where the
/// result would leave the range of datetimes. Results are valid datetimes.
#[verifier::external_body]
fn add_span(dt: &CivilDateTime, span: &TimeSpan) -> (r: Option<CivilDateTime>)
    ensures
        match r {
            Some(d) => datetime_plus_span(dt@, span@) == Some(d@) && is_valid_datetime(d@),
            None => datetime_plus_span(dt@, span@) is None,
        },
{
    let j = jiff::civil::datetime(dt.year, dt.month, dt.day, dt.hour, dt.minute, dt.second, dt.nanosecond);
    match j.checked_add(span.span) {
        Ok(d) => Some(CivilDateTime { year: d.year(), month: d.month(), day: d.day(), hour: d.hour(),
            minute: d.minute(), second: d.second(), nanosecond: d.subsec_nanosecond() }),
        Err(_) => None,
    }
}

/// Moves a datetime on by a duration, by `jiff::civil::DateTime::checked_add`; `None` where the
/// result would leave the range of datetimes. Results are valid datetimes.
#[verifier::external_body]
pub(crate) fn add_duration(dt: &CivilDateTime, duration: &PywrDuration) -> (r: Option<CivilDateTime>)
    ensures
        match r {
            Some(d) => datetime_plus_duration(dt@, duration@) == Some(d@) && is_valid_datetime(d@),
            None => datetime_plus_duration(dt@, duration@) is None,
        },
{
    let j = jiff::civil::datetime(dt.year, dt.month, dt.day, dt.hour, dt.minute, dt.second, dt.nanosecond);
    match j.checked_add(jiff::SignedDuration::new(duration.secs, duration.nanos)) {
        Ok(d) => Some(CivilDateTime { year: d.year(), month: d.month(), day: d.day(), hour: d.hour(),
            minute: d.minute(), second: d.second(), nanosecond: d.subsec_nanosecond() }),
        Err(_) => None,
    }
}

/// A datetime moved on by `days` days (see [`plus_days`]).
pub fn add_days(dt: &CivilDateTime, days: i64) -> (r: Option<CivilDateTime>)
    ensures
        match plus_days(dt@, days as int) {
            Some(d) => r matches Some(x) && x@ == d,
            None => r is None,
        },
{
    match days_span(days) {
        Some(span) => add_span(dt, &span),
        None => None,
    }
}

/// The duration from `earlier` to `later`, by `jiff::civil::DateTime::duration_since`, which
/// never fails between two datetimes. Results are valid durations.
#[verifier::external_body]
pub(crate) fn duration_between(later: &CivilDateTime, earlier: &CivilDateTime) -> (r: PywrDuration)
    ensures
        r@ == datetime_difference(later@, earlier@),
        is_valid_duration(r@),
{
    let l = jiff::civil::datetime(later.year, later.month, later.day, later.hour, later.minute, later.second,
        later.nanosecond);
    let e = jiff::civil::datetime(earlier.year, earlier.month, earlier.day, earlier.hour, earlier.minute,
        earlier.second, earlier.nanosecond);
    let d = l.duration_since(e);
    PywrDuration { secs: d.as_secs(), nanos: d.subsec_nanos() }
}

// ----------------------------------------------------------------------------------------
// Timesteps
// ----------------------------------------------------------------------------------------

/// A timestep as plain values.
pub struct TimestepView {
    pub date: DateTimeView,
    pub index: int,
    pub duration: DurationView,
}

/// The zero-based day of the year of a datetime, counting a leap day in every year: in years
/// that are not leap years, the days after February 28 are counted one further on.
pub open spec fn day_of_year_index_spec(v: DateTimeView) -> int {
    let i = day_of_year_spec(v) - 1;
    if !is_leap_year(v.year) && i > 58 {
        i + 1
    } else {
        i
    }
}

/// Midnight of day `day` of month `month` of `year`.
pub open spec fn midnight_of(year: int, month: int, day: int) -> DateTimeView {
    DateTimeView { year, month, day, hour: 0, minute: 0, second: 0, nanosecond: 0 }
}

/// The day of the year counts the days of the months before the date's month, then the day:
/// January 1st is day 1; the first of each next month comes as many days after the first of
/// the month before as that month has; December 31st is the year's 365th or, in leap years,
/// 366th day; and the day of the year increases strictly with the date within a year. The
/// zero-based index counts a leap day in every year: it is the day of the year that the same
/// month and day have in a leap year, less one.
pub proof fn law_day_of_year_counts_the_months_before(year: int, month: int, a: DateTimeView, b: DateTimeView)
    requires
        1 <= month <= 11,
    ensures
        day_of_year_spec(midnight_of(year, 1, 1)) == 1,
        day_of_year_spec(midnight_of(year, month + 1, 1)) == day_of_year_spec(midnight_of(year, month, 1))
            + days_in_month(year, month),
        day_of_year_spec(midnight_of(year, 12, 31)) == if is_leap_year(year) {
            366int
        } else {
            365int
        },
        is_valid_datetime(a) ==> day_of_year_spec(a) == day_of_year_spec(midnight_of(a.year, a.month, 1)) + a.day - 1,
        is_valid_datetime(a) && is_valid_datetime(b) && a.year == b.year && (a.month < b.month || (a.month
            == b.month && a.day < b.day)) ==> day_of_year_spec(a) < day_of_year_spec(b),
        is_valid_datetime(a) ==> day_of_year_index_spec(a) == day_of_year_spec(midnight_of(2000, a.month, a.day)) - 1,
{
}

/// A time-step in a simulation: its date, its position, and its duration.
#[derive(Debug, Clone, Copy)]
pub struct Timestep {
    pub date: CivilDateTime,
    pub index: usize,
    pub duration: PywrDuration,
}

impl View for Timestep {
    type V = TimestepView;

    open spec fn view(&self) -> TimestepView {
        TimestepView { date: self.date@, index: self.index as int, duration: self.duration@ }
    }
}

proof fn lemma_day_of_year_range(v: DateTimeView)
    requires
        is_valid_datetime(v),
    ensures
        1 <= day_of_year_spec(v) <= 366,
        day_of_year_spec(v) == 366 ==> is_leap_year(v.year),
{
}

impl Timestep {
    pub fn new(date: CivilDateTime, index: usize, duration: PywrDuration) -> (r: Self)
        ensures
            r@ == (TimestepView { date: date@, index: index as int, duration: duration@ }),
    {
        Timestep { date, index, duration }
    }

    /// Whether this is the first timestep.
    pub fn is_first(&self) -> (r: bool)
        ensures
            r == (self.index == 0),
    {
        self.index == 0
    }

    /// Whether the timestep's date is in a leap year.
    pub fn is_leap_year(&self) -> (r: bool)
        ensures
            r == is_leap_year(self.date@.year),
    {
        year_is_leap(self.date.year())
    }

    /// The one-based day of the year of the timestep: January 1st is day 1, December 31st day
    /// 365, or 366 in leap years.
    pub fn day_of_year(&self) -> (r: usize)
        ensures
            r == day_of_year_spec(self.date@),
    {
        let d = self.date;
        proof {
            use_type_invariant(&d);
            lemma_day_of_year_range(d@);
        }
        day_of_year_of(&self.date) as usize
    }

    /// The zero-based day of the year of the timestep, counting a leap day in every year (see
    /// [`day_of_year_index_spec`]); within `0..366`.
    pub fn day_of_year_index(&self) -> (r: usize)
        ensures
            r == day_of_year_index_spec(self.date@),
            r < 366,
    {
        let d = self.date;
        proof {
            use_type_invariant(&d);
            lemma_day_of_year_range(d@);
        }
        let mut i = self.day_of_year() - 1;
        if !self.is_leap_year() && i > 58 {
            i = i + 1;
        }
        i
    }

    /// The next timestep, after this one by `duration`: `None` where its date would leave the
    /// range of datetimes.
    pub fn next(&self, duration: PywrDuration) -> (r: Option<Timestep>)
        requires
            self.index < usize::MAX,
        ensures
            match datetime_plus_duration(self.date@, duration@) {
                Some(date) => r matches Some(t) && t@ == (TimestepView {
                    date,
                    index: self.index + 1,
                    duration: duration@,
                }),
                None => r is None,
            },
    {
        match add_duration(&self.date, &duration) {
            Some(date) => Some(Timestep { date, index: self.index + 1, duration }),
            None => None,
        }
    }
}

/// How long the timesteps of a domain are: a number of hours or of days, or a frequency that
/// `jiff` parses as a span, such as `1mo`. Numbers of hours or days are at least one.
#[derive(Debug, Clone)]
pub enum TimestepDuration {
    Hours(u64),
    Days(u64),
    Frequency(String),
}

/// Errors raised while building a time domain.
#[derive(Debug)]
pub enum TimeDomainBuilderError {
    GenerationError(String),
    NoTimesteps,
    NonPositiveTimestepDuration,
    FrequencyParseError { source: jiff::Error },
    /// The timesteps run past the range of datetimes, a duration past that of durations, or
    /// their count past what an index and a step multiplier can hold (see [`timestep_limit`]).
    OutOfRange,
}

/// The most timesteps that a domain can hold: a timestep's index and the count of steps that
/// a span is multiplied by (an `i64`) must fit their types, the smaller of `usize::MAX` and
/// `i64::MAX`.
pub open spec fn timestep_limit() -> int {
    if usize::MAX < i64::MAX {
        usize::MAX as int
    } else {
        i64::MAX as int
    }
}

/// Whether `n` timesteps are as many as a domain can hold (see [`timestep_limit`]).
fn at_timestep_limit(n: usize) -> (r: bool)
    ensures
        r == (n >= timestep_limit()),
{
    n == usize::MAX || n as u64 >= 0x7fff_ffff_ffff_ffffu64
}

/// How a domain's dates follow each other.
pub enum StepView {
    /// Each date is the previous one moved on by a fixed duration.
    Fixed(DurationView),
    /// The date of step `k` is the start moved on by `k` times a span.
    Span(SpanView),
}

/// The date of step `k`, if each date up to it is one.
pub open spec fn step_date(start: DateTimeView, step: StepView, k: nat) -> Option<DateTimeView>
    decreases k,
{
    if k == 0 {
        Some(start)
    } else {
        match step {
            StepView::Fixed(d) => match step_date(start, step, (k - 1) as nat) {
                Some(prev) => datetime_plus_duration(prev, d),
                None => None,
            },
            StepView::Span(s) => match span_multiple(s, k as int) {
                Some(m) => datetime_plus_span(start, m),
                None => None,
            },
        }
    }
}

/// The duration of the timestep `k`: the fixed duration, or the time to the next date.
pub open spec fn step_duration(start: DateTimeView, step: StepView, k: nat) -> DurationView {
    match step {
        StepView::Fixed(d) => d,
        StepView::Span(_) => datetime_difference(
            step_date(start, step, k + 1)->Some_0,
            step_date(start, step, k)->Some_0,
        ),
    }
}

/// The timestep `k` of a domain.
pub open spec fn timestep_at(start: DateTimeView, step: StepView, k: nat) -> TimestepView {
    TimestepView { date: step_date(start, step, k)->Some_0, index: k as int, duration: step_duration(start, step, k) }
}

/// Step `k` is a timestep of the domain: its date is no later than the end, and the next date
/// is later than it.
pub open spec fn step_ok(start: DateTimeView, end: DateTimeView, step: StepView, k: nat) -> bool {
    &&& step_date(start, step, k) matches Some(x)
    &&& datetime_le(x, end)
    &&& step_date(start, step, k + 1) matches Some(y)
    &&& datetime_lt(x, y)
}

/// The first `n` steps are timesteps.
pub open spec fn steps_ok(start: DateTimeView, end: DateTimeView, step: StepView, n: nat) -> bool {
    forall|k: nat| k < n ==> #[trigger] step_ok(start, end, step, k)
}

/// The domain has exactly `n` timesteps: the first `n` steps are timesteps and the date of
/// step `n` is past the end.
pub open spec fn steps_end_at(start: DateTimeView, end: DateTimeView, step: StepView, n: nat) -> bool {
    &&& n <= timestep_limit()
    &&& steps_ok(start, end, step, n)
    &&& step_date(start, step, n) matches Some(x)
    &&& !datetime_le(x, end)
}

/// After `n` timesteps, the next date is no later than the date of step `n`, itself no later
/// than the end.
pub open spec fn steps_stall_at(start: DateTimeView, end: DateTimeView, step: StepView, n: nat) -> bool {
    &&& n < timestep_limit()
    &&& steps_ok(start, end, step, n)
    &&& step_date(start, step, n) matches Some(x)
    &&& datetime_le(x, end)
    &&& step_date(start, step, n + 1) matches Some(y)
    &&& !datetime_lt(x, y)
}

/// After `n` timesteps, with the date of step `n` no later than the end, the next date leaves
/// the range of datetimes, or the domain would hold more than [`timestep_limit`] timesteps.
pub open spec fn steps_overflow_at(start: DateTimeView, end: DateTimeView, step: StepView, n: nat) -> bool {
    &&& steps_ok(start, end, step, n)
    &&& step_date(start, step, n) matches Some(x)
    &&& datetime_le(x, end)
    &&& (n >= timestep_limit() || step_date(start, step, n + 1) is None)
}

/// What generating the timesteps of a domain gives.
pub enum GenerationOutcome {
    Steps(Seq<TimestepView>),
    Stalled,
    OutOfRange,
    ParseFailed,
    Other,
}

/// The outcome of a result of generation.
pub open spec fn outcome_of(r: Result<Vec<Timestep>, TimeDomainBuilderError>) -> GenerationOutcome {
    match r {
        Ok(ts) => GenerationOutcome::Steps(ts@.map_values(|t: Timestep| t@)),
        Err(TimeDomainBuilderError::NonPositiveTimestepDuration) => GenerationOutcome::Stalled,
        Err(TimeDomainBuilderError::OutOfRange) => GenerationOutcome::OutOfRange,
        Err(TimeDomainBuilderError::FrequencyParseError { .. }) => GenerationOutcome::ParseFailed,
        Err(_) => GenerationOutcome::Other,
    }
}

/// The timesteps from `start` to `end` by `step`: every step whose date is no later than the
/// end, each with its date, position and duration; or the stall or the overflow that stops
/// them.
pub open spec fn steps_outcome(start: DateTimeView, end: DateTimeView, step: StepView, o: GenerationOutcome) -> bool {
    match o {
        GenerationOutcome::Steps(ts) => steps_end_at(start, end, step, ts.len()) && forall|k: int|
            0 <= k < ts.len() ==> #[trigger] ts[k] == timestep_at(start, step, k as nat),
        GenerationOutcome::Stalled => exists|n: nat| #[trigger] steps_stall_at(start, end, step, n),
        GenerationOutcome::OutOfRange => exists|n: nat| #[trigger] steps_overflow_at(start, end, step, n),
        _ => false,
    }
}

/// A time domain's definition as plain values.
pub struct BuilderView {
    pub start: DateTimeView,
    pub end: DateTimeView,
    pub timestep: TimestepDuration,
}

/// The largest number of hours, and of days, whose duration in seconds is an `i64`.
pub open spec fn max_hours() -> int {
    i64::MAX / 3600
}

/// See [`max_hours`].
pub open spec fn max_days() -> int {
    i64::MAX / 86_400
}

/// What building the timesteps of a domain gives: a number of hours or days too large for a
/// duration is out of range, a frequency that `jiff` does not parse fails; otherwise the
/// timesteps from the start to the end (see [`steps_outcome`]).
pub open spec fn builder_outcome(b: BuilderView, o: GenerationOutcome) -> bool {
    match b.timestep {
        TimestepDuration::Hours(hours) => if hours > max_hours() {
            o is OutOfRange
        } else {
            steps_outcome(b.start, b.end, StepView::Fixed(DurationView { secs: hours * 3600, nanos: 0 }), o)
        },
        TimestepDuration::Days(days) => if days > max_days() {
            o is OutOfRange
        } else {
            steps_outcome(b.start, b.end, StepView::Fixed(DurationView { secs: days * 86_400, nanos: 0 }), o)
        },
        TimestepDuration::Frequency(text) => match parsed_span(text@) {
            None => o is ParseFailed,
            Some(span) => steps_outcome(b.start, b.end, StepView::Span(span), o),
        },
    }
}

/// How the dates of a domain follow each other.
enum Increment {
    Fixed(PywrDuration),
    Span(TimeSpan),
}

impl View for Increment {
    type V = StepView;

    closed spec fn view(&self) -> StepView {
        match self {
            Increment::Fixed(d) => StepView::Fixed(d@),
            Increment::Span(s) => StepView::Span(s@),
        }
    }
}

/// Defines the time domain of a simulation: its first and last dates and how long its
/// timesteps are.
#[derive(Debug, Clone)]
pub struct TimeDomainBuilder {
    start: CivilDateTime,
    end: CivilDateTime,
    timestep: TimestepDuration,
}

impl View for TimeDomainBuilder {
    type V = BuilderView;

    closed spec fn view(&self) -> BuilderView {
        BuilderView { start: self.start@, end: self.end@, timestep: self.timestep }
    }
}

proof fn lemma_steps_ok_extend(start: DateTimeView, end: DateTimeView, step: StepView, n: nat)
    requires
        steps_ok(start, end, step, n),
        step_ok(start, end, step, n),
    ensures
        steps_ok(start, end, step, n + 1),
{
    assert forall|k: nat| k < n + 1 implies #[trigger] step_ok(start, end, step, k) by {
        if k < n {
            assert(step_ok(start, end, step, k));
        }
    }
}

impl TimeDomainBuilder {
    pub fn new(start: CivilDateTime, end: CivilDateTime, timestep: TimestepDuration) -> (r: Self)
        ensures
            r@ == (BuilderView { start: start@, end: end@, timestep }),
    {
        TimeDomainBuilder { start, end, timestep }
    }

    /// The date of step `k`, given the date of step `k - 1`.
    fn next_date(&self, current: &CivilDateTime, step: &Increment, k: usize) -> (r: Option<CivilDateTime>)
        requires
            1 <= k <= timestep_limit(),
            step_date(self.start@, step@, (k - 1) as nat) == Some(current@),
        ensures
            match r {
                Some(d) => step_date(self.start@, step@, k as nat) == Some(d@),
                None => step_date(self.start@, step@, k as nat) is None,
            },
    {
        match step {
            Increment::Fixed(d) => add_duration(current, d),
            Increment::Span(s) => match span_times(s, k as i64) {
                Some(m) => add_span(&self.start, &m),
                None => None,
            },
        }
    }

    /// The timesteps from the start to the end by `step`: each date no later than the end,
    /// until the next one is later than it; an error where a next date is no later than the
    /// one before, or leaves the range of datetimes.
    fn generate(&self, step: &Increment) -> (r: Result<Vec<Timestep>, TimeDomainBuilderError>)
        ensures
            steps_outcome(self.start@, self.end@, step@, outcome_of(r)),
    {
        let ghost start = self.start@;
        let ghost end = self.end@;
        let mut timesteps: Vec<Timestep> = Vec::new();
        let mut current = self.start;
        while current.le(&self.end)
            invariant
                start == self.start@,
                end == self.end@,
                timesteps@.len() <= timestep_limit(),
                step_date(start, step@, timesteps@.len() as nat) == Some(current@),
                steps_ok(start, end, step@, timesteps@.len() as nat),
                forall|k: int|
                    0 <= k < timesteps@.len() ==> #[trigger] timesteps@[k]@ == timestep_at(start, step@, k as nat),
            decreases (if datetime_ordinal(current@) <= datetime_ordinal(end) {
                datetime_ordinal(end) - datetime_ordinal(current@) + 1
            } else {
                0
            }),
        {
            let n = timesteps.len();
            if at_timestep_limit(n) {
                proof {
                    assert(steps_overflow_at(start, end, step@, n as nat));
                }
                return Err(TimeDomainBuilderError::OutOfRange);
            }
            let next = match self.next_date(&current, step, n + 1) {
                Some(d) => d,
                None => {
                    proof {
                        assert(steps_overflow_at(start, end, step@, n as nat));
                    }
                    return Err(TimeDomainBuilderError::OutOfRange);
                },
            };
            if !current.lt(&next) {
                proof {
                    assert(steps_stall_at(start, end, step@, n as nat));
                }
                return Err(TimeDomainBuilderError::NonPositiveTimestepDuration);
            }
            let duration = match step {
                Increment::Fixed(d) => *d,
                Increment::Span(_) => duration_between(&next, &current),
            };
            let ghost prev = timesteps@;
            timesteps.push(Timestep { date: current, index: n, duration });
            proof {
                assert(step_ok(start, end, step@, n as nat));
                lemma_steps_ok_extend(start, end, step@, n as nat);
                assert(timesteps@[n as int]@ == timestep_at(start, step@, n as nat));
                assert forall|k: int| 0 <= k < timesteps@.len() implies #[trigger] timesteps@[k]@ == timestep_at(
                    start,
                    step@,
                    k as nat,
                ) by {
                    if k < n {
                        assert(timesteps@[k] == prev[k]);
                    }
                }
            }
            current = next;
        }
        proof {
            let views = timesteps@.map_values(|t: Timestep| t@);
            assert forall|k: int| 0 <= k < views.len() implies #[trigger] views[k] == timestep_at(start, step@, k as nat) by {
                assert(views[k] == timesteps@[k]@);
            }
            assert(steps_end_at(start, end, step@, views.len()));
        }
        Ok(timesteps)
    }

    /// The timesteps of a fixed duration from the start to the end.
    fn generate_timesteps_from_fixed_duration(&self, duration: PywrDuration) -> (r: Result<
        Vec<Timestep>,
        TimeDomainBuilderError,
    >)
        ensures
            steps_outcome(self.start@, self.end@, StepView::Fixed(duration@), outcome_of(r)),
    {
        self.generate(&Increment::Fixed(duration))
    }

    /// The timesteps from the start to the end at a frequency: the date of step `k` is the
    /// start moved on by `k` times the span.
    fn generate_timesteps_from_span(&self, span: TimeSpan) -> (r: Result<Vec<Timestep>, TimeDomainBuilderError>)
        ensures
            steps_outcome(self.start@, self.end@, StepView::Span(span@), outcome_of(r)),
    {
        self.generate(&Increment::Span(span))
    }

    /// The timesteps between the start and the end dates at the domain's duration (see
    /// [`builder_outcome`]).
    pub fn timesteps(&self) -> (r: Result<Vec<Timestep>, TimeDomainBuilderError>)
        ensures
            builder_outcome(self@, outcome_of(r)),
    {
        match &self.timestep {
            TimestepDuration::Hours(hours) => {
                if *hours > 2_562_047_788_015_215 {
                    return Err(TimeDomainBuilderError::OutOfRange);
                }
                self.generate_timesteps_from_fixed_duration(PywrDuration::from_hours(*hours as i64))
            },
            TimestepDuration::Days(days) => {
                if *days > 106_751_991_167_300 {
                    return Err(TimeDomainBuilderError::OutOfRange);
                }
                self.generate_timesteps_from_fixed_duration(PywrDuration::from_days(*days as i64))
            },
            TimestepDuration::Frequency(text) => match parse_span(text.as_str()) {
                Ok(span) => self.generate_timesteps_from_span(span),
                Err(source) => Err(TimeDomainBuilderError::FrequencyParseError { source }),
            },
        }
    }

    /// The time domain: its timesteps, of which there must be at least one.
    pub fn build(&self) -> (r: Result<TimeDomain, TimeDomainBuilderError>)
        ensures
            match r {
                Ok(domain) => domain@.len() > 0 && builder_outcome(self@, GenerationOutcome::Steps(domain@)),
                Err(TimeDomainBuilderError::NoTimesteps) => builder_outcome(
                    self@,
                    GenerationOutcome::Steps(Seq::empty()),
                ),
                Err(e) => builder_outcome(self@, outcome_of(Err(e))),
            },
    {
        let timesteps = match self.timesteps() {
            Ok(timesteps) => timesteps,
            Err(e) => {
                return Err(e);
            },
        };
        if timesteps.len() == 0 {
            proof {
                assert(timesteps@.map_values(|t: Timestep| t@) =~= Seq::<TimestepView>::empty());
            }
            return Err(TimeDomainBuilderError::NoTimesteps);
        }
        proof {
            let views = timesteps@.map_values(|t: Timestep| t@);
            let b = self@;
            match b.timestep {
                TimestepDuration::Hours(hours) => {
                    law_timesteps_in_order(b.start, b.end, StepView::Fixed(DurationView { secs: hours * 3600, nanos: 0 }), views);
                },
                TimestepDuration::Days(days) => {
                    law_timesteps_in_order(b.start, b.end, StepView::Fixed(DurationView { secs: days * 86_400, nanos: 0 }), views);
                },
                TimestepDuration::Frequency(text) => {
                    law_timesteps_in_order(b.start, b.end, StepView::Span(parsed_span(text@)->Some_0), views);
                },
            }
            assert forall|i: int, j: int| 0 <= i < j < timesteps@.len() implies datetime_lt(
                #[trigger] timesteps@[i].date@,
                #[trigger] timesteps@[j].date@,
            ) by {
                assert(views[i] == timesteps@[i]@);
                assert(views[j] == timesteps@[j]@);
                assert(datetime_lt(views[i].date, views[j].date));
            }
        }
        Ok(TimeDomain { timesteps })
    }
}

// ----------------------------------------------------------------------------------------
// Time domains
// ----------------------------------------------------------------------------------------

/// The time domain that a model is simulated over: at least one timestep.
#[derive(Debug)]
pub struct TimeDomain {
    timesteps: Vec<Timestep>,
}

impl View for TimeDomain {
    type V = Seq<TimestepView>;

    closed spec fn view(&self) -> Seq<TimestepView> {
        self.timesteps@.map_values(|t: Timestep| t@)
    }
}

impl TimeDomain {
    #[verifier::type_invariant]
    spec fn has_timesteps(self) -> bool {
        &&& self.timesteps@.len() > 0
        &&& forall|i: int, j: int|
            0 <= i < j < self.timesteps@.len() ==> datetime_lt(
                #[trigger] self.timesteps@[i].date@,
                #[trigger] self.timesteps@[j].date@,
            )
    }

    /// There is at least one timestep, and the timesteps' dates increase strictly from the
    /// first to the last.
    pub fn dates_increase(&self)
        ensures
            self@.len() > 0,
            forall|i: int, j: int| 0 <= i < j < self@.len() ==> datetime_lt(#[trigger] self@[i].date, #[trigger] self@[j].date),
    {
        proof {
            use_type_invariant(self);
            assert forall|i: int, j: int| 0 <= i < j < self@.len() implies datetime_lt(
                #[trigger] self@[i].date,
                #[trigger] self@[j].date,
            ) by {
                assert(self@[i] == self.timesteps@[i]@);
                assert(self@[j] == self.timesteps@[j]@);
            }
        }
    }

    /// The duration shared by every timestep, if they all have the same.
    pub fn fixed_step_duration(&self) -> (r: Option<PywrDuration>)
        ensures
            match r {
                Some(d) => d@ == self@[0].duration && forall|k: int| 0 <= k < self@.len() ==> #[trigger] self@[k].duration == d@,
                None => exists|k: int| 0 <= k < self@.len() && #[trigger] self@[k].duration != self@[0].duration,
            },
    {
        proof {
            use_type_invariant(self);
        }
        let first = self.timesteps[0].duration;
        let ghost views = self@;
        let mut i: usize = 0;
        while i < self.timesteps.len()
            invariant
                i <= self.timesteps@.len(),
                self.timesteps@.len() > 0,
                views == self@,
                views == self.timesteps@.map_values(|t: Timestep| t@),
                first@ == views[0].duration,
                forall|k: int| 0 <= k < i ==> #[trigger] views[k].duration == first@,
            decreases self.timesteps@.len() - i,
        {
            proof {
                assert(views[i as int] == self.timesteps@[i as int]@);
            }
            if self.timesteps[i].duration != first {
                proof {
                    lemma_duration_view_injective(self.timesteps@[i as int].duration, first);
                    assert(views[i as int].duration != views[0].duration);
                }
                return None;
            }
            i = i + 1;
        }
        Some(first)
    }

    /// The timesteps, in order.
    pub fn timesteps(&self) -> (r: &[Timestep])
        ensures
            r@.map_values(|t: Timestep| t@) == self@,
    {
        self.timesteps.as_slice()
    }

    /// The total number of timesteps in the domain.
    pub fn len(&self) -> (r: usize)
        ensures
            r == self@.len(),
    {
        self.timesteps.len()
    }

    /// The first timestep.
    pub fn first_timestep(&self) -> (r: &Timestep)
        ensures
            r@ == self@[0],
    {
        proof {
            use_type_invariant(self);
        }
        &self.timesteps[0]
    }

    /// The last timestep.
    pub fn last_timestep(&self) -> (r: &Timestep)
        ensures
            r@ == self@[self@.len() - 1],
    {
        proof {
            use_type_invariant(self);
        }
        &self.timesteps[self.timesteps.len() - 1]
    }

    /// Whether the domain has no timesteps; never, as a domain is built with at least one.
    pub fn is_empty(&self) -> (r: bool)
        ensures
            r == (self@.len() == 0),
            !r,
    {
        proof {
            use_type_invariant(self);
        }
        self.timesteps.len() == 0
    }
}

// ----------------------------------------------------------------------------------------
// Laws
// ----------------------------------------------------------------------------------------

proof fn lemma_steps_increase(start: DateTimeView, end: DateTimeView, step: StepView, n: nat, i: nat, j: nat)
    requires
        steps_ok(start, end, step, n),
        i < j <= n,
    ensures
        step_date(start, step, i) matches Some(x) && step_date(start, step, j) matches Some(y) && datetime_lt(x, y),
    decreases j - i,
{
    assert(step_ok(start, end, step, i));
    if j > i + 1 {
        lemma_steps_increase(start, end, step, n, i + 1, j);
    }
}

/// The timesteps that a domain is generated with start at its start, follow each other in
/// strictly increasing order of date, are numbered by their position, and end no later than
/// its end.
pub proof fn law_timesteps_in_order(start: DateTimeView, end: DateTimeView, step: StepView, ts: Seq<TimestepView>)
    requires
        steps_outcome(start, end, step, GenerationOutcome::Steps(ts)),
    ensures
        ts.len() > 0 ==> ts[0].date == start,
        forall|k: int| 0 <= k < ts.len() ==> #[trigger] ts[k].index == k && datetime_le(ts[k].date, end),
        forall|i: int, j: int| 0 <= i < j < ts.len() ==> datetime_lt(#[trigger] ts[i].date, #[trigger] ts[j].date),
{
    assert forall|k: int| 0 <= k < ts.len() implies #[trigger] ts[k].index == k && datetime_le(ts[k].date, end) by {
        assert(ts[k] == timestep_at(start, step, k as nat));
        assert(step_ok(start, end, step, k as nat));
    }
    assert forall|i: int, j: int| 0 <= i < j < ts.len() implies datetime_lt(#[trigger] ts[i].date, #[trigger] ts[j].date) by {
        assert(ts[i] == timestep_at(start, step, i as nat));
        assert(ts[j] == timestep_at(start, step, j as nat));
        lemma_steps_increase(start, end, step, ts.len(), i as nat, j as nat);
    }
    if ts.len() > 0 {
        assert(ts[0] == timestep_at(start, step, 0));
    }
}

} // verus!
