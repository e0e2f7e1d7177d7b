//! When a virtual storage is active and when its volume is reset.

use vstd::prelude::*;

use crate::timestep::{CivilDateTime, Timestep};

verus! {

/// A month of the year.
#[derive(Debug, Clone, Copy, PartialEq, Eq, Structural)]
pub enum Month {
    January,
    February,
    March,
    April,
    May,
    June,
    July,
    August,
    September,
    October,
    November,
    December,
}

/// The number of a month, from 1 for January to 12 for December.
pub open spec fn month_number(m: Month) -> u32 {
    match m {
        Month::January => 1,
        Month::February => 2,
        Month::March => 3,
        Month::April => 4,
        Month::May => 5,
        Month::June => 6,
        Month::July => 7,
        Month::August => 8,
        Month::September => 9,
        Month::October => 10,
        Month::November => 11,
        Month::December => 12,
    }
}

impl Month {
    /// The number of the month, from 1 for January to 12 for December.
    pub fn number_from_month(&self) -> (r: u32)
        ensures
            r == month_number(*self),
    {
        match self {
            Month::January => 1,
            Month::February => 2,
            Month::March => 3,
            Month::April => 4,
            Month::May => 5,
            Month::June => 6,
            Month::July => 7,
            Month::August => 8,
            Month::September => 9,
            Month::October => 10,
            Month::November => 11,
            Month::December => 12,
        }
    }
}

/// Defines when the virtual storage volume should be reset.
#[derive(Debug, Clone, Copy)]
pub enum VirtualStorageReset {
    Never,
    DayOfYear { day: u32, month: Month },
    NumberOfMonths { months: i32 },
}

/// When resetting the virtual storage volume, this enum defines how much volume to set.
#[derive(Debug, Clone, Copy, PartialEq, Eq, Structural)]
pub enum VirtualStorageResetVolume {
    Initial,
    Max,
}

/// Active periods for a virtual storage node.
#[derive(Debug, Clone, Copy)]
pub enum VirtualStorageActivePeriod {
    Always,
    Period { start_day: u32, start_month: Month, end_day: u32, end_month: Month },
}

/// The day `(month, day)` falls on or after `(m, d)` within a year.
pub open spec fn on_or_after(month: u32, day: u32, m: u32, d: u32) -> bool {
    month > m || (month == m && day >= d)
}

/// Whether a period is active on day `day` of month `month`: between its start and its end,
/// both included, where a period that ends before it starts wraps around the end of the year.
pub open spec fn active_on(p: VirtualStorageActivePeriod, month: u32, day: u32) -> bool {
    match p {
        VirtualStorageActivePeriod::Always => true,
        VirtualStorageActivePeriod::Period { start_day, start_month, end_day, end_month } => {
            let sm = month_number(start_month);
            let em = month_number(end_month);
            let after_start = on_or_after(month, day, sm, start_day);
            let before_end = on_or_after(em, end_day, month, day);
            if on_or_after(em, end_day, sm, start_day) {
                after_start && before_end
            } else {
                after_start || before_end
            }
        },
    }
}

impl VirtualStorageActivePeriod {
    /// Whether the period is active on day `day` of month `month`.
    pub fn is_active_on(&self, month: u32, day: u32) -> (r: bool)
        ensures
            r == active_on(*self, month, day),
    {
        match self {
            VirtualStorageActivePeriod::Always => true,
            VirtualStorageActivePeriod::Period { start_day, start_month, end_day, end_month } => {
                let start_month_num = start_month.number_from_month();
                let end_month_num = end_month.number_from_month();
                if start_month_num < end_month_num || (start_month_num == end_month_num && start_day
                    <= end_day) {
                    // Period does not wrap around the year end
                    (month > start_month_num || (month == start_month_num && day >= *start_day)) && (
                    month < end_month_num || (month == end_month_num && day <= *end_day))
                } else {
                    // Period wraps around the year end
                    (month > start_month_num || (month == start_month_num && day >= *start_day)) || (
                    month < end_month_num || (month == end_month_num && day <= *end_day))
                }
            },
        }
    }

    /// Whether the period is active on `date`: [`active_on`] the date's month and day.
    pub fn is_active(&self, date: &CivilDateTime) -> (r: bool)
        ensures
            r == active_on(*self, date@.month as u32, date@.day as u32),
    {
        let m = date.month() as u32;
        let d = date.day() as u32;
        self.is_active_on(m, d)
    }
}

/// The number of whole calendar months from `(last_year, last_month)` to `(year, month)`.
pub open spec fn months_between(year: int, month: int, last_year: int, last_month: int) -> int {
    (year - last_year) * 12 + month - last_month
}

/// The number of calendar months from a month to another, the days ignored.
pub fn months_between_dates(year: i32, month: u32, last_year: i32, last_month: u32) -> (r: i32)
    requires
        -262144 <= year <= 262143,
        -262144 <= last_year <= 262143,
        1 <= month <= 12,
        1 <= last_month <= 12,
    ensures
        r == months_between(year as int, month as int, last_year as int, last_month as int),
{
    (year - last_year) * 12 + month as i32 - last_month as i32
}

/// Calculate the number of months between `current` and `last_reset`, the days ignored.
pub fn months_since_last_reset(current: &CivilDateTime, last_reset: &CivilDateTime) -> (r: i32)
    ensures
        r == months_between(current@.year, current@.month, last_reset@.year, last_reset@.month),
{
    months_between_dates(
        current.year() as i32,
        current.month() as u32,
        last_reset.year() as i32,
        last_reset.month() as u32,
    )
}

/// Whether the volume is due for a reset on a date of month `month` and day `day`, given
/// whether this is the first time-step, whether the storage is active, and the number of months
/// since the last reset where there was one.
pub open spec fn reset_due(
    is_first: bool,
    is_active: bool,
    reset: VirtualStorageReset,
    month: u32,
    day: u32,
    months_since_reset: Option<i32>,
) -> bool {
    if is_first || !is_active {
        true
    } else {
        match reset {
            VirtualStorageReset::Never => false,
            VirtualStorageReset::DayOfYear { day: d, month: m } => day == d && month == month_number(m),
            VirtualStorageReset::NumberOfMonths { months } => match months_since_reset {
                Some(n) => n >= months,
                None => true,
            },
        }
    }
}

impl VirtualStorageReset {
    /// Whether the volume is due for a reset at `date`: always on the first time-step and
    /// outside the active period, else as the reset rule says; a rule by months resets when no
    /// reset happened before.
    pub fn is_due_on(
        &self,
        is_first: bool,
        is_active: bool,
        month: u32,
        day: u32,
        months_since_reset: Option<i32>,
    ) -> (r: bool)
        ensures
            r == reset_due(is_first, is_active, *self, month, day, months_since_reset),
    {
        if is_first {
            true
        } else if !is_active {
            true
        } else {
            match self {
                VirtualStorageReset::Never => false,
                VirtualStorageReset::DayOfYear { day: d, month: m } => day == *d && month == m.number_from_month(),
                VirtualStorageReset::NumberOfMonths { months } => match months_since_reset {
                    Some(n) => n >= *months,
                    None => true,
                },
            }
        }
    }

    /// Whether the volume is due for a reset at `timestep`, given whether the storage is active
    /// then and the date of the last reset, if there was one.
    pub fn is_due(&self, timestep: &Timestep, is_active: bool, last_reset: Option<&CivilDateTime>) -> (r: bool)
        ensures
            r == reset_due(
                timestep.index == 0,
                is_active,
                *self,
                timestep.date@.month as u32,
                timestep.date@.day as u32,
                match last_reset {
                    Some(last) => Some(
                        months_between(timestep.date@.year, timestep.date@.month, last@.year, last@.month) as i32,
                    ),
                    None => None,
                },
            ),
    {
        let m = timestep.date.month() as u32;
        let d = timestep.date.day() as u32;
        let n = match last_reset {
            Some(last) => Some(months_since_last_reset(&timestep.date, last)),
            None => None,
        };
        self.is_due_on(timestep.is_first(), is_active, m, d, n)
    }
}

/// A period is active on the day it starts and on the day it ends.
pub proof fn law_period_contains_its_ends(start_day: u32, start_month: Month, end_day: u32, end_month: Month)
    ensures
        active_on(
            VirtualStorageActivePeriod::Period { start_day, start_month, end_day, end_month },
            month_number(start_month),
            start_day,
        ),
        active_on(
            VirtualStorageActivePeriod::Period { start_day, start_month, end_day, end_month },
            month_number(end_month),
            end_day,
        ),
{
}

/// Months are numbered 1 to 12 in calendar order, each with its own number.
pub proof fn law_months_are_numbered_in_order(a: Month, b: Month)
    ensures
        1 <= month_number(a) <= 12,
        month_number(a) == month_number(b) ==> a == b,
        month_number(Month::January) == 1,
        month_number(Month::April) == 4,
        month_number(Month::December) == 12,
        forall|m: Month| #[trigger] month_number(m) < 12 ==> exists|n: Month| #[trigger] month_number(n)
            == month_number(m) + 1,
{
    assert forall|m: Month| #[trigger] month_number(m) < 12 implies exists|n: Month| #[trigger] month_number(n)
        == month_number(m) + 1 by {
        match m {
            Month::January => assert(month_number(Month::February) == 2),
            Month::February => assert(month_number(Month::March) == 3),
            Month::March => assert(month_number(Month::April) == 4),
            Month::April => assert(month_number(Month::May) == 5),
            Month::May => assert(month_number(Month::June) == 6),
            Month::June => assert(month_number(Month::July) == 7),
            Month::July => assert(month_number(Month::August) == 8),
            Month::August => assert(month_number(Month::September) == 9),
            Month::September => assert(month_number(Month::October) == 10),
            Month::October => assert(month_number(Month::November) == 11),
            Month::November => assert(month_number(Month::December) == 12),
            Month::December => {},
        }
    }
}

/// A reset on a day of the year happens, within the active period and after the first
/// time-step, exactly on that day of that month: on no other day of the same month and on
/// that day of no other month, so at most once a year. Outside the active period, and on the
/// first time-step, the volume is always reset.
pub proof fn law_day_of_year_reset_only_on_its_date(
    day: u32,
    month: Month,
    is_first: bool,
    is_active: bool,
    m: u32,
    d: u32,
    m2: u32,
    d2: u32,
    n: Option<i32>,
)
    ensures
        reset_due(false, true, VirtualStorageReset::DayOfYear { day, month }, m, d, n) <==> (m == month_number(
            month,
        ) && d == day),
        reset_due(false, true, VirtualStorageReset::DayOfYear { day, month }, m, d, n) && reset_due(
            false,
            true,
            VirtualStorageReset::DayOfYear { day, month },
            m2,
            d2,
            n,
        ) ==> m == m2 && d == d2,
        (is_first || !is_active) ==> reset_due(is_first, is_active, VirtualStorageReset::DayOfYear { day, month }, m, d, n),
        reset_due(false, true, VirtualStorageReset::DayOfYear { day: 1, month: Month::April }, m, d, n) ==> (m == 4
            && d == 1),
{
}

} // verus!
