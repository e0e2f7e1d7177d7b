//! The records that the HDF5 output keeps of each timestep.

use vstd::prelude::*;

use crate::timestep::Timestep;

verus! {

/// The datetime of a timestep as the HDF5 output records it: the timestep's index, then its
/// date and time to the second.
#[derive(Debug, Clone, Copy)]
pub struct DateTime {
    index: usize,
    year: i32,
    month: u8,
    day: u8,
    hour: u8,
    minute: u8,
    second: u8,
}

impl View for DateTime {
    type V = (int, int, int, int, int, int, int);

    closed spec fn view(&self) -> (int, int, int, int, int, int, int) {
        (
            self.index as int,
            self.year as int,
            self.month as int,
            self.day as int,
            self.hour as int,
            self.minute as int,
            self.second as int,
        )
    }
}

impl DateTime {
    /// The record of a timestep.
    pub fn from_timestamp(ts: &Timestep) -> (r: Self)
        ensures
            r@ == (
                ts.index as int,
                ts.date@.year,
                ts.date@.month,
                ts.date@.day,
                ts.date@.hour,
                ts.date@.minute,
                ts.date@.second,
            ),
    {
        DateTime {
            index: ts.index,
            year: ts.date.year() as i32,
            month: ts.date.month() as u8,
            day: ts.date.day() as u8,
            hour: ts.date.hour() as u8,
            minute: ts.date.minute() as u8,
            second: ts.date.second() as u8,
        }
    }
}

} // verus!
