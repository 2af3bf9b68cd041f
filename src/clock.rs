//! A moment of the week, as the schedule evaluator reads the local time.
use vstd::prelude::*;
use crate::schedule::{day_from_monday, Weekday};

verus! {

/// A moment of the week: the day and the minutes since midnight.
#[derive(Clone, Copy, PartialEq, Eq, Structural, Debug)]
pub struct LocalTime {
    pub day: Weekday,
    pub minutes: u32,
}

/// The day and minute of the week for a day number (Monday as zero), an
/// hour and a minute.
pub fn local_time_of(day: u32, hour: u32, minute: u32) -> (r: LocalTime)
    requires
        day < 7,
        hour < 24,
        minute < 60,
    ensures
        r.day == day_from_monday(day as int),
        r.minutes == hour * 60 + minute,
        r.minutes < 1440,
{
    LocalTime { day: Weekday::from_days_from_monday(day), minutes: hour * 60 + minute }
}

} // verus!
