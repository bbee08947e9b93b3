//! The local date and time, for the heartbeat.

use crate::heartbeat::Clock;
use vstd::prelude::*;

verus! {

/// The low eight bits of a number.
pub open spec fn low_byte(value: u16) -> u8 {
    (value % 256) as u8
}

/// The clock that the fields of a system time make up. Windows holds each in
/// sixteen bits; all but the year fit in eight.
pub fn clock_from(
    year: u16,
    month: u16,
    day: u16,
    hour: u16,
    minute: u16,
    second: u16,
) -> (clock: Clock)
    ensures
        clock == (Clock {
            year,
            month: low_byte(month),
            day: low_byte(day),
            hour: low_byte(hour),
            minute: low_byte(minute),
            second: low_byte(second),
        }),
{
    Clock {
        year,
        month: (month % 256) as u8,
        day: (day % 256) as u8,
        hour: (hour % 256) as u8,
        minute: (minute % 256) as u8,
        second: (second % 256) as u8,
    }
}

} // verus!
