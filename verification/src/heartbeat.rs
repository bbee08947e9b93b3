//! The broadcast the fans expect once a second.
//!
//! The firmware treats the master clock as proof that a host is present.
//! Without it the fans fall back to running on their own, with the
//! occasional burst of speed. The block it carries also feeds the readouts
//! on fans that have screens; fans without them ignore it.

use crate::bytes;
use crate::bytes::{be16_bytes, put};
use crate::frame::{RfPayload, RF_PAYLOAD_LEN};
use vstd::prelude::*;

verus! {

/// How often the heartbeat must go out, in nanoseconds.
pub const INTERVAL: u128 = 1_000_000_000;

/// Bytes in the block a heartbeat carries.
pub const BLOCK_LEN: usize = 220;

pub const SELECT: u8 = 0x12;

pub const CLOCK_SYNC: u8 = 0x14;

pub const UNSET: u8 = 0x14;

/// Values shown on fans with screens. Anything left at zero shows as zero.
#[derive(Debug, Clone, Copy, PartialEq, Eq)]
pub struct Readings {
    /// CPU temperature in degrees Celsius.
    pub cpu_temp: u8,
    /// CPU load in percent.
    pub cpu_load: u8,
    /// GPU temperature in degrees Celsius.
    pub gpu_temp: u8,
    /// GPU load in percent.
    pub gpu_load: u8,
    /// CPU clock in megahertz.
    pub cpu_mhz: u16,
    /// GPU clock in megahertz.
    pub gpu_mhz: u16,
}

/// Readings that all show as zero.
pub open spec fn no_readings() -> Readings {
    Readings { cpu_temp: 0, cpu_load: 0, gpu_temp: 0, gpu_load: 0, cpu_mhz: 0, gpu_mhz: 0 }
}

impl Default for Readings {
    fn default() -> (r: Self)
        ensures
            r == no_readings(),
    {
        Readings { cpu_temp: 0, cpu_load: 0, gpu_temp: 0, gpu_load: 0, cpu_mhz: 0, gpu_mhz: 0 }
    }
}

/// Local date and time.
#[derive(Debug, Clone, Copy, PartialEq, Eq)]
pub struct Clock {
    /// Full year.
    pub year: u16,
    /// Month, 1 to 12.
    pub month: u8,
    /// Day of the month, 1 to 31.
    pub day: u8,
    /// Hour, 0 to 23.
    pub hour: u8,
    /// Minute, 0 to 59.
    pub minute: u8,
    /// Second, 0 to 59.
    pub second: u8,
}

impl Default for Clock {
    fn default() -> (r: Self)
        ensures
            r == (Clock { year: 0, month: 0, day: 0, hour: 0, minute: 0, second: 0 }),
    {
        Clock { year: 0, month: 0, day: 0, hour: 0, minute: 0, second: 0 }
    }
}

/// The bytes of a block: the readings in front, the clock from byte 32 on,
/// zeros elsewhere.
pub open spec fn block_bytes(readings: Readings, clock: Clock) -> Seq<u8> {
    seq![
        readings.cpu_temp,
        readings.cpu_load,
        readings.gpu_temp,
        readings.gpu_load,
        (readings.cpu_mhz / 256) as u8,
        (readings.cpu_mhz % 256) as u8,
        (readings.gpu_mhz / 256) as u8,
        (readings.gpu_mhz % 256) as u8,
    ] + bytes::zeros(24) + seq![
        (clock.year / 256) as u8,
        (clock.year % 256) as u8,
        clock.month,
        clock.day,
        clock.hour,
        clock.minute,
        clock.second,
    ] + bytes::zeros(181)
}

/// The block a heartbeat carries.
pub fn block(readings: &Readings, clock: &Clock) -> (block: [u8; BLOCK_LEN])
    ensures
        block@ == block_bytes(*readings, *clock),
{
    let mut block = [0u8; BLOCK_LEN];
    block[0] = readings.cpu_temp;
    block[1] = readings.cpu_load;
    block[2] = readings.gpu_temp;
    block[3] = readings.gpu_load;
    put(&mut block, 4, &be16_bytes(readings.cpu_mhz));
    put(&mut block, 6, &be16_bytes(readings.gpu_mhz));
    put(&mut block, 32, &be16_bytes(clock.year));
    block[34] = clock.month;
    block[35] = clock.day;
    block[36] = clock.hour;
    block[37] = clock.minute;
    block[38] = clock.second;
    assert(block@ =~= block_bytes(*readings, *clock));
    block
}

/// The bytes of one heartbeat: the command, the sender, then the block, of
/// which the first heartbeat marks the leading fifty bytes as unset.
pub open spec fn payload_bytes(master_mac: Seq<u8>, block: Seq<u8>, first: bool) -> Seq<u8> {
    seq![SELECT, CLOCK_SYNC] + bytes::zeros(6) + master_mac + (if first {
        Seq::new(50, |i: int| UNSET) + block.skip(50)
    } else {
        block
    }) + bytes::zeros(6)
}

/// The radio payload of one heartbeat, broadcast from `master_mac`.
///
/// The first heartbeat after connecting is sent with `first` set: the
/// receivers then take the leading part of the block as unset and read only
/// its tail. Every later heartbeat carries the whole block.
pub fn payload(master_mac: &[u8; 6], block: &[u8; BLOCK_LEN], first: bool) -> (data: RfPayload)
    ensures
        data@ == payload_bytes(master_mac@, block@, first),
{
    let mut data = [0u8; RF_PAYLOAD_LEN];
    data[0] = SELECT;
    data[1] = CLOCK_SYNC;
    put(&mut data, 8, master_mac);
    put(&mut data, 14, block);
    if first {
        let head = [UNSET; 50];
        put(&mut data, 14, &head);
    }
    assert(data@ =~= payload_bytes(master_mac@, block@, first));
    data
}

} // verus!
