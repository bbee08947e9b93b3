//! The receiver's answer to a discovery request.
//!
//! The reply starts with a four-byte header and continues with one 42-byte
//! record per device the receiver can hear, in the order the receiver
//! lists them. The dongle itself appears as a master record; everything
//! else is a device record with its fans' speeds and duties.

use crate::bytes;
use crate::bytes::{array_at, from_be16, is_zero};
use crate::frame::{RECORDS_PER_PAGE, SEND_RF};
use crate::text;
use vstd::prelude::*;

verus! {

/// Bytes before the first record.
pub const HEADER_LEN: usize = 4;

/// Bytes in one record.
pub const RECORD_LEN: usize = 42;

/// Fans a record can describe.
pub const FANS_PER_GROUP: usize = 4;

pub const MARKER: u8 = 0x1C;

pub const MASTER: u8 = 0xFF;

/// Why a reply could not be read.
#[derive(Debug, Clone, Copy, PartialEq, Eq)]
pub enum Error {
    /// Fewer than [`HEADER_LEN`] bytes.
    Short,
    /// The command byte is not a discovery reply.
    WrongCommand(u8),
    /// The reply ends before the records its header promises.
    Truncated {
        /// Bytes the header implies.
        expected: usize,
        /// Bytes received.
        actual: usize,
    },
}

impl Error {
    /// The error as text.
    pub open spec fn text_of(self) -> Seq<char> {
        match self {
            Error::Short => "discovery reply shorter than its header"@,
            Error::WrongCommand(command) => "discovery reply has command byte 0x"@ + text::hex_of(
                command,
            ),
            Error::Truncated { expected, actual } => "discovery reply truncated: "@
                + text::decimal_of(actual as nat) + " of "@ + text::decimal_of(expected as nat)
                + " bytes"@,
        }
    }

    /// The error as text.
    pub fn text(&self) -> (r: String)
        ensures
            r@ == self.text_of(),
    {
        match self {
            Error::Short => text::owned("discovery reply shorter than its header"),
            Error::WrongCommand(command) => text::owned(
                "discovery reply has command byte 0x",
            ).concat(text::hex(*command).as_str()),
            Error::Truncated { expected, actual } => text::owned(
                "discovery reply truncated: ",
            ).concat(text::decimal(*actual as u64).as_str()).concat(" of ").concat(
                text::decimal(*expected as u64).as_str(),
            ).concat(" bytes"),
        }
    }
}

/// The dongle's own entry in a reply.
#[derive(Debug, Clone, Copy, PartialEq, Eq)]
pub struct Master {
    /// Address of the dongle.
    pub mac: [u8; 6],
    /// Channel it reports.
    pub channel: u8,
}

/// One group of fans, or another device bound to a dongle.
#[derive(Debug, Clone, Copy, PartialEq, Eq)]
pub struct Device {
    /// Address of the group's receiver.
    pub mac: [u8; 6],
    /// Address of the dongle the group is bound to.
    pub master_mac: [u8; 6],
    /// Channel the group is on.
    pub channel: u8,
    /// Receiver type, named in every radio frame sent to the group.
    pub receiver: u8,
    /// Kind of device: 0 for fans, other values for lighting and coolers.
    pub device_type: u8,
    /// Fans attached, at most [`FANS_PER_GROUP`].
    pub fan_count: u8,
    /// Whether the fans chain from the right, which reverses their slots.
    pub right_attach: bool,
    /// Lighting effect the receiver is running.
    pub effect: [u8; 4],
    /// Fan model byte for each slot.
    pub fan_types: [u8; 4],
    /// Speed of each fan in revolutions per minute.
    pub rpm: [u16; FANS_PER_GROUP],
    /// Duty the receiver is applying to each fan, 0 to 255.
    pub duty: [u8; FANS_PER_GROUP],
    /// Sequence number of the last command the receiver took.
    pub sequence: u8,
    /// Whether a PWM line is connected to the receiver.
    pub pwm_line: bool,
    /// Whether the receiver mirrors the motherboard's lighting.
    pub light_sync: bool,
}

/// A parsed reply.
#[derive(Debug, Clone, PartialEq, Eq)]
pub struct Reply {
    /// Devices the receiver says it can hear, including masters.
    pub reported: u8,
    /// Dongles seen, in reply order.
    pub masters: Vec<Master>,
    /// Devices seen, in reply order, malformed records left out.
    pub devices: Vec<Device>,
    /// Records left out for a bad marker or a zero address.
    pub skipped: u8,
}

/// Whether a record ends in its marker and names an address.
pub open spec fn is_sound(record: Seq<u8>) -> bool {
    record.len() >= RECORD_LEN && record[41] == MARKER && record.subrange(0, 6) != bytes::zeros(6)
}

/// Whether a record is a dongle's own entry.
pub open spec fn is_master(record: Seq<u8>) -> bool {
    is_sound(record) && record[18] == MASTER
}

/// Whether a record describes a bound device.
pub open spec fn is_device(record: Seq<u8>) -> bool {
    is_sound(record) && record[18] != MASTER
}

/// Four bytes of a record.
pub open spec fn four_at(record: Seq<u8>, at: int) -> [u8; 4] {
    [record[at], record[at + 1], record[at + 2], record[at + 3]]
}

/// An address in a record.
pub open spec fn address_at(record: Seq<u8>, at: int) -> [u8; 6] {
    [record[at], record[at + 1], record[at + 2], record[at + 3], record[at + 4], record[at + 5]]
}

/// What a dongle's own entry says.
pub open spec fn master_in(record: Seq<u8>) -> Master {
    Master { mac: address_at(record, 0), channel: record[12] }
}

/// The fans that a record's count byte stands for: ten is added to it where
/// they chain from the right, and no more than four count.
pub open spec fn fans_of(raw: u8) -> (u8, bool) {
    let n: int = if raw >= 10 {
        raw - 10
    } else {
        raw as int
    };
    ((if n < 4 {
        n
    } else {
        4
    }) as u8, raw >= 10)
}

/// The speed that a record holds for a slot; the upper four bits of its
/// first byte carry flags.
pub open spec fn rpm_at(record: Seq<u8>, slot: int) -> u16 {
    bytes::be16(record[28 + 2 * slot] & 0x0F, record[29 + 2 * slot]) as u16
}

/// What a device's record says.
pub open spec fn device_in(record: Seq<u8>) -> Device {
    Device {
        mac: address_at(record, 0),
        master_mac: address_at(record, 6),
        channel: record[12],
        receiver: record[13],
        device_type: record[18],
        fan_count: fans_of(record[19]).0,
        right_attach: fans_of(record[19]).1,
        effect: four_at(record, 20),
        fan_types: four_at(record, 24),
        rpm: [rpm_at(record, 0), rpm_at(record, 1), rpm_at(record, 2), rpm_at(record, 3)],
        duty: four_at(record, 36),
        sequence: record[40],
        pwm_line: record[28] & 0x20 != 0,
        light_sync: record[28] & 0x40 != 0,
    }
}

/// How many records a reply holds: as many as its header reports, held to
/// what `pages` pages, at least one, can carry.
pub open spec fn record_count(reply: Seq<u8>, pages: u8) -> int {
    let capacity = if pages == 0 {
        10
    } else {
        pages * 10
    };
    if reply[1] < capacity {
        reply[1] as int
    } else {
        capacity
    }
}

/// How long a reply must be to hold its records.
pub open spec fn expected_len(reply: Seq<u8>, pages: u8) -> int {
    HEADER_LEN + record_count(reply, pages) * RECORD_LEN
}

/// Record `i` of a reply.
pub open spec fn record_at(reply: Seq<u8>, i: int) -> Seq<u8> {
    reply.subrange(4 + i * 42, 4 + i * 42 + 42)
}

/// The first `n` records of a reply, in its order.
pub open spec fn records(reply: Seq<u8>, n: int) -> Seq<Seq<u8>> {
    Seq::new(n as nat, |i: int| record_at(reply, i))
}

/// The dongles that records describe, in order.
pub open spec fn masters_in(records: Seq<Seq<u8>>) -> Seq<Master> {
    records.filter(|r: Seq<u8>| is_master(r)).map_values(|r: Seq<u8>| master_in(r))
}

/// The devices that records describe, in order.
pub open spec fn devices_in(records: Seq<Seq<u8>>) -> Seq<Device> {
    records.filter(|r: Seq<u8>| is_device(r)).map_values(|r: Seq<u8>| device_in(r))
}

/// The records that describe neither.
pub open spec fn unsound_in(records: Seq<Seq<u8>>) -> Seq<Seq<u8>> {
    records.filter(|r: Seq<u8>| !is_sound(r))
}

/// A parsed reply as a value.
#[verifier::ext_equal]
pub struct ReplyState {
    pub reported: u8,
    pub masters: Seq<Master>,
    pub devices: Seq<Device>,
    pub skipped: u8,
}

impl View for Reply {
    type V = ReplyState;

    open spec fn view(&self) -> ReplyState {
        ReplyState {
            reported: self.reported,
            masters: self.masters@,
            devices: self.devices@,
            skipped: self.skipped,
        }
    }
}

impl Reply {
    /// Another reply that says the same.
    pub fn copy(&self) -> (r: Reply)
        ensures
            r@ == self@,
    {
        let mut masters: Vec<Master> = Vec::new();
        let mut i: usize = 0;
        while i < self.masters.len()
            invariant
                0 <= i <= self.masters.len(),
                masters@ =~= self.masters@.take(i as int),
            decreases self.masters.len() - i,
        {
            masters.push(self.masters[i]);
            i += 1;
        }
        let mut devices: Vec<Device> = Vec::new();
        i = 0;
        while i < self.devices.len()
            invariant
                0 <= i <= self.devices.len(),
                devices@ =~= self.devices@.take(i as int),
            decreases self.devices.len() - i,
        {
            devices.push(self.devices[i]);
            i += 1;
        }
        let r = Reply { reported: self.reported, masters, devices, skipped: self.skipped };
        assert(r@ =~= self@);
        r
    }
}

/// What a reply to a request for `pages` pages says, or why it cannot be
/// read.
pub open spec fn reply_in(reply: Seq<u8>, pages: u8) -> Result<ReplyState, Error> {
    if reply.len() < HEADER_LEN {
        Err(Error::Short)
    } else if reply[0] != SEND_RF {
        Err(Error::WrongCommand(reply[0]))
    } else if reply.len() < expected_len(reply, pages) {
        Err(
            Error::Truncated {
                expected: expected_len(reply, pages) as usize,
                actual: reply.len() as usize,
            },
        )
    } else {
        let all = records(reply, record_count(reply, pages));
        Ok(
            ReplyState {
                reported: reply[1],
                masters: masters_in(all),
                devices: devices_in(all),
                skipped: unsound_in(all).len() as u8,
            },
        )
    }
}

/// A parsed reply, or the error, as a value.
pub open spec fn as_state(read: Result<Reply, Error>) -> Result<ReplyState, Error> {
    match read {
        Ok(reply) => Ok(reply@),
        Err(error) => Err(error),
    }
}

/// Reads a record as a dongle's own entry.
pub fn parse_master(record: &[u8]) -> (read: Option<Master>)
    ensures
        read == if is_master(record@) {
            Some(master_in(record@))
        } else {
            None
        },
{
    if record.len() < RECORD_LEN || record[41] != MARKER || record[18] != MASTER {
        return None;
    }
    match mac_at(record, 0) {
        Some(mac) => {
            assert(mac =~= address_at(record@, 0));
            Some(Master { mac, channel: record[12] })
        },
        None => None,
    }
}

/// Reads a record as a bound device.
pub fn parse_device(record: &[u8]) -> (read: Option<Device>)
    ensures
        read == if is_device(record@) {
            Some(device_in(record@))
        } else {
            None
        },
{
    if record.len() < RECORD_LEN || record[41] != MARKER || record[18] == MASTER {
        return None;
    }
    let mac = match mac_at(record, 0) {
        Some(mac) => mac,
        None => {
            return None;
        },
    };
    let raw_count: u8 = record[19];
    let right_attach = raw_count >= 10;
    let count: u8 = if right_attach {
        raw_count - 10
    } else {
        raw_count
    };
    let fan_count: u8 = if count < FANS_PER_GROUP as u8 {
        count
    } else {
        FANS_PER_GROUP as u8
    };
    let mut rpm = [0u16; FANS_PER_GROUP];
    let mut slot: usize = 0;
    while slot < FANS_PER_GROUP
        invariant
            0 <= slot <= FANS_PER_GROUP,
            record.len() >= RECORD_LEN,
            forall|k: int| 0 <= k < slot ==> #[trigger] rpm[k] == rpm_at(record@, k),
        decreases FANS_PER_GROUP - slot,
    {
        let at: usize = 28 + slot * 2;
        rpm[slot] = from_be16(record[at] & 0x0F, record[at + 1]);
        slot += 1;
    }
    let device = Device {
        mac,
        master_mac: array_at(record, 6),
        channel: record[12],
        receiver: record[13],
        device_type: record[18],
        fan_count,
        right_attach,
        effect: array_at(record, 20),
        fan_types: array_at(record, 24),
        rpm,
        duty: array_at(record, 36),
        sequence: record[40],
        pwm_line: record[28] & 0x20 != 0,
        light_sync: record[28] & 0x40 != 0,
    };
    proof {
        let told = device_in(record@);
        assert(device.mac =~= told.mac);
        assert(device.master_mac =~= told.master_mac);
        assert(device.effect =~= told.effect);
        assert(device.fan_types =~= told.fan_types);
        assert(device.rpm =~= told.rpm);
        assert(device.duty =~= told.duty);
    }
    Some(device)
}

fn mac_at(record: &[u8], at: usize) -> (read: Option<[u8; 6]>)
    requires
        at + 6 <= record.len(),
    ensures
        read is Some <==> record@.subrange(at as int, at + 6) != bytes::zeros(6),
        read matches Some(mac) ==> mac@ == record@.subrange(at as int, at + 6),
{
    let mac: [u8; 6] = array_at(record, at);
    if is_zero(&mac) {
        None
    } else {
        Some(mac)
    }
}

/// Reads a reply to a discovery request that asked for `pages` pages.
///
/// The header's device count is held to what `pages` pages can carry.
/// Records that fail their marker or carry a zero address are skipped
/// without disturbing the order of the rest.
pub fn parse_reply(reply: &[u8], pages: u8) -> (read: Result<Reply, Error>)
    ensures
        as_state(read) == reply_in(reply@, pages),
        read matches Ok(r) ==> r.devices.len() <= 255,
{
    if reply.len() < HEADER_LEN {
        return Err(Error::Short);
    }
    if reply[0] != SEND_RF {
        return Err(Error::WrongCommand(reply[0]));
    }
    let reported: u8 = reply[1];
    let held: u8 = if pages < 1 {
        1
    } else {
        pages
    };
    let capacity: usize = held as usize * RECORDS_PER_PAGE;
    let count: usize = if (reported as usize) < capacity {
        reported as usize
    } else {
        capacity
    };
    let expected: usize = HEADER_LEN + count * RECORD_LEN;
    if reply.len() < expected {
        return Err(Error::Truncated { expected, actual: reply.len() });
    }
    let mut masters: Vec<Master> = Vec::new();
    let mut devices: Vec<Device> = Vec::new();
    let mut skipped: u8 = 0;
    let mut i: usize = 0;
    proof {
        assert(records(reply@, 0) =~= Seq::<Seq<u8>>::empty());
        reveal(Seq::filter);
    }
    while i < count
        invariant
            0 <= i <= count <= 255,
            reply.len() >= HEADER_LEN + count * RECORD_LEN,
            masters@ =~= masters_in(records(reply@, i as int)),
            devices@ =~= devices_in(records(reply@, i as int)),
            skipped == unsound_in(records(reply@, i as int)).len(),
            skipped <= i,
            devices.len() <= i,
        decreases count - i,
    {
        let start: usize = HEADER_LEN + i * RECORD_LEN;
        let record = vstd::slice::slice_subrange(reply, start, start + RECORD_LEN);
        proof {
            let before = records(reply@, i as int);
            let after = records(reply@, i + 1);
            assert(record@ =~= record_at(reply@, i as int));
            assert(after =~= before.push(record@));
            assert(after.drop_last() =~= before);
            reveal(Seq::filter);
        }
        if let Some(master) = parse_master(record) {
            masters.push(master);
        } else if let Some(device) = parse_device(record) {
            devices.push(device);
        } else {
            skipped += 1;
        }
        i += 1;
    }
    Ok(Reply { reported, masters, devices, skipped })
}

/// Every record of a reply is a master, a device or skipped, and only one of
/// them: the three lists together have as many entries as there are records.
pub proof fn every_record_counts_once(records: Seq<Seq<u8>>)
    ensures
        masters_in(records).len() + devices_in(records).len() + unsound_in(records).len()
            == records.len(),
    decreases records.len(),
{
    reveal(Seq::filter);
    if records.len() > 0 {
        every_record_counts_once(records.drop_last());
    }
}

} // verus!
