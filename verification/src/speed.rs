//! The command that sets a group's fan duties.
//!
//! A duty is 0 to 255. Each group has a lowest duty its fans will run at,
//! set by the fan model; anything above zero and below it is raised to it.
//! Groups that chain from the right take their slots in reverse.

use crate::address;
use crate::bytes;
use crate::bytes::{put, same};
use crate::discovery::{Device, FANS_PER_GROUP};
use crate::frame::{RfPayload, RF_PAYLOAD_LEN};
use vstd::prelude::*;

verus! {

/// Highest duty a fan takes.
pub const MAX_DUTY: u8 = 255;

/// Difference between a sent duty and a reported one that still counts as
/// applied, above [`EXACT_BELOW`].
pub const TOLERANCE: u8 = 5;

/// Duties at or below this must be reported back exactly.
pub const EXACT_BELOW: u8 = 10;

pub const SELECT: u8 = 0x12;

pub const PWM: u8 = 0x10;

/// The duty that a percentage stands for, to the nearest step; anything
/// above a hundred counts as a hundred.
pub open spec fn percent_duty(percent: u8) -> u8 {
    let held: int = if percent < 100 {
        percent as int
    } else {
        100
    };
    ((held * 255 + 50) / 100) as u8
}

/// The duty that a percentage stands for, to the nearest step; anything
/// above a hundred counts as a hundred.
pub fn duty_from_percent(percent: u8) -> (duty: u8)
    ensures
        duty == percent_duty(percent),
{
    let held: u16 = if percent < 100 {
        percent as u16
    } else {
        100
    };
    ((held * 255 + 50) / 100) as u8
}

/// The percentage nearest to a duty.
pub open spec fn duty_percent(duty: u8) -> u8 {
    ((duty * 100 + 127) / 255) as u8
}

/// The percentage nearest to a duty.
pub fn percent_from_duty(duty: u8) -> (percent: u8)
    ensures
        percent == duty_percent(duty),
{
    ((duty as u16 * 100 + 127) / 255) as u8
}

/// Whether a device type fixes the kind of its fans by itself.
pub open spec fn is_fixed_kind(device_type: u8) -> bool {
    1 <= device_type <= 11 || device_type == 65 || device_type == 66 || device_type == 88
}

/// The first fan type that is not zero.
pub open spec fn first_type(types: [u8; 4]) -> Option<u8> {
    if types[0] != 0 {
        Some(types[0])
    } else if types[1] != 0 {
        Some(types[1])
    } else if types[2] != 0 {
        Some(types[2])
    } else if types[3] != 0 {
        Some(types[3])
    } else {
        None
    }
}

/// The fan model byte, for devices whose kind is not fixed by their
/// device type.
pub open spec fn model_of(device: Device) -> Option<u8> {
    if is_fixed_kind(device.device_type) {
        None
    } else {
        first_type(device.fan_types)
    }
}

/// The lowest percentage at which the fans of a model run.
pub open spec fn model_percent(model: Option<u8>) -> u8 {
    match model {
        Some(m) => if 20 <= m <= 26 || 59 <= m <= 62 {
            14
        } else if 28 <= m <= 31 || 36 <= m <= 39 || 51 <= m <= 58 {
            11
        } else if m == 63 {
            8
        } else {
            10
        },
        None => 10,
    }
}

/// The lowest percentage at which a device's fans run.
pub open spec fn floor_percent(device: Device) -> u8 {
    let kind = device.device_type;
    if 1 <= kind <= 9 || kind == 65 || kind == 88 {
        0
    } else if kind == 10 || kind == 11 || kind == 66 {
        10
    } else {
        model_percent(model_of(device))
    }
}

/// The lowest non-zero duty a device's fans will run at.
pub open spec fn floor_duty(device: Device) -> u8 {
    (floor_percent(device) * 255 / 100) as u8
}

/// Whether the device is a cooler, with a pump in the last slot.
pub open spec fn has_pump(device: Device) -> bool {
    device.device_type == 10 || device.device_type == 11
}

/// Whether the device's fans are of the CL series.
pub open spec fn is_cl_series(device: Device) -> bool {
    match model_of(device) {
        Some(m) => 40 <= m <= 42 || m == 126 || m == 127,
        None => false,
    }
}

/// A duty of a CL-series fan: 153 to 155 are left out.
pub open spec fn stepped(duty: u8) -> u8 {
    if duty == 153 || duty == 154 {
        152
    } else if duty == 155 {
        156
    } else {
        duty
    }
}

/// Whether anything turns in a device's slot: a fan, or a cooler's pump.
pub open spec fn is_driven(device: Device, slot: int) -> bool {
    slot < device.fan_count || (slot == 3 && has_pump(device))
}

/// A duty raised to the device's floor, where it is not zero.
pub open spec fn raised(device: Device, duty: u8) -> u8 {
    if 0 < duty < floor_duty(device) {
        floor_duty(device)
    } else {
        duty
    }
}

/// The duty sent for what is wanted of a slot, before the slots are laid
/// out.
pub open spec fn allowed(device: Device, wanted: [u8; FANS_PER_GROUP], slot: int) -> u8 {
    if !is_driven(device, slot) {
        0
    } else if is_cl_series(device) {
        stepped(raised(device, wanted[slot]))
    } else {
        raised(device, wanted[slot])
    }
}

/// The fan that a slot of a command addresses: the slots with fans are
/// reversed where the fans chain from the right.
pub open spec fn laid_out(device: Device, slot: int) -> int {
    let fans: int = if device.fan_count < 4 {
        device.fan_count as int
    } else {
        4
    };
    if device.right_attach && slot < fans {
        fans - 1 - slot
    } else {
        slot
    }
}

/// The duties sent to a device where `wanted` is wanted of it.
pub open spec fn prepared(device: Device, wanted: [u8; FANS_PER_GROUP]) -> [u8; FANS_PER_GROUP] {
    [
        allowed(device, wanted, laid_out(device, 0)),
        allowed(device, wanted, laid_out(device, 1)),
        allowed(device, wanted, laid_out(device, 2)),
        allowed(device, wanted, laid_out(device, 3)),
    ]
}

/// The lowest non-zero duty this device's fans will run at.
pub fn min_duty(device: &Device) -> (duty: u8)
    ensures
        duty == floor_duty(*device),
{
    (min_percent(device) as u16 * MAX_DUTY as u16 / 100) as u8
}

fn model(device: &Device) -> (r: Option<u8>)
    ensures
        r == model_of(*device),
{
    match device.device_type {
        1..=11 | 65 | 66 | 88 => None,
        _ => {
            let mut slot: usize = 0;
            while slot < 4
                invariant
                    0 <= slot <= 4,
                    forall|k: int| 0 <= k < slot ==> device.fan_types[k] == 0,
                    !is_fixed_kind(device.device_type),
                decreases 4 - slot,
            {
                if device.fan_types[slot] != 0 {
                    return Some(device.fan_types[slot]);
                }
                slot += 1;
            }
            None
        },
    }
}

fn min_percent(device: &Device) -> (r: u8)
    ensures
        r == floor_percent(*device),
{
    match device.device_type {
        1..=9 | 65 | 88 => 0,
        10 | 11 | 66 => 10,
        _ => match model(device) {
            Some(20..=26) | Some(59..=62) => 14,
            Some(28..=31) | Some(36..=39) | Some(51..=58) => 11,
            Some(63) => 8,
            _ => 10,
        },
    }
}

fn is_cooler(device: &Device) -> (r: bool)
    ensures
        r == has_pump(*device),
{
    matches!(device.device_type, 10 | 11)
}

fn filters_duty(device: &Device) -> (r: bool)
    ensures
        r == is_cl_series(*device),
{
    matches!(model(device), Some(40..=42) | Some(126) | Some(127))
}

/// Turns wanted duties into the ones sent to a device.
///
/// Slots past the device's fan count go to zero, except a cooler's pump in
/// the last slot. Non-zero duties below the device's minimum are raised to
/// it. CL-series fans skip the duties 153 to 155. Right-attached chains
/// take their slots in reverse.
pub fn prepare(device: &Device, wanted: [u8; FANS_PER_GROUP]) -> (duty: [u8; FANS_PER_GROUP])
    ensures
        duty == prepared(*device, wanted),
{
    let floor: u8 = min_duty(device);
    let cooler = is_cooler(device);
    let filters = filters_duty(device);
    let mut duty = wanted;
    let mut slot: usize = 0;
    while slot < FANS_PER_GROUP
        invariant
            0 <= slot <= FANS_PER_GROUP,
            floor == floor_duty(*device),
            cooler == has_pump(*device),
            filters == is_cl_series(*device),
            forall|k: int|
                0 <= k < FANS_PER_GROUP ==> #[trigger] duty[k] == if k < slot {
                    allowed(*device, wanted, k)
                } else {
                    wanted[k]
                },
        decreases FANS_PER_GROUP - slot,
    {
        let pump = slot == FANS_PER_GROUP - 1 && cooler;
        let mut value: u8 = duty[slot];
        if slot >= device.fan_count as usize && !pump {
            value = 0;
        } else {
            if value > 0 && value < floor {
                value = floor;
            }
            if filters {
                value = match value {
                    153 | 154 => 152,
                    155 => 156,
                    other => other,
                };
            }
        }
        duty[slot] = value;
        slot += 1;
    }
    let ghost straight = duty;
    if device.right_attach {
        let fans: usize = if (device.fan_count as usize) < FANS_PER_GROUP {
            device.fan_count as usize
        } else {
            FANS_PER_GROUP
        };
        let mut low: usize = 0;
        let mut high: usize = fans;
        while low + 1 < high
            invariant
                low + high == fans,
                fans <= FANS_PER_GROUP,
                low <= high + 1,
                forall|k: int|
                    0 <= k < FANS_PER_GROUP ==> #[trigger] duty[k] == if k < fans && (k < low || k
                        >= high) {
                        straight[fans - 1 - k]
                    } else {
                        straight[k]
                    },
            decreases high,
        {
            let kept: u8 = duty[low];
            duty[low] = duty[high - 1];
            duty[high - 1] = kept;
            low += 1;
            high -= 1;
        }
        assert forall|k: int| 0 <= k < 4 implies #[trigger] duty[k] == allowed(
            *device,
            wanted,
            laid_out(*device, k),
        ) by {
            assert(straight[laid_out(*device, k)] == allowed(*device, wanted, laid_out(*device, k)));
        }
    }
    assert(duty =~= prepared(*device, wanted));
    duty
}

/// The bytes of the payload that applies `duty` to `device`.
pub open spec fn payload_bytes(
    device: Device,
    master_mac: [u8; 6],
    channel: u8,
    slot: u8,
    duty: [u8; FANS_PER_GROUP],
) -> Seq<u8> {
    seq![SELECT, PWM] + device.mac@ + master_mac@ + seq![device.receiver, channel, slot] + duty@
        + bytes::zeros(219)
}

/// The radio payload that applies `duty` to `device`.
///
/// `duty` is taken as returned by [`prepare`]. `channel` is the dongle's
/// channel and `slot` the device's position from [`slot`].
pub fn payload(
    device: &Device,
    master_mac: &[u8; 6],
    channel: u8,
    slot: u8,
    duty: [u8; FANS_PER_GROUP],
) -> (data: RfPayload)
    ensures
        data@ == payload_bytes(*device, *master_mac, channel, slot, duty),
{
    let mut data = [0u8; RF_PAYLOAD_LEN];
    data[0] = SELECT;
    data[1] = PWM;
    put(&mut data, 2, &device.mac);
    put(&mut data, 8, master_mac);
    data[14] = device.receiver;
    data[15] = channel;
    data[16] = slot;
    put(&mut data, 17, &duty);
    assert(data@ =~= payload_bytes(*device, *master_mac, channel, slot, duty));
    data
}

/// The devices bound to `master_mac`, in their order.
pub open spec fn bound_to(devices: Seq<Device>, master_mac: [u8; 6]) -> Seq<Device> {
    devices.filter(|d: Device| d.master_mac == master_mac)
}

/// The addresses of devices.
pub open spec fn macs_of(devices: Seq<Device>) -> Seq<[u8; 6]> {
    devices.map_values(|d: Device| d.mac)
}

spec fn bound_front(devices: Seq<Device>, master_mac: [u8; 6], n: int) -> Seq<[u8; 6]> {
    macs_of(bound_to(devices.take(n), master_mac))
}

/// The 1-based position of `mac` among the devices bound to `master_mac`, as
/// a byte; 1 where it is not among them.
pub open spec fn slot_number(devices: Seq<Device>, master_mac: [u8; 6], mac: [u8; 6]) -> u8 {
    match address::place_of(macs_of(bound_to(devices, master_mac)), mac) {
        Some(i) => (i + 1) as u8,
        None => 1,
    }
}

/// The 1-based position of `mac` among the devices bound to `master_mac`,
/// counted in the order `devices` are listed. A device not in the list is
/// given position 1.
pub fn slot(devices: &[Device], master_mac: &[u8; 6], mac: &[u8; 6]) -> (r: u8)
    ensures
        r == slot_number(devices@, *master_mac, *mac),
{
    let mut index: usize = 0;
    let mut i: usize = 0;
    proof {
        reveal(Seq::filter);
        assert(devices@.take(0) =~= Seq::<Device>::empty());
    }
    while i < devices.len()
        invariant
            0 <= i <= devices.len(),
            index == bound_front(devices@, *master_mac, i as int).len(),
            index <= i,
            forall|k: int| 0 <= k < index ==> bound_front(devices@, *master_mac, i as int)[k] != *mac,
        decreases devices.len() - i,
    {
        proof {
            let next = devices@.take(i + 1);
            assert(next.drop_last() =~= devices@.take(i as int));
            reveal(Seq::filter);
            if devices[i as int].master_mac == *master_mac {
                assert(bound_front(devices@, *master_mac, i + 1) =~= bound_front(
                    devices@,
                    *master_mac,
                    i as int,
                ).push(devices[i as int].mac));
            }
        }
        if same(&devices[i].master_mac, master_mac) {
            if same(&devices[i].mac, mac) {
                proof {
                    let next = devices@.take(i + 1);
                    let rest = devices@.skip(i + 1);
                    assert(devices@ =~= next + rest);
                    Seq::filter_distributes_over_add(
                        next,
                        rest,
                        |d: Device| d.master_mac == *master_mac,
                    );
                    let all = macs_of(bound_to(devices@, *master_mac));
                    assert(all =~= bound_front(devices@, *master_mac, i + 1) + macs_of(
                        bound_to(rest, *master_mac),
                    ));
                    address::place_found(all, *mac, index as int);
                }
                return (index + 1) as u8;
            }
            index += 1;
        }
        i += 1;
    }
    proof {
        assert(devices@.take(i as int) =~= devices@);
        address::the_place_is_the_first(bound_front(devices@, *master_mac, i as int), *mac);
    }
    1
}

/// Whether one reported duty counts as the one sent: exactly up to ten,
/// within five above.
pub open spec fn is_close(reported: u8, sent: u8) -> bool {
    if sent <= EXACT_BELOW {
        reported == sent
    } else {
        -5 <= reported - sent <= 5
    }
}

/// Whether every reported duty counts as the one sent.
pub open spec fn confirms(
    reported: [u8; FANS_PER_GROUP],
    sent: [u8; FANS_PER_GROUP],
) -> bool {
    forall|slot: int|
        0 <= slot < FANS_PER_GROUP ==> is_close(#[trigger] reported[slot], sent[slot])
}

/// Whether the duties a device reports match the ones sent to it.
pub fn acknowledged(
    reported: &[u8; FANS_PER_GROUP],
    sent: &[u8; FANS_PER_GROUP],
) -> (r: bool)
    ensures
        r == confirms(*reported, *sent),
{
    let mut slot: usize = 0;
    while slot < FANS_PER_GROUP
        invariant
            0 <= slot <= FANS_PER_GROUP,
            forall|k: int| 0 <= k < slot ==> is_close(#[trigger] reported[k], sent[k]),
        decreases FANS_PER_GROUP - slot,
    {
        let r: u8 = reported[slot];
        let s: u8 = sent[slot];
        let close = if s <= EXACT_BELOW {
            r == s
        } else if r < s {
            s - r <= TOLERANCE
        } else {
            r - s <= TOLERANCE
        };
        if !close {
            assert(!is_close(reported[slot as int], sent[slot as int]));
            return false;
        }
        slot += 1;
    }
    true
}

/// Whether the duties a device reports differ enough from the wanted ones
/// to send them again.
pub fn differs(reported: &[u8; FANS_PER_GROUP], wanted: &[u8; FANS_PER_GROUP]) -> (r: bool)
    ensures
        r == !confirms(*reported, *wanted),
{
    !acknowledged(reported, wanted)
}

/// No fan is sent a duty between zero and its floor, slots that hold nothing
/// are sent zero, and so are all where nothing but zero is wanted.
pub proof fn no_duty_below_the_floor(device: Device, wanted: [u8; FANS_PER_GROUP], slot: int)
    requires
        0 <= slot < FANS_PER_GROUP,
    ensures
        prepared(device, wanted)[slot] == 0 || prepared(device, wanted)[slot] >= floor_duty(device),
        !is_driven(device, slot) ==> prepared(device, wanted)[slot] == 0,
        is_driven(device, slot) && (forall|k: int| 0 <= k < FANS_PER_GROUP ==> wanted[k] > 0)
            ==> prepared(device, wanted)[slot] > 0,
        (forall|k: int| 0 <= k < FANS_PER_GROUP ==> wanted[k] == 0) ==> prepared(
            device,
            wanted,
        )[slot] == 0,
{
}

/// CL-series fans are never sent one of the duties 153 to 155.
pub proof fn cl_series_skips_its_gap(device: Device, wanted: [u8; FANS_PER_GROUP], slot: int)
    requires
        0 <= slot < FANS_PER_GROUP,
        is_cl_series(device),
    ensures
        !(153 <= prepared(device, wanted)[slot] <= 155),
{
}

/// What was sent is confirmed by its own report.
pub proof fn own_report_confirms(duty: [u8; FANS_PER_GROUP])
    ensures
        confirms(duty, duty),
{
}

/// A percentage survives the way to a duty and back.
pub proof fn percent_survives_the_duty(percent: u8)
    requires
        percent <= 100,
    ensures
        duty_percent(percent_duty(percent)) == percent,
{
}

} // verus!
