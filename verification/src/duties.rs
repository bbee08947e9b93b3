//! What percentages, duties and their floors come to, number for number.

use crate::address;
use crate::discovery::{Device, FANS_PER_GROUP};
use crate::model;
use crate::speed;
use vstd::prelude::*;

verus! {

/// A duty is the step nearest to its percentage of 255: a hundred duties and
/// 255 times the percentage are no more than fifty apart, and of two steps as
/// near the higher is taken. More than a hundred percent is full duty.
pub proof fn a_duty_is_the_nearest_step(percent: u8)
    ensures
        percent <= 100 ==> -50 < 100 * speed::percent_duty(percent) - 255 * percent <= 50,
        percent >= 100 ==> speed::percent_duty(percent) == 255,
{
}

/// More percent is never less duty, and two percentages up to a hundred never
/// share a duty.
pub proof fn more_percent_is_more_duty(less: u8, more: u8)
    requires
        less < more <= 100,
    ensures
        speed::percent_duty(less) < speed::percent_duty(more),
{
}

/// A percentage is the one nearest to its duty: 255 percentages and a hundred
/// duties are less than half a step of 255 apart.
pub proof fn a_percentage_is_the_nearest_one(duty: u8)
    ensures
        -128 < 255 * speed::duty_percent(duty) - 100 * duty < 128,
{
}

/// A percentage on a group is its duty in every slot that has a fan, and zero
/// in the others.
pub proof fn a_percentage_goes_to_every_fan(percent: u8, fan_count: u8, slot: int)
    requires
        0 <= slot < 4,
        percent <= 100,
    ensures
        slot < fan_count ==> -50 < 100 * model::spread(percent, fan_count)[slot] - 255 * percent
            <= 50,
        slot >= fan_count ==> model::spread(percent, fan_count)[slot] == 0,
{
}

/// Whether the first of four model bytes that is not zero is the one at `k`.
pub open spec fn is_first_model(types: [u8; 4], k: int) -> bool {
    &&& 0 <= k < 4
    &&& types[k] != 0
    &&& forall|j: int| 0 <= j < k ==> #[trigger] types[j] == 0
}

/// The lowest duty of a device whose kind says what it is: none for the kinds
/// 1 to 9, 65 and 88, and 25, ten percent, for 10, 11 and 66.
pub proof fn some_kinds_have_their_floor(device: Device)
    ensures
        1 <= device.device_type <= 9 || device.device_type == 65 || device.device_type == 88
            ==> speed::floor_duty(device) == 0,
        device.device_type == 10 || device.device_type == 11 || device.device_type == 66
            ==> speed::floor_duty(device) == 25,
{
}

/// The lowest duty of any other device goes by the model of its first fan:
/// 35, fourteen percent, for the models 20 to 26 and 59 to 62; 28, eleven
/// percent, for 28 to 31, 36 to 39 and 51 to 58; 20, eight percent, for 63;
/// 25, ten percent, for every other.
pub proof fn a_model_has_its_floor(device: Device, k: int)
    requires
        device.device_type == 0 || 12 <= device.device_type <= 64 || 67 <= device.device_type <= 87
            || device.device_type >= 89,
        is_first_model(device.fan_types, k),
    ensures
        ({
            let m = device.fan_types[k];
            let floor = speed::floor_duty(device);
            &&& 20 <= m <= 26 || 59 <= m <= 62 ==> floor == 35
            &&& 28 <= m <= 31 || 36 <= m <= 39 || 51 <= m <= 58 ==> floor == 28
            &&& m == 63 ==> floor == 20
            &&& m < 20 || m == 27 || 32 <= m <= 35 || 40 <= m <= 50 || m > 63 ==> floor == 25
        }),
{
}

/// The model of a device is the first of its model bytes that is not zero, if
/// any, unless its kind says what it is: 1 to 11, 65, 66 and 88 do.
pub proof fn a_model_is_the_first_that_is_named(device: Device, k: int)
    ensures
        1 <= device.device_type <= 11 || device.device_type == 65 || device.device_type == 66
            || device.device_type == 88 ==> speed::model_of(device) is None,
        (device.device_type == 0 || 12 <= device.device_type <= 64 || 67 <= device.device_type <= 87
            || device.device_type >= 89) && is_first_model(device.fan_types, k) ==> speed::model_of(
            device,
        ) == Some(device.fan_types[k]),
        (forall|j: int| 0 <= j < 4 ==> #[trigger] device.fan_types[j] == 0) ==> speed::model_of(
            device,
        ) is None,
{
    let types = device.fan_types;
    assert(types[0] == types[0] && types[1] == types[1] && types[2] == types[2] && types[3]
        == types[3]);
}

/// A device of such a kind that names no model has the floor of most, 25.
pub proof fn no_model_has_the_usual_floor(device: Device)
    requires
        device.device_type == 0 || 12 <= device.device_type <= 64 || 67 <= device.device_type <= 87
            || device.device_type >= 89,
        forall|j: int| 0 <= j < 4 ==> #[trigger] device.fan_types[j] == 0,
    ensures
        speed::floor_duty(device) == 25,
{
}

/// Whether a slot of a device holds nothing that turns: it lies behind the
/// fans, and is not the last slot of a cooler, where the pump is.
pub open spec fn is_empty_slot(device: Device, slot: int) -> bool {
    slot >= device.fan_count && !(slot == 3 && (device.device_type == 10 || device.device_type
        == 11))
}

/// Whether a device's fans leave out some duties: their model is 40, 41, 42,
/// 126 or 127, and the device's kind lets the model count.
pub open spec fn leaves_duties_out(device: Device) -> bool {
    &&& device.device_type == 0 || 12 <= device.device_type <= 64 || 67 <= device.device_type <= 87
        || device.device_type >= 89
    &&& exists|k: int| #[trigger]
        is_first_model(device.fan_types, k) && (device.fan_types[k] == 40 || device.fan_types[k]
            == 41 || device.fan_types[k] == 42 || device.fan_types[k] == 126 || device.fan_types[k]
            == 127)
}

/// What is sent where the fans chain from the left: nothing to an empty slot
/// or where nothing is wanted, and else what is wanted, raised to the floor.
/// Fans that leave duties out get 152 for 153 and 154, and 156 for 155.
pub proof fn a_wanted_duty_is_sent_or_raised(
    device: Device,
    wanted: [u8; FANS_PER_GROUP],
    slot: int,
)
    requires
        0 <= slot < 4,
        !device.right_attach,
    ensures
        ({
            let floor = speed::floor_duty(device);
            let sent = speed::prepared(device, wanted)[slot];
            let raised = if wanted[slot] < floor {
                floor
            } else {
                wanted[slot]
            };
            &&& is_empty_slot(device, slot) ==> sent == 0
            &&& wanted[slot] == 0 ==> sent == 0
            &&& !is_empty_slot(device, slot) && wanted[slot] > 0 ==> {
                &&& !leaves_duties_out(device) ==> sent == raised
                &&& leaves_duties_out(device) && (raised == 153 || raised == 154) ==> sent == 152
                &&& leaves_duties_out(device) && raised == 155 ==> sent == 156
                &&& leaves_duties_out(device) && !(153 <= raised <= 155) ==> sent == raised
            }
        }),
{
    cl_is_by_the_first_model(device);
}

/// The fans that leave duties out are those of the CL series.
proof fn cl_is_by_the_first_model(device: Device)
    ensures
        speed::is_cl_series(device) == leaves_duties_out(device),
{
    let types = device.fan_types;
    if types[0] != 0 {
        assert(is_first_model(types, 0));
    } else if types[1] != 0 {
        assert(is_first_model(types, 1));
    } else if types[2] != 0 {
        assert(is_first_model(types, 2));
    } else if types[3] != 0 {
        assert(is_first_model(types, 3));
    }
    if leaves_duties_out(device) {
        let k = choose|k: int| #[trigger]
            is_first_model(types, k) && (types[k] == 40 || types[k] == 41 || types[k] == 42
                || types[k] == 126 || types[k] == 127);
        assert(speed::first_type(types) == Some(types[k]));
    }
}

/// Fans that chain from the right get the same duties in reverse: the first
/// what the last would get, and so on; the slots behind the fans are as they
/// would be.
pub proof fn a_chain_from_the_right_is_reversed(
    device: Device,
    wanted: [u8; FANS_PER_GROUP],
    slot: int,
)
    requires
        0 <= slot < 4,
        device.right_attach,
    ensures
        ({
            let left = Device { right_attach: false, ..device };
            let sent = speed::prepared(device, wanted);
            let straight = speed::prepared(left, wanted);
            &&& slot >= device.fan_count ==> sent[slot] == straight[slot]
            &&& slot < device.fan_count <= 4 ==> sent[slot] == straight[device.fan_count - 1 - slot]
            &&& device.fan_count > 4 ==> sent[slot] == straight[3 - slot]
        }),
{
    let left = Device { right_attach: false, ..device };
    assert(speed::floor_duty(left) == speed::floor_duty(device));
    assert(speed::is_cl_series(left) == speed::is_cl_series(device));
}

/// A report confirms what was sent slot for slot: a duty up to ten only where
/// it is reported exactly, a higher one only where what is reported is no more
/// than five off.
pub proof fn a_report_confirms_within_five(
    reported: [u8; FANS_PER_GROUP],
    sent: [u8; FANS_PER_GROUP],
    slot: int,
)
    requires
        0 <= slot < 4,
        speed::confirms(reported, sent),
    ensures
        sent[slot] <= 10 ==> reported[slot] == sent[slot],
        reported[slot] - sent[slot] <= 5,
        sent[slot] - reported[slot] <= 5,
{
    assert(speed::is_close(reported[slot], sent[slot]));
}

/// A report that is near enough in every slot confirms what was sent.
pub proof fn a_report_near_enough_confirms(
    reported: [u8; FANS_PER_GROUP],
    sent: [u8; FANS_PER_GROUP],
)
    requires
        forall|slot: int|
            0 <= slot < 4 ==> #[trigger] reported[slot] == sent[slot] || (sent[slot] > 10 && -5
                <= reported[slot] - sent[slot] <= 5),
    ensures
        speed::confirms(reported, sent),
{
    assert forall|slot: int| 0 <= slot < FANS_PER_GROUP implies speed::is_close(
        #[trigger] reported[slot],
        sent[slot],
    ) by {}
}

/// Whether a device in a list is bound to a dongle under an address.
pub open spec fn holds_bound(devices: Seq<Device>, master: [u8; 6], mac: [u8; 6]) -> bool {
    exists|i: int|
        0 <= i < devices.len() && (#[trigger] devices[i]).master_mac == master && devices[i].mac
            == mac
}

/// The slot of a device is one more than the number of devices bound to its
/// dongle before it: one behind a list that does not hold it comes behind all
/// of those, and what comes behind a device leaves its slot alone. A device
/// that is not in the list has slot 1.
pub proof fn a_slot_counts_the_bound_before_it(
    devices: Seq<Device>,
    next: Device,
    master: [u8; 6],
    mac: [u8; 6],
)
    ensures
        !holds_bound(devices, master, mac) ==> speed::slot_number(devices, master, mac) == 1,
        ({
            let before = devices.filter(|d: Device| d.master_mac == master).len();
            !holds_bound(devices, master, mac) && next.master_mac == master && next.mac == mac
                && before < 255 ==> speed::slot_number(devices.push(next), master, mac) == before
                + 1
        }),
        holds_bound(devices, master, mac) ==> speed::slot_number(devices.push(next), master, mac)
            == speed::slot_number(devices, master, mac),
{
    reveal(Seq::filter);
    let bound = |d: Device| d.master_mac == master;
    let kept = devices.filter(bound);
    let more = devices.push(next);
    assert(more.drop_last() =~= devices);
    crate::lists::filtered(devices, bound);
    crate::lists::filtered(more, bound);
    let macs = speed::macs_of(speed::bound_to(devices, master));
    let later = speed::macs_of(speed::bound_to(more, master));
    assert(speed::bound_to(devices, master) =~= kept);
    address::the_place_is_the_first(macs, mac);
    address::the_place_is_the_first(later, mac);
    if next.master_mac == master {
        assert(speed::bound_to(more, master) =~= kept.push(next));
        assert(later =~= macs.push(next.mac));
    } else {
        assert(later =~= macs);
    }
    if holds_bound(devices, master, mac) {
        let i = choose|i: int|
            0 <= i < devices.len() && (#[trigger] devices[i]).master_mac == master && devices[i].mac
                == mac;
        assert(devices.contains(devices[i]));
        assert(kept.contains(devices[i]));
        let k = choose|k: int| 0 <= k < kept.len() && kept[k] == devices[i];
        assert(macs[k] == mac);
        assert(macs.contains(mac));
        let p = address::place_of(macs, mac)->0;
        assert forall|j: int| 0 <= j < p implies later[j] != mac by {
            assert(later[j] == macs[j]);
        }
        address::place_found(later, mac, p);
    } else {
        assert(!macs.contains(mac)) by {
            if macs.contains(mac) {
                let k = choose|k: int| 0 <= k < macs.len() && macs[k] == mac;
                assert(kept.contains(kept[k]));
                let i = choose|i: int| 0 <= i < devices.len() && devices[i] == kept[k];
                assert(devices[i].master_mac == master && devices[i].mac == mac);
            }
        }
        if next.master_mac == master && next.mac == mac {
            assert forall|j: int| 0 <= j < macs.len() implies later[j] != mac by {
                assert(later[j] == macs[j]);
                assert(macs.contains(macs[j]));
            }
            address::place_found(later, mac, macs.len() as int);
        }
    }
}

} // verus!
