//! When a device counts as what, and what a sighting, a reply or a sweep
//! makes of it, in the fields and times themselves.

use crate::address;
use crate::discovery::{Device, FANS_PER_GROUP};
use crate::groups;
use crate::groups::{Group, TrackerState};
use crate::lists;
use crate::speed;
use vstd::prelude::*;

verus! {

/// Addresses are in order of their first byte that differs.
pub proof fn addresses_go_by_their_first_difference(a: [u8; 6], b: [u8; 6], k: int)
    requires
        0 <= k < 6,
        forall|j: int| 0 <= j < k ==> #[trigger] a[j] == b[j],
        a[k] < b[k],
    ensures
        address::number_of(a) < address::number_of(b),
{
    assert(k == 0 || k == 1 || k == 2 || k == 3 || k == 4 || k == 5);
    if k > 0 {
        assert(a[0] == b[0]);
    }
    if k > 1 {
        assert(a[1] == b[1]);
    }
    if k > 2 {
        assert(a[2] == b[2]);
    }
    if k > 3 {
        assert(a[3] == b[3]);
    }
    if k > 4 {
        assert(a[4] == b[4]);
    }
}

/// A device is online up to fifteen seconds after it was heard, to the
/// nanosecond, and offline after that.
pub proof fn a_device_is_online_for_fifteen_seconds(group: Group, now: u128)
    ensures
        now <= group.last_seen + 15_000_000_000 ==> group.is_online(now),
        now > group.last_seen + 15_000_000_000 ==> !group.is_online(now),
{
}

/// Every device of kind 0 with a fan is a fan group, and no other is; one is
/// bound to a dongle where it names the dongle's address, byte for byte.
pub proof fn kind_zero_with_a_fan_is_a_fan_group(group: Group, master: [u8; 6])
    ensures
        group.device.device_type == 0 && group.device.fan_count >= 1 ==> group.is_fans(),
        group.device.device_type != 0 || group.device.fan_count < 1 ==> !group.is_fans(),
        (forall|k: int| 0 <= k < 6 ==> #[trigger] group.device.master_mac[k] == master[k])
            ==> group.is_bound(master),
        group.is_bound(master) ==> forall|k: int|
            0 <= k < 6 ==> #[trigger] group.device.master_mac[k] == master[k],
{
    if forall|k: int| 0 <= k < 6 ==> #[trigger] group.device.master_mac[k] == master[k] {
        assert(group.device.master_mac =~= master);
    }
}

/// A target counts as applied only while the device was heard in the last
/// three seconds and reports each duty, and always then.
pub proof fn a_target_is_applied_while_it_is_reported(group: Group, now: u128, slot: int)
    requires
        0 <= slot < 4,
    ensures
        group.target is None ==> !group.is_acknowledged(now),
        now > group.last_seen + 3_000_000_000 ==> !group.is_acknowledged(now),
        group.target matches Some(target) ==> (target[slot] > 10 && (group.device.duty[slot]
            - target[slot] > 5 || target[slot] - group.device.duty[slot] > 5) ==> !group.is_acknowledged(
            now,
        )),
        group.target matches Some(target) ==> (target[slot] <= 10 && group.device.duty[slot]
            != target[slot] ==> !group.is_acknowledged(now)),
        group.target matches Some(target) ==> (now <= group.last_seen + 3_000_000_000
            && group.device.duty == target ==> group.is_acknowledged(now)),
{
    if let Some(target) = group.target {
        assert(speed::confirms(group.device.duty, target) ==> speed::is_close(
            group.device.duty[slot],
            target[slot],
        ));
        speed::own_report_confirms(target);
    }
}

/// A target goes out where it was never sent, where the last time lies a
/// second back or more, or where the device reports anything else; a device
/// that reports it less than a second after it went out is left alone.
pub proof fn a_target_goes_out_each_second(group: Group, now: u128, slot: int)
    requires
        0 <= slot < 4,
    ensures
        group.target is None ==> !group.is_due(now),
        group.target is Some && group.last_sent is None ==> group.is_due(now),
        group.target is Some && group.last_sent is Some && now >= group.last_sent->0
            + 1_000_000_000 ==> group.is_due(now),
        group.target matches Some(target) ==> (target[slot] > 10 && (group.device.duty[slot]
            - target[slot] > 5 || target[slot] - group.device.duty[slot] > 5) ==> group.is_due(now)),
        group.target matches Some(target) ==> (target[slot] <= 10 && group.device.duty[slot]
            != target[slot] ==> group.is_due(now)),
        group.target matches Some(target) ==> (group.last_sent is Some && now < group.last_sent->0
            + 1_000_000_000 && group.device.duty == target ==> !group.is_due(now)),
{
    if let Some(target) = group.target {
        assert(speed::confirms(group.device.duty, target) ==> speed::is_close(
            group.device.duty[slot],
            target[slot],
        ));
        speed::own_report_confirms(target);
    }
}

/// A sighting takes over at once what a device reports, and keeps what is
/// asked of it. The count of sends goes to zero where the device now reports
/// the target, and is kept where it does not.
pub proof fn a_sighting_takes_over_what_is_reported(group: Group, seen: Device, now: u128)
    ensures
        ({
            let after = group.sighted(seen, now);
            &&& after.device.mac == seen.mac
            &&& after.device.effect == seen.effect
            &&& after.device.rpm == seen.rpm
            &&& after.device.duty == seen.duty
            &&& after.device.sequence == seen.sequence
            &&& after.device.pwm_line == seen.pwm_line
            &&& after.device.light_sync == seen.light_sync
            &&& after.last_seen == now
            &&& after.target == group.target
            &&& after.last_sent == group.last_sent
            &&& group.target matches Some(target) ==> (seen.duty == target ==> after.unacknowledged
                == 0)
            &&& group.target is None ==> after.unacknowledged == group.unacknowledged
            &&& group.target matches Some(target) ==> (!speed::confirms(seen.duty, target)
                ==> after.unacknowledged == group.unacknowledged)
        }),
{
    if let Some(target) = group.target {
        speed::own_report_confirms(target);
    }
}

/// A device that was silent for more than fifteen seconds is taken over whole
/// when it is heard again, and nothing is left of what was being weighed.
pub proof fn a_silent_device_is_taken_over_whole(group: Group, seen: Device, now: u128)
    requires
        now > group.last_seen + 15_000_000_000,
    ensures
        group.sighted(seen, now).device == seen,
        group.sighted(seen, now).identity is None,
        group.sighted(seen, now).shape is None,
        group.sighted(seen, now).last_seen == now,
{
}

/// Whether two devices name the same dongle, channel and receiver type.
pub open spec fn named_alike(a: Device, b: Device) -> bool {
    a.master_mac == b.master_mac && a.channel == b.channel && a.receiver == b.receiver
}

/// Whether two devices are of one kind, with as many fans of the same models
/// from the same side.
pub open spec fn shaped_alike(a: Device, b: Device) -> bool {
    a.device_type == b.device_type && a.fan_count == b.fan_count && a.right_attach
        == b.right_attach && a.fan_types == b.fan_types
}

/// A device that is heard all the while keeps its dongle, channel and receiver
/// type through two sightings that agree on others, and takes them over with
/// the third: neither one nor two garbled records move a group.
pub proof fn it_takes_three_to_move_a_device(
    group: Group,
    first: Device,
    second: Device,
    third: Device,
    t1: u128,
    t2: u128,
    t3: u128,
)
    requires
        group.identity is None,
        t1 <= group.last_seen + 15_000_000_000,
        t2 <= t1 + 15_000_000_000,
        t3 <= t2 + 15_000_000_000,
        !named_alike(first, group.device),
        named_alike(second, first),
        named_alike(third, first),
    ensures
        named_alike(group.sighted(first, t1).device, group.device),
        named_alike(group.sighted(first, t1).sighted(second, t2).device, group.device),
        named_alike(
            group.sighted(first, t1).sighted(second, t2).sighted(third, t3).device,
            first,
        ),
        group.sighted(first, t1).sighted(second, t2).sighted(third, t3).identity is None,
{
}

/// A sighting in between that agrees with what is known, or with neither,
/// starts the count anew: two others behind it do not move the device.
pub proof fn the_three_must_come_in_a_row(
    group: Group,
    first: Device,
    other: Device,
    second: Device,
    third: Device,
    t1: u128,
    t2: u128,
    t3: u128,
    t4: u128,
)
    requires
        group.identity is None,
        t1 <= group.last_seen + 15_000_000_000,
        t2 <= t1 + 15_000_000_000,
        t3 <= t2 + 15_000_000_000,
        t4 <= t3 + 15_000_000_000,
        !named_alike(first, group.device),
        !named_alike(other, first),
        named_alike(second, first),
        named_alike(third, first),
    ensures
        named_alike(
            group.sighted(first, t1).sighted(other, t2).sighted(second, t3).sighted(
                third,
                t4,
            ).device,
            group.device,
        ),
{
    let g1 = group.sighted(first, t1);
    let g2 = g1.sighted(other, t2);
    let g3 = g2.sighted(second, t3);
    assert(named_alike(g1.device, group.device));
    assert(named_alike(g2.device, group.device));
    assert(named_alike(g3.device, group.device));
}

/// A device that is heard all the while keeps its kind and fans through two
/// sightings that agree on others, and takes them over with the third.
pub proof fn it_takes_three_to_reshape_a_device(
    group: Group,
    first: Device,
    second: Device,
    third: Device,
    t1: u128,
    t2: u128,
    t3: u128,
)
    requires
        group.shape is None,
        t1 <= group.last_seen + 15_000_000_000,
        t2 <= t1 + 15_000_000_000,
        t3 <= t2 + 15_000_000_000,
        !shaped_alike(first, group.device),
        shaped_alike(second, first),
        shaped_alike(third, first),
    ensures
        shaped_alike(group.sighted(first, t1).device, group.device),
        shaped_alike(group.sighted(first, t1).sighted(second, t2).device, group.device),
        shaped_alike(
            group.sighted(first, t1).sighted(second, t2).sighted(third, t3).device,
            first,
        ),
        group.sighted(first, t1).sighted(second, t2).sighted(third, t3).shape is None,
{
}

/// The same of a device's kind and fans: the three must come in a row.
pub proof fn three_shapes_must_come_in_a_row(
    group: Group,
    first: Device,
    other: Device,
    second: Device,
    third: Device,
    t1: u128,
    t2: u128,
    t3: u128,
    t4: u128,
)
    requires
        group.shape is None,
        t1 <= group.last_seen + 15_000_000_000,
        t2 <= t1 + 15_000_000_000,
        t3 <= t2 + 15_000_000_000,
        t4 <= t3 + 15_000_000_000,
        !shaped_alike(first, group.device),
        !shaped_alike(other, first),
        shaped_alike(second, first),
        shaped_alike(third, first),
    ensures
        shaped_alike(
            group.sighted(first, t1).sighted(other, t2).sighted(second, t3).sighted(
                third,
                t4,
            ).device,
            group.device,
        ),
{
    let g1 = group.sighted(first, t1);
    let g2 = g1.sighted(other, t2);
    let g3 = g2.sighted(second, t3);
    assert(shaped_alike(g1.device, group.device));
    assert(shaped_alike(g2.device, group.device));
    assert(shaped_alike(g3.device, group.device));
}

/// What is named and what is shaped is weighed apart: a sighting that names
/// the device as it is known leaves that alone, whatever its shape, and the
/// other way round.
pub proof fn names_and_shapes_are_weighed_apart(group: Group, seen: Device, now: u128)
    requires
        now <= group.last_seen + 15_000_000_000,
    ensures
        named_alike(seen, group.device) ==> named_alike(
            group.sighted(seen, now).device,
            group.device,
        ) && group.sighted(seen, now).identity is None,
        shaped_alike(seen, group.device) ==> shaped_alike(
            group.sighted(seen, now).device,
            group.device,
        ) && group.sighted(seen, now).shape is None,
{
}

/// A sighting of a known device changes that device's group and no other; one
/// of a device that is not known adds a group behind the others, of which
/// nothing is asked.
pub proof fn a_sighting_concerns_one_group(
    known: Seq<Group>,
    seen: Device,
    now: u128,
    i: int,
    j: int,
)
    requires
        groups::macs_of(known).no_duplicates(),
        0 <= i < known.len(),
        0 <= j < known.len(),
    ensures
        ({
            let after = groups::noted(known, seen, now);
            &&& known[i].device.mac == seen.mac ==> {
                &&& after.len() == known.len()
                &&& after[i] == known[i].sighted(seen, now)
            }
            &&& known[j].device.mac != seen.mac ==> after[j] == known[j]
        }),
{
    groups::only_place(known, i);
    groups::placed(known, seen.mac);
}

/// A device that is heard for the first time is known from then on, as it was
/// heard, with no target and nothing sent.
pub proof fn a_new_device_is_known_as_it_was_heard(known: Seq<Group>, seen: Device, now: u128)
    requires
        forall|i: int| 0 <= i < known.len() ==> (#[trigger] known[i]).device.mac != seen.mac,
    ensures
        ({
            let after = groups::noted(known, seen, now);
            &&& after.len() == known.len() + 1
            &&& after.drop_last() == known
            &&& after.last().device == seen
            &&& after.last().last_seen == now
            &&& after.last().target is None
            &&& after.last().last_sent is None
            &&& after.last().unacknowledged == 0
            &&& after.last().identity is None
            &&& after.last().shape is None
        }),
{
    groups::placed(known, seen.mac);
    if let Some(i) = groups::place_of(known, seen.mac) {
        assert(known[i].device.mac == seen.mac);
    }
    assert(groups::noted(known, seen, now).drop_last() =~= known);
}

/// A reply is taken in device by device, in its order.
pub proof fn a_reply_is_taken_in_device_by_device(
    known: Seq<Group>,
    seen: Seq<Device>,
    next: Device,
    now: u128,
)
    ensures
        groups::noted_all(known, Seq::empty(), now) == known,
        groups::noted_all(known, seen.push(next), now) == groups::noted(
            groups::noted_all(known, seen, now),
            next,
            now,
        ),
{
    assert(seen.push(next).drop_last() =~= seen);
}

/// Whether a group with an address is known that was heard in the last fifteen
/// seconds.
pub open spec fn is_lately_heard(known: Seq<Group>, mac: [u8; 6], now: u128) -> bool {
    exists|i: int|
        0 <= i < known.len() && (#[trigger] known[i]).device.mac == mac && now
            <= known[i].last_seen + 15_000_000_000
}

/// The slot order after a reply or a sweep holds exactly the devices heard in
/// the last fifteen seconds, each once.
pub proof fn the_order_holds_who_was_heard_lately(
    tracker: TrackerState,
    seen: Seq<Device>,
    now: u128,
    mac: [u8; 6],
)
    requires
        tracker.valid(),
    ensures
        tracker.observed(seen, now).order.no_duplicates(),
        tracker.observed(seen, now).order.contains(mac) <==> is_lately_heard(
            tracker.observed(seen, now).groups,
            mac,
            now,
        ),
        tracker.swept(now).order.no_duplicates(),
        tracker.swept(now).order.contains(mac) <==> is_lately_heard(
            tracker.swept(now).groups,
            mac,
            now,
        ),
        tracker.observed(seen, now).master == tracker.master,
        tracker.swept(now).master == tracker.master,
{
    tracker.observing_keeps(seen, now);
    tracker.sweeping_keeps(now);
    lists::filter_keeps_apart(
        tracker.order,
        |m: [u8; 6]| groups::is_heard(tracker.groups, m, now),
    );
    let observed = tracker.observed(seen, now);
    let swept = tracker.swept(now);
    groups::order_is_exactly_the_online(observed.groups, tracker.present(now), now);
    groups::order_is_exactly_the_online(swept.groups, tracker.order, now);
    heard_is_heard_lately(observed.groups, mac, now);
    heard_is_heard_lately(swept.groups, mac, now);
}

/// To be known and online is to be heard in the last fifteen seconds.
pub proof fn heard_is_heard_lately(known: Seq<Group>, mac: [u8; 6], now: u128)
    requires
        groups::macs_of(known).no_duplicates(),
    ensures
        groups::is_heard(known, mac, now) == is_lately_heard(known, mac, now),
{
    groups::placed(known, mac);
    if is_lately_heard(known, mac, now) {
        let i = choose|i: int|
            0 <= i < known.len() && (#[trigger] known[i]).device.mac == mac && now
                <= known[i].last_seen + 15_000_000_000;
        groups::only_place(known, i);
    }
    if let Some(i) = groups::place_of(known, mac) {
        assert(known[i].device.mac == mac);
    }
}

/// Who was heard in the fifteen seconds before a reply keeps the order in
/// which the slots were given out.
pub proof fn who_was_heard_lately_keeps_the_order(
    tracker: TrackerState,
    seen: Seq<Device>,
    now: u128,
    i: int,
    j: int,
)
    requires
        tracker.valid(),
        0 <= i < j < tracker.order.len(),
        is_lately_heard(tracker.groups, tracker.order[i], now),
        is_lately_heard(tracker.groups, tracker.order[j], now),
    ensures
        exists|a: int, b: int|
            0 <= a < b < tracker.observed(seen, now).order.len() && #[trigger] tracker.observed(
                seen,
                now,
            ).order[a] == tracker.order[i] && #[trigger] tracker.observed(seen, now).order[b]
                == tracker.order[j],
{
    heard_is_heard_lately(tracker.groups, tracker.order[i], now);
    heard_is_heard_lately(tracker.groups, tracker.order[j], now);
    crate::laws::devices_that_stay_keep_their_order(tracker, seen, now, i, j);
    let after = tracker.observed(seen, now).order;
    let (x, y) = choose|x: int, y: int|
        0 <= x < y < after.len() && #[trigger] after[x] == tracker.order[i] && #[trigger] after[y]
            == tracker.order[j];
    assert(after[x] == tracker.order[i] && after[y] == tracker.order[j]);
}

/// Who was not in the order, or not heard in the fifteen seconds before a
/// reply, comes behind all who were, and those who come with one reply are in
/// order of the first byte in which their addresses differ.
pub proof fn who_joins_comes_behind(
    tracker: TrackerState,
    seen: Seq<Device>,
    now: u128,
    a: int,
    b: int,
    k: int,
)
    requires
        tracker.valid(),
        0 <= a < tracker.observed(seen, now).order.len(),
        0 <= b < tracker.observed(seen, now).order.len(),
        !(tracker.order.contains(tracker.observed(seen, now).order[b]) && is_lately_heard(
            tracker.groups,
            tracker.observed(seen, now).order[b],
            now,
        )),
        0 <= k < 6,
    ensures
        ({
            let order = tracker.observed(seen, now).order;
            &&& tracker.order.contains(order[a]) && is_lately_heard(tracker.groups, order[a], now)
                ==> a < b
            &&& !(tracker.order.contains(order[a]) && is_lately_heard(
                tracker.groups,
                order[a],
                now,
            )) && a < b && (forall|j: int| 0 <= j < k ==> #[trigger] order[a][j] == order[b][j])
                ==> order[a][k] <= order[b][k]
        }),
{
    let order = tracker.observed(seen, now).order;
    heard_is_heard_lately(tracker.groups, order[a], now);
    heard_is_heard_lately(tracker.groups, order[b], now);
    crate::laws::devices_that_join_go_to_the_end(tracker, seen, now, a, b);
    if order[b][k] < order[a][k] && (forall|j: int|
        0 <= j < k ==> #[trigger] order[a][j] == order[b][j]) {
        assert forall|j: int| 0 <= j < k implies #[trigger] order[b][j] == order[a][j] by {
            assert(order[a][j] == order[b][j]);
        }
        addresses_go_by_their_first_difference(order[b], order[a], k);
    }
}

/// A sweep forgets a device of another dongle once it was silent for more than
/// fifteen seconds, one of the dongle's own once it was silent for ten
/// minutes, and nothing else; what it keeps it leaves as it is.
pub proof fn a_sweep_forgets_after_ten_minutes(tracker: TrackerState, now: u128, i: int)
    requires
        tracker.valid(),
        0 <= i < tracker.groups.len(),
    ensures
        ({
            let group = tracker.groups[i];
            let mac = group.device.mac;
            let own = group.device.master_mac == tracker.master;
            let kept = if own {
                now < group.last_seen + 600_000_000_000
            } else {
                now <= group.last_seen + 15_000_000_000
            };
            &&& kept ==> tracker.swept(now).groups.contains(group) && !tracker.forgotten(
                now,
            ).contains(mac)
            &&& !kept ==> tracker.forgotten(now).contains(mac) && !groups::macs_of(
                tracker.swept(now).groups,
            ).contains(mac)
        }),
{
    crate::laws::a_sweep_forgets_only_the_silent(tracker, now, i);
}

/// A sweep adds no group.
pub proof fn a_sweep_adds_nothing(tracker: TrackerState, now: u128, group: Group)
    requires
        tracker.swept(now).groups.contains(group),
    ensures
        tracker.groups.contains(group),
{
    lists::filtered(
        tracker.groups,
        |g: Group| groups::is_kept(g, tracker.master, now),
    );
}

/// The fan groups that are driven are those in the slot order that are of kind
/// 0, have a fan, and name the dongle: every one of them, and no other.
pub proof fn every_fan_group_is_driven(tracker: TrackerState, i: int)
    requires
        tracker.valid(),
        0 <= i < tracker.groups.len(),
    ensures
        ({
            let group = tracker.groups[i];
            groups::macs_of(tracker.fans()).contains(group.device.mac) <==> {
                &&& tracker.order.contains(group.device.mac)
                &&& group.device.device_type == 0
                &&& group.device.fan_count >= 1
                &&& group.device.master_mac == tracker.master
            }
        }),
{
    let group = tracker.groups[i];
    let mac = group.device.mac;
    let listed = tracker.listed();
    let fans = tracker.fans();
    groups::only_place(tracker.groups, i);
    tracker.listed_addresses();
    lists::filtered(listed, |g: Group| g.is_bound(tracker.master) && g.is_fans());
    if groups::macs_of(fans).contains(mac) {
        let k = choose|k: int|
            0 <= k < groups::macs_of(fans).len() && groups::macs_of(fans)[k] == mac;
        assert(fans.contains(fans[k]));
        let j = choose|j: int| 0 <= j < listed.len() && listed[j] == fans[k];
        assert(groups::macs_of(listed)[j] == mac);
        assert(tracker.order[j] == mac);
        assert(listed[j] == group);
    }
    if tracker.order.contains(mac) && group.device.device_type == 0 && group.device.fan_count >= 1
        && group.device.master_mac == tracker.master {
        let j = choose|j: int| 0 <= j < tracker.order.len() && tracker.order[j] == mac;
        assert(listed[j] == group);
        assert(listed.contains(group));
        assert(fans.contains(group));
        let k = choose|k: int| 0 <= k < fans.len() && fans[k] == group;
        assert(groups::macs_of(fans)[k] == mac);
    }
}

/// A target that is set is the one that was given; another than before has not
/// been sent and not been counted, the same as before leaves the group alone.
pub proof fn a_new_target_is_unsent(group: Group, target: [u8; FANS_PER_GROUP])
    ensures
        groups::aimed(group, target).target == Some(target),
        group.target == Some(target) ==> groups::aimed(group, target) == group,
        group.target != Some(target) ==> groups::aimed(group, target).last_sent is None
            && groups::aimed(group, target).unacknowledged == 0,
        groups::aimed(group, target).device == group.device,
        groups::aimed(group, target).last_seen == group.last_seen,
        groups::aimed(group, target).identity == group.identity,
        groups::aimed(group, target).shape == group.shape,
{
}

/// A target that is taken off leaves nothing to send; one that went out is
/// counted once more, with the time; neither touches what is known of the
/// device.
pub proof fn a_target_is_taken_off_or_counted(group: Group, now: u128)
    requires
        group.unacknowledged < u32::MAX,
    ensures
        groups::cleared(group).target is None,
        groups::cleared(group).last_sent is None,
        groups::cleared(group).unacknowledged == 0,
        groups::cleared(group).device == group.device,
        groups::cleared(group).last_seen == group.last_seen,
        groups::cleared(group).identity == group.identity,
        groups::cleared(group).shape == group.shape,
        groups::resent(group, now).target == group.target,
        groups::resent(group, now).last_sent == Some(now),
        groups::resent(group, now).unacknowledged == group.unacknowledged + 1,
        groups::resent(group, now).device == group.device,
        groups::resent(group, now).last_seen == group.last_seen,
        groups::resent(group, now).identity == group.identity,
        groups::resent(group, now).shape == group.shape,
{
}

/// A group is found under its address, and nothing is found under another.
pub proof fn a_group_is_found_under_its_address(tracker: TrackerState, i: int, mac: [u8; 6])
    requires
        tracker.valid(),
        0 <= i < tracker.groups.len(),
    ensures
        tracker.group(tracker.groups[i].device.mac) == Some(tracker.groups[i]),
        (forall|k: int| 0 <= k < tracker.groups.len() ==> (#[trigger] tracker.groups[k]).device.mac
            != mac) ==> tracker.group(mac) is None,
        tracker.group(mac) matches Some(group) ==> group.device.mac == mac
            && tracker.groups.contains(group),
{
    groups::only_place(tracker.groups, i);
    groups::placed(tracker.groups, mac);
    if let Some(k) = groups::place_of(tracker.groups, mac) {
        assert(tracker.groups[k].device.mac == mac);
        assert(tracker.groups.contains(tracker.groups[k]));
    }
}

/// A change to one group leaves the others, the order and the dongle alone.
pub proof fn a_change_concerns_one_group(
    tracker: TrackerState,
    mac: [u8; 6],
    change: spec_fn(Group) -> Group,
    i: int,
)
    requires
        tracker.valid(),
        0 <= i < tracker.groups.len(),
    ensures
        ({
            let after = tracker.changed(mac, change);
            &&& after.groups.len() == tracker.groups.len()
            &&& after.order == tracker.order
            &&& after.master == tracker.master
            &&& tracker.groups[i].device.mac == mac ==> after.groups[i] == change(
                tracker.groups[i],
            )
            &&& tracker.groups[i].device.mac != mac ==> after.groups[i] == tracker.groups[i]
        }),
{
    groups::only_place(tracker.groups, i);
    groups::placed(tracker.groups, mac);
}

/// A tracker starts with the dongle's address and nothing else.
pub proof fn a_tracker_starts_with_nothing(master: [u8; 6])
    ensures
        TrackerState::start(master).master == master,
        TrackerState::start(master).groups.len() == 0,
        TrackerState::start(master).order.len() == 0,
{
}

} // verus!
