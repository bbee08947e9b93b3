//! What holds of the groups and of the loop as a whole, whatever is heard and
//! whatever fails.

use crate::address;
use crate::discovery::{Device, FANS_PER_GROUP};
use crate::groups;
use crate::groups::{Group, TrackerState, KEEPALIVE};
use crate::lists;
use crate::model;
use crate::model::{asks_within_bounds, CoreState, LinkCall, FLOOR_PERCENT};
use crate::speed;
use crate::time;
use crate::wanted;
use vstd::prelude::*;

verus! {

/// Where `list` filtered by `pred` has an element of `list`: the elements let
/// through keep their order.
proof fn filter_keeps_order(list: Seq<[u8; 6]>, pred: spec_fn([u8; 6]) -> bool, i: int, j: int)
    requires
        list.no_duplicates(),
        0 <= i < j < list.len(),
        pred(list[i]),
        pred(list[j]),
    ensures
        exists|a: int, b: int|
            0 <= a < b < list.filter(pred).len() && #[trigger] list.filter(pred)[a] == list[i]
                && #[trigger] list.filter(pred)[b] == list[j],
    decreases list.len(),
{
    reveal(Seq::filter);
    let front = list.drop_last();
    let kept = front.filter(pred);
    if j == list.len() - 1 {
        lists::filtered(front, pred);
        assert(front[i] == list[i]);
        assert(front.contains(list[i]));
        assert(kept.contains(list[i]));
        let a = choose|a: int| 0 <= a < kept.len() && kept[a] == list[i];
        let all = list.filter(pred);
        assert(all =~= kept.push(list[j]));
        assert(all[a] == list[i]);
        assert(all[kept.len() as int] == list[j]);
    } else {
        filter_keeps_order(front, pred, i, j);
        let (a, b) = choose|a: int, b: int|
            0 <= a < b < kept.len() && #[trigger] kept[a] == front[i] && #[trigger] kept[b]
                == front[j];
        let all = list.filter(pred);
        assert(all[a] == kept[a]);
        assert(all[b] == kept[b]);
    }
}

/// Two devices that stay online keep their relative places in an order that is
/// brought up to date.
proof fn those_that_stay_keep_their_order(
    groups: Seq<Group>,
    order: Seq<[u8; 6]>,
    now: u128,
    i: int,
    j: int,
)
    requires
        order.no_duplicates(),
        0 <= i < j < order.len(),
        groups::is_heard(groups, order[i], now),
        groups::is_heard(groups, order[j], now),
    ensures
        exists|a: int, b: int|
            0 <= a < b < groups::reordered(groups, order, now).len()
                && #[trigger] groups::reordered(groups, order, now)[a] == order[i]
                && #[trigger] groups::reordered(groups, order, now)[b] == order[j],
{
    let heard = |mac: [u8; 6]| groups::is_heard(groups, mac, now);
    filter_keeps_order(order, heard, i, j);
    let stay = groups::staying(groups, order, now);
    let (a, b) = choose|a: int, b: int|
        0 <= a < b < stay.len() && #[trigger] stay[a] == order[i] && #[trigger] stay[b] == order[j];
    let all = groups::reordered(groups, order, now);
    assert(all[a] == stay[a]);
    assert(all[b] == stay[b]);
}

/// Where the order is brought up to date, what was not in it goes behind what
/// was, by ascending address.
proof fn joiners_go_behind(
    groups: Seq<Group>,
    order: Seq<[u8; 6]>,
    now: u128,
    a: int,
    b: int,
)
    requires
        groups::macs_of(groups).no_duplicates(),
        order.no_duplicates(),
        0 <= a < groups::reordered(groups, order, now).len(),
        0 <= b < groups::reordered(groups, order, now).len(),
        !order.contains(groups::reordered(groups, order, now)[b]),
    ensures
        order.contains(groups::reordered(groups, order, now)[a]) ==> a < b,
        !order.contains(groups::reordered(groups, order, now)[a]) && a < b ==> address::number_of(
            groups::reordered(groups, order, now)[a],
        ) <= address::number_of(groups::reordered(groups, order, now)[b]),
{
    let all = groups::reordered(groups, order, now);
    let stay = groups::staying(groups, order, now);
    let heard = |mac: [u8; 6]| groups::is_heard(groups, mac, now);
    let new = groups::joining(groups, stay, now);
    let sorted = address::ascending(new);
    lists::filtered(order, heard);
    address::ascending_is_ascending(new);
    if b < stay.len() {
        assert(stay.contains(stay[b]));
    }
    if a < stay.len() {
        assert(stay.contains(stay[a]));
    } else {
        let mac = all[a];
        assert(sorted[a - stay.len()] == mac);
        assert(sorted.contains(mac));
        if order.contains(mac) {
            groups::order_is_exactly_the_online(groups, order, now);
            assert(all.contains(mac));
            assert(heard(mac));
            assert(stay.contains(mac));
            let k = choose|k: int| 0 <= k < stay.len() && stay[k] == mac;
            assert(all[k] == all[a]);
        }
    }
}

/// What was heard stays heard through sightings.
proof fn sightings_keep_heard(groups: Seq<Group>, seen: Seq<Device>, now: u128, mac: [u8; 6])
    requires
        groups::is_heard(groups, mac, now),
    ensures
        groups::is_heard(groups::noted_all(groups, seen, now), mac, now),
    decreases seen.len(),
{
    if seen.len() > 0 {
        sightings_keep_heard(groups, seen.drop_last(), now, mac);
        let before = groups::noted_all(groups, seen.drop_last(), now);
        let after = groups::noted(before, seen.last(), now);
        groups::placed(before, mac);
        groups::placed(before, seen.last().mac);
        let k = groups::place_of(before, mac)->0;
        let macs = groups::macs_of(before);
        address::the_place_is_the_first(macs, mac);
        address::the_place_is_the_first(macs, seen.last().mac);
        assert forall|i: int| 0 <= i < before.len() implies #[trigger] groups::macs_of(after)[i]
            == macs[i] by {}
        address::the_place_is_the_first(groups::macs_of(after), mac);
        assert(groups::macs_of(after)[k] == mac);
        let j = groups::place_of(after, mac)->0;
        if j < k {
            assert(groups::macs_of(after)[j] == macs[j]);
        }
        assert(after[k].is_online(now));
    }
}

/// A reply lets every device that was in the slot order and online keep its
/// place among the others.
pub proof fn devices_that_stay_keep_their_order(
    tracker: TrackerState,
    seen: Seq<Device>,
    now: u128,
    i: int,
    j: int,
)
    requires
        tracker.valid(),
        0 <= i < j < tracker.order.len(),
        groups::is_heard(tracker.groups, tracker.order[i], now),
        groups::is_heard(tracker.groups, tracker.order[j], now),
    ensures
        exists|a: int, b: int|
            0 <= a < b < tracker.observed(seen, now).order.len() && #[trigger] tracker.observed(
                seen,
                now,
            ).order[a] == tracker.order[i] && #[trigger] tracker.observed(seen, now).order[b]
                == tracker.order[j],
{
    let heard = |mac: [u8; 6]| groups::is_heard(tracker.groups, mac, now);
    let present = tracker.present(now);
    filter_keeps_order(tracker.order, heard, i, j);
    lists::filter_keeps_apart(tracker.order, heard);
    let (a, b) = choose|a: int, b: int|
        0 <= a < b < present.len() && #[trigger] present[a] == tracker.order[i]
            && #[trigger] present[b] == tracker.order[j];
    sightings_keep_heard(tracker.groups, seen, now, present[a]);
    sightings_keep_heard(tracker.groups, seen, now, present[b]);
    those_that_stay_keep_their_order(
        groups::noted_all(tracker.groups, seen, now),
        present,
        now,
        a,
        b,
    );
    let after = tracker.observed(seen, now).order;
    let (x, y) = choose|x: int, y: int|
        0 <= x < y < after.len() && #[trigger] after[x] == present[a] && #[trigger] after[y]
            == present[b];
    assert(after[x] == tracker.order[i] && after[y] == tracker.order[j]);
}

/// A device that joins the slot order with a reply, or rejoins it after it
/// had gone offline, goes behind every device that stayed in it, and those
/// that join at once are in ascending order of their addresses.
pub proof fn devices_that_join_go_to_the_end(
    tracker: TrackerState,
    seen: Seq<Device>,
    now: u128,
    a: int,
    b: int,
)
    requires
        tracker.valid(),
        0 <= a < tracker.observed(seen, now).order.len(),
        0 <= b < tracker.observed(seen, now).order.len(),
        !(tracker.order.contains(tracker.observed(seen, now).order[b]) && groups::is_heard(
            tracker.groups,
            tracker.observed(seen, now).order[b],
            now,
        )),
    ensures
        tracker.order.contains(tracker.observed(seen, now).order[a]) && groups::is_heard(
            tracker.groups,
            tracker.observed(seen, now).order[a],
            now,
        ) ==> a < b,
        !(tracker.order.contains(tracker.observed(seen, now).order[a]) && groups::is_heard(
            tracker.groups,
            tracker.observed(seen, now).order[a],
            now,
        )) && a < b ==> address::number_of(tracker.observed(seen, now).order[a])
            <= address::number_of(tracker.observed(seen, now).order[b]),
{
    let heard = |mac: [u8; 6]| groups::is_heard(tracker.groups, mac, now);
    lists::filtered(tracker.order, heard);
    lists::filter_keeps_apart(tracker.order, heard);
    tracker.observing_keeps(seen, now);
    groups::noting_all_keeps(tracker.groups, seen, now);
    joiners_go_behind(
        groups::noted_all(tracker.groups, seen, now),
        tracker.present(now),
        now,
        a,
        b,
    );
}

/// A device that went silent for too long and is heard again is in the slot
/// order, behind every device that stayed in it.
pub proof fn a_returning_device_rejoins_at_the_end(
    tracker: TrackerState,
    seen: Seq<Device>,
    now: u128,
    returning: [u8; 6],
    stayed: [u8; 6],
)
    requires
        tracker.valid(),
        tracker.order.contains(returning),
        !groups::is_heard(tracker.groups, returning, now),
        groups::is_heard(tracker.observed(seen, now).groups, returning, now),
        tracker.order.contains(stayed),
        groups::is_heard(tracker.groups, stayed, now),
    ensures
        exists|a: int, b: int|
            0 <= a < b < tracker.observed(seen, now).order.len() && #[trigger] tracker.observed(
                seen,
                now,
            ).order[a] == stayed && #[trigger] tracker.observed(seen, now).order[b] == returning,
{
    let after = tracker.observed(seen, now);
    let heard = |mac: [u8; 6]| groups::is_heard(tracker.groups, mac, now);
    lists::filter_keeps_apart(tracker.order, heard);
    groups::noting_all_keeps(tracker.groups, seen, now);
    groups::order_is_exactly_the_online(after.groups, tracker.present(now), now);
    sightings_keep_heard(tracker.groups, seen, now, stayed);
    assert(after.order.contains(returning));
    assert(after.order.contains(stayed));
    let a = choose|a: int| 0 <= a < after.order.len() && after.order[a] == stayed;
    let b = choose|b: int| 0 <= b < after.order.len() && after.order[b] == returning;
    devices_that_join_go_to_the_end(tracker, seen, now, a, b);
    assert(after.order[a] == stayed && after.order[b] == returning);
}

/// A device's identity changes only on the third sighting in a row that
/// agrees on another one: after the first two it is what it was, after the
/// third it is what they say.
pub proof fn identity_takes_three_sightings(
    group: Group,
    first: Device,
    second: Device,
    third: Device,
    at: u128,
    later: u128,
    last: u128,
)
    requires
        group.is_online(at),
        group.identity is None || (group.identity->0).0 != groups::identity_of(first),
        groups::identity_of(first) != groups::identity_of(group.device),
        groups::identity_of(second) == groups::identity_of(first),
        groups::identity_of(third) == groups::identity_of(first),
        group.sighted(first, at).is_online(later),
        group.sighted(first, at).sighted(second, later).is_online(last),
    ensures
        groups::identity_of(group.sighted(first, at).device) == groups::identity_of(group.device),
        groups::identity_of(group.sighted(first, at).sighted(second, later).device)
            == groups::identity_of(group.device),
        groups::identity_of(
            group.sighted(first, at).sighted(second, later).sighted(third, last).device,
        ) == groups::identity_of(first),
{
}

/// A device's shape changes only on the third sighting in a row that agrees
/// on another one, so a single garbled record changes neither which slots are
/// driven nor the duty floor.
pub proof fn shape_takes_three_sightings(
    group: Group,
    first: Device,
    second: Device,
    third: Device,
    at: u128,
    later: u128,
    last: u128,
)
    requires
        group.is_online(at),
        group.shape is None || (group.shape->0).0 != groups::shape_of(first),
        groups::shape_of(first) != groups::shape_of(group.device),
        groups::shape_of(second) == groups::shape_of(first),
        groups::shape_of(third) == groups::shape_of(first),
        group.sighted(first, at).is_online(later),
        group.sighted(first, at).sighted(second, later).is_online(last),
    ensures
        groups::shape_of(group.sighted(first, at).device) == groups::shape_of(group.device),
        groups::shape_of(group.sighted(first, at).sighted(second, later).device)
            == groups::shape_of(group.device),
        groups::shape_of(
            group.sighted(first, at).sighted(second, later).sighted(third, last).device,
        ) == groups::shape_of(first),
        speed::floor_duty(group.sighted(first, at).device) == speed::floor_duty(group.device),
{
}

/// A sighting of an online device that says what is confirmed clears the
/// count of those that said otherwise: three must then agree anew.
pub proof fn a_disagreeing_sighting_restarts_the_count(group: Group, seen: Device, now: u128)
    requires
        group.is_online(now),
    ensures
        groups::identity_of(seen) == groups::identity_of(group.device) ==> group.sighted(
            seen,
            now,
        ).identity is None,
        groups::shape_of(seen) == groups::shape_of(group.device) ==> group.sighted(
            seen,
            now,
        ).shape is None,
        groups::identity_of(seen) != groups::identity_of(group.device) && (group.identity is None
            || (group.identity->0).0 != groups::identity_of(seen)) ==> group.sighted(
            seen,
            now,
        ).identity == Some((groups::identity_of(seen), 1u32)),
{
}

/// A device that returns after going offline is taken over as it is heard.
pub proof fn a_returning_device_is_taken_as_heard(group: Group, seen: Device, now: u128)
    requires
        !group.is_online(now),
    ensures
        group.sighted(seen, now).device == seen,
        group.sighted(seen, now).is_online(now),
{
}

/// A sighting updates what a device reports at once, and touches neither the
/// target nor when it was sent; the count of sends it can only clear.
pub proof fn a_sighting_keeps_what_is_asked(group: Group, seen: Device, now: u128)
    ensures
        ({
            let after = group.sighted(seen, now);
            &&& after.target == group.target
            &&& after.last_sent == group.last_sent
            &&& after.unacknowledged == group.unacknowledged || after.unacknowledged == 0
            &&& after.device.mac == seen.mac
            &&& after.device.rpm == seen.rpm
            &&& after.device.duty == seen.duty
            &&& after.device.sequence == seen.sequence
            &&& after.device.effect == seen.effect
            &&& after.last_seen == now
        }),
{
}

/// When a target is due: at once where it has not been sent, always while the
/// device reports anything else, and otherwise again a second after it went
/// out.
pub proof fn a_target_is_repeated_every_second(group: Group, now: u128)
    ensures
        group.target is None ==> !group.is_due(now) && !group.is_acknowledged(now),
        group.target is Some && group.last_sent is None ==> group.is_due(now),
        group.target is Some && !speed::confirms(group.device.duty, group.target->0)
            ==> group.is_due(now),
        group.last_sent matches Some(sent) ==> group.target is Some && time::passed(now, sent)
            >= KEEPALIVE ==> group.is_due(now),
        group.last_sent matches Some(sent) ==> group.is_acknowledged(now) && time::passed(now, sent)
            < KEEPALIVE ==> !group.is_due(now),
{
}

/// Setting the same target again changes nothing, so it does not count as
/// unsent; another target does.
pub proof fn the_same_target_is_not_set_twice(group: Group, target: [u8; FANS_PER_GROUP])
    ensures
        groups::aimed(groups::aimed(group, target), target) == groups::aimed(group, target),
        group.target == Some(target) ==> groups::aimed(group, target) == group,
        group.target != Some(target) ==> groups::aimed(group, target).is_due(0),
{
}

/// A sweep forgets a device not bound to the dongle once it is offline, and
/// one that is bound once it has been silent for ten minutes; everything else
/// it keeps as it is.
pub proof fn a_sweep_forgets_only_the_silent(tracker: TrackerState, now: u128, i: int)
    requires
        tracker.valid(),
        0 <= i < tracker.groups.len(),
    ensures
        ({
            let group = tracker.groups[i];
            let silent = time::passed(now, group.last_seen);
            let kept = if group.is_bound(tracker.master) {
                silent <= groups::OFFLINE_AFTER || silent < groups::FORGET_AFTER
            } else {
                silent <= groups::OFFLINE_AFTER
            };
            &&& kept ==> tracker.swept(now).groups.contains(group) && !tracker.forgotten(
                now,
            ).contains(group.device.mac)
            &&& !kept ==> tracker.forgotten(now).contains(group.device.mac)
                && !groups::macs_of(tracker.swept(now).groups).contains(group.device.mac)
        }),
{
    let group = tracker.groups[i];
    let keeps = |g: Group| groups::is_kept(g, tracker.master, now);
    let drops = |g: Group| !groups::is_kept(g, tracker.master, now);
    lists::filtered(tracker.groups, keeps);
    lists::filtered(tracker.groups, drops);
    assert(tracker.groups.contains(group));
    let kept = tracker.groups.filter(keeps);
    let dropped = tracker.groups.filter(drops);
    if keeps(group) {
        assert(kept.contains(group));
        if groups::macs_of(dropped).contains(group.device.mac) {
            let k = choose|k: int|
                0 <= k < groups::macs_of(dropped).len() && groups::macs_of(dropped)[k]
                    == group.device.mac;
            assert(dropped.contains(dropped[k]));
            let j = choose|j: int|
                0 <= j < tracker.groups.len() && tracker.groups[j] == dropped[k];
            assert(groups::macs_of(tracker.groups)[j] == groups::macs_of(tracker.groups)[i]);
        }
    } else {
        assert(drops(group));
        assert(dropped.contains(group));
        let k = choose|k: int| 0 <= k < dropped.len() && dropped[k] == group;
        assert(groups::macs_of(dropped)[k] == group.device.mac);
        if groups::macs_of(kept).contains(group.device.mac) {
            let k = choose|k: int|
                0 <= k < groups::macs_of(kept).len() && groups::macs_of(kept)[k]
                    == group.device.mac;
            assert(kept.contains(kept[k]));
            let j = choose|j: int| 0 <= j < tracker.groups.len() && tracker.groups[j] == kept[k];
            assert(groups::macs_of(tracker.groups)[j] == groups::macs_of(tracker.groups)[i]);
        }
    }
}

/// A host can ask for nothing below the floor or above a hundred: no request
/// leaves anything else behind, and a loop starts with nothing asked.
pub proof fn requests_are_held_to_bounds(s: CoreState, mac: [u8; 6], percent: u8, other: [u8; 6])
    requires
        asks_within_bounds(s.wanted),
    ensures
        asks_within_bounds(s.wanting(mac, percent).wanted),
        asks_within_bounds(s.released(mac).wanted),
        asks_within_bounds(CoreState::start(mac, percent).wanted),
        s.wanting(mac, percent).wanted[wanted::key_of(mac)] == model::held_percent(percent),
        other != mac ==> s.wanting(mac, percent).percent_for(other) == s.percent_for(other),
        other != mac ==> s.released(mac).percent_for(other) == s.percent_for(other),
{
    if other != mac && wanted::key_of(other) == wanted::key_of(mac) {
        wanted::keys_tell_groups_apart(other, mac);
    }
}

/// What a host asks for at the floor or above turns every fan of a group: the
/// duty sent for each of its fans is at least that of the floor, whatever the
/// model and the side the fans chain from.
pub proof fn every_fan_turns(device: Device, percent: u8, slot: int)
    requires
        FLOOR_PERCENT <= percent <= 100,
        0 <= slot < FANS_PER_GROUP,
        slot < device.fan_count,
    ensures
        speed::prepared(device, model::spread(percent, device.fan_count))[slot]
            >= speed::percent_duty(FLOOR_PERCENT),
        percent == 100 ==> speed::prepared(device, model::spread(percent, device.fan_count))[slot]
            == speed::MAX_DUTY,
{
    let from = speed::laid_out(device, slot);
    assert(0 <= from < 4 && from < device.fan_count);
    let wanted = model::spread(percent, device.fan_count);
    assert(wanted[from] == speed::percent_duty(percent));
    assert(speed::percent_duty(percent) >= speed::percent_duty(FLOOR_PERCENT));
    assert(speed::is_driven(device, from));
}

/// A slot without a fan is sent no duty, whatever a host asks for, unless the
/// device has a pump.
pub proof fn an_empty_slot_is_sent_nothing(device: Device, percent: u8, slot: int)
    requires
        0 <= slot < FANS_PER_GROUP,
        slot >= device.fan_count,
        !speed::has_pump(device),
    ensures
        speed::prepared(device, model::spread(percent, device.fan_count))[slot] == 0,
{
    assert(speed::laid_out(device, slot) == slot);
    assert(!speed::is_driven(device, slot));
}

/// Whether a call is no send, or the sending of a speed command that turns
/// every fan of a fan group of the dongle in the slot order that is to be
/// driven: on the group's channel, to its receiver type and address, each fan
/// at the floor or above, at full duty while there is an alarm.
pub open spec fn turns_its_fans(s: CoreState, call: LinkCall) -> bool {
    match call {
        LinkCall::Send { channel, receiver, payload, .. } => exists|i: int|
            0 <= i < s.tracker.groups.len() && is_turned_by(
                #[trigger] s.tracker.groups[i],
                s.tracker.master,
                channel,
                receiver,
                payload,
                s.alarm is Some,
            ) && s.tracker.order.contains(s.tracker.groups[i].device.mac) && s.percent_for(
                s.tracker.groups[i].device.mac,
            ) is Some,
        _ => true,
    }
}

/// Whether a payload is a speed command that turns every fan of a group, at
/// full duty where `full` says so, and nothing in the slots without one.
pub open spec fn is_turned_by(
    group: Group,
    master: [u8; 6],
    channel: u8,
    receiver: u8,
    payload: Seq<u8>,
    full: bool,
) -> bool {
    &&& group.is_bound(master)
    &&& group.is_fans()
    &&& channel == group.device.channel
    &&& receiver == group.device.receiver
    &&& payload.len() == 240
    &&& payload[1] == speed::PWM
    &&& payload.subrange(2, 8) == group.device.mac@
    &&& forall|slot: int|
        0 <= slot < FANS_PER_GROUP ==> is_turned_at(
            #[trigger] payload[17 + slot],
            slot < group.device.fan_count,
            full,
        )
}

/// Whether a slot of a speed command, which has a fan or has none, holds what
/// it should.
pub open spec fn is_turned_at(duty: u8, has_fan: bool, full: bool) -> bool {
    if !has_fan {
        duty == 0
    } else if full {
        duty == speed::MAX_DUTY
    } else {
        duty >= speed::percent_duty(FLOOR_PERCENT)
    }
}

/// What driving one group sends.
proof fn one_command_turns_its_fans(
    s: CoreState,
    mac: [u8; 6],
    master: [u8; 6],
    now: u128,
    t: Seq<LinkCall>,
    at: int,
)
    requires
        0 <= at,
        asks_within_bounds(s.wanted),
        s.tracker.order.contains(mac),
        s.tracker.group(mac) matches Some(group) ==> group.is_bound(s.tracker.master)
            && group.is_fans(),
        s.drive_one_run(mac, master, now, t, at) is Some,
    ensures
        s.drive_one_run(mac, master, now, t, at) matches Some((_, end)) ==> at <= end && forall|
            k: int,
        |
            at <= k < end ==> turns_its_fans(s, #[trigger] t[k]),
{
    address::the_place_is_the_first(groups::macs_of(s.tracker.groups), mac);
    if let Some(percent) = s.percent_for(mac) {
        if let Some(group) = s.tracker.group(mac) {
            let i = groups::place_of(s.tracker.groups, mac)->0;
            let aimed = s.aimed(mac, group, percent, now);
            assert(groups::macs_of(aimed.tracker.groups) =~= groups::macs_of(s.tracker.groups));
            let set = aimed.tracker.groups[i];
            assert(aimed.tracker.group(mac) == Some(set));
            assert(set.device == group.device);
            if set.is_due(now) {
                let target = speed::prepared(
                    group.device,
                    model::spread(percent, group.device.fan_count),
                );
                assert(set.target == Some(target));
                let payload = aimed.command(master, set);
                assert(payload.subrange(2, 8) =~= group.device.mac@);
                assert forall|slot: int| 0 <= slot < FANS_PER_GROUP implies is_turned_at(
                    #[trigger] payload[17 + slot],
                    slot < group.device.fan_count,
                    s.alarm is Some,
                ) by {
                    assert(payload[17 + slot] == target[slot]);
                    if slot < group.device.fan_count {
                        every_fan_turns(group.device, percent, slot);
                    } else {
                        an_empty_slot_is_sent_nothing(group.device, percent, slot);
                    }
                }
                if let LinkCall::Send { channel, receiver, payload: sent, .. } = t[at] {
                    assert(is_turned_by(
                        s.tracker.groups[i],
                        s.tracker.master,
                        channel,
                        receiver,
                        sent,
                        s.alarm is Some,
                    ));
                    assert(turns_its_fans(s, t[at]));
                }
            }
        }
    }
}

/// A group that is driven is a fan group of the dongle.
pub proof fn driven_are_fans(s: CoreState, mac: [u8; 6])
    requires
        s.tracker.valid(),
        s.driven().contains(mac),
    ensures
        s.tracker.group(mac) matches Some(group) && group.is_bound(s.tracker.master)
            && group.is_fans(),
        s.tracker.order.contains(mac),
{
    let fans = s.tracker.fans();
    let k = choose|k: int| 0 <= k < s.driven().len() && s.driven()[k] == mac;
    lists::filtered(
        s.tracker.listed(),
        |g: Group| g.is_bound(s.tracker.master) && g.is_fans(),
    );
    assert(fans.contains(fans[k]));
    let listed = s.tracker.listed();
    let j = choose|j: int| 0 <= j < listed.len() && listed[j] == fans[k];
    s.tracker.listed_addresses();
    assert(groups::macs_of(listed)[j] == mac);
    assert(s.tracker.order[j] == mac);
    assert(groups::macs_of(s.tracker.groups).contains(s.tracker.order[j]));
    address::the_place_is_the_first(groups::macs_of(s.tracker.groups), mac);
}

/// No fan is driven below the floor: whatever is asked and whatever fails,
/// every send of a pass after its heartbeat goes to an online fan group of
/// the dongle and turns every fan of it, at the duty of the floor at least.
pub proof fn no_fan_is_driven_below_the_floor(
    s: CoreState,
    macs: Seq<[u8; 6]>,
    master: [u8; 6],
    now: u128,
    t: Seq<LinkCall>,
    at: int,
)
    requires
        0 <= at,
        s.tracker.valid(),
        asks_within_bounds(s.wanted),
        forall|i: int| 0 <= i < macs.len() ==> s.driven().contains(#[trigger] macs[i]),
        s.drive_run(macs, master, now, t, at) is Some,
    ensures
        s.drive_run(macs, master, now, t, at) matches Some((_, end)) ==> at <= end && forall|
            k: int,
        |
            at <= k < end ==> turns_its_fans(s, #[trigger] t[k]),
    decreases macs.len(),
{
    if macs.len() > 0 {
        let front = macs.drop_last();
        assert forall|i: int| 0 <= i < front.len() implies s.driven().contains(
            #[trigger] front[i],
        ) by {
            assert(front[i] == macs[i]);
        }
        no_fan_is_driven_below_the_floor(s, front, master, now, t, at);
        s.drive_keeps(front, master, now, t, at);
        if let Some((mid, end)) = s.drive_run(front, master, now, t, at) {
            let mac = macs[macs.len() - 1];
            assert(s.driven().contains(mac));
            driven_are_fans(s, mac);
            s.same_places(mid);
            address::the_place_is_the_first(groups::macs_of(s.tracker.groups), mac);
            one_command_turns_its_fans(mid, mac, master, now, t, end);
            assert forall|k: int|
                0 <= k < t.len() && turns_its_fans(mid, #[trigger] t[k]) implies turns_its_fans(
                s,
                t[k],
            ) by {
                if let LinkCall::Send { channel, receiver, payload, .. } = t[k] {
                    let i = choose|i: int|
                        0 <= i < mid.tracker.groups.len() && is_turned_by(
                            #[trigger] mid.tracker.groups[i],
                            mid.tracker.master,
                            channel,
                            receiver,
                            payload,
                            mid.alarm is Some,
                        ) && mid.tracker.order.contains(mid.tracker.groups[i].device.mac)
                            && mid.percent_for(mid.tracker.groups[i].device.mac) is Some;
                    assert(mid.tracker.groups[i].device == s.tracker.groups[i].device);
                    assert(is_turned_by(
                        s.tracker.groups[i],
                        s.tracker.master,
                        channel,
                        receiver,
                        payload,
                        s.alarm is Some,
                    ));
                }
            }
        }
    }
}

} // verus!
