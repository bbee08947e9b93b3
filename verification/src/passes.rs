//! What holds of a pass of the loop as a whole, whatever is heard and whatever
//! fails.

use crate::address;
use crate::discovery::{Device, FANS_PER_GROUP};
use crate::frame::RF_PAYLOAD_LEN;
use crate::groups;
use crate::groups::{Group, TrackerState};
use crate::heartbeat;
use crate::heartbeat::Clock;
use crate::laws::{
    driven_are_fans, every_fan_turns, is_turned_by,
    no_fan_is_driven_below_the_floor, turns_its_fans,
};
use crate::lists;
use crate::model;
use crate::model::{
    CoreState, GroupState, LinkCall, Step, FAILSAFE_PERCENT, POLL_FAILURES, RECONNECT_FIRST_WAIT,
    RECONNECT_MAX_WAIT,
};
use crate::speed;
use crate::time::SECOND;
use crate::wanted;
use vstd::prelude::*;

verus! {

/// The state at the point of a pass where the groups are driven.
pub open spec fn at_driving(polled: CoreState, now: u128) -> CoreState {
    polled.swept(now).judged()
}

/// What a poll leaves alone.
proof fn polling_keeps(s: CoreState, now: u128, t: Seq<LinkCall>, at: int)
    requires
        s.tracker.valid(),
    ensures
        s.poll_run(now, t, at) matches Some((after, end)) ==> {
            &&& after.tracker.valid()
            &&& after.tracker.master == s.tracker.master
            &&& after.wanted == s.wanted
            &&& after.channel == s.channel
            &&& after.snapshot.ticks == s.snapshot.ticks
        },
{
    if let Some((after, end)) = s.poll_run(now, t, at) {
        if let LinkCall::Poll { result: Ok(reply) } = t[at] {
            s.tracker.observing_keeps(reply.devices, now);
        }
    }
}

/// Where a pass comes to driving the groups: the state it drives them from,
/// and how far its calls have come.
pub open spec fn driving_point(
    s: CoreState,
    master: [u8; 6],
    now: u128,
    clock: Clock,
    t: Seq<LinkCall>,
    at: int,
) -> Step {
    match s.counted().heartbeat_run(master, now, clock, t, at) {
        None => None,
        Some((beaten, here)) => match beaten.poll_run(now, t, here) {
            None => None,
            Some((polled, here)) => Some((at_driving(polled, now), here)),
        },
    }
}

/// What holds where a pass comes to driving the groups.
pub proof fn a_pass_comes_to_driving(
    s: CoreState,
    master: [u8; 6],
    now: u128,
    clock: Clock,
    t: Seq<LinkCall>,
    at: int,
)
    requires
        s.valid(),
        s.tick_run(master, now, clock, t, at) is Some,
    ensures
        driving_point(s, master, now, clock, t, at) matches Some((judged, here)) && {
            &&& at < here
            &&& judged.tracker.valid()
            &&& judged.tracker.master == s.tracker.master
            &&& judged.wanted == s.wanted
            &&& is_current(judged.tracker, now)
            &&& judged.drive_run(judged.driven(), master, now, t, here) is Some
        },
{
    if let Some((beaten, end1)) = s.counted().heartbeat_run(master, now, clock, t, at) {
        polling_keeps(beaten, now, t, end1);
        if let Some((polled, end2)) = beaten.poll_run(now, t, end1) {
            let judged = at_driving(polled, now);
            polled.tracker.sweeping_keeps(now);
            groups::order_is_exactly_the_online(judged.tracker.groups, polled.tracker.order, now);
        }
    }
}

/// Whether a call is the heartbeat, or no send, or a speed command that turns
/// every fan of a group to be driven that is online.
pub open spec fn is_harmless(judged: CoreState, call: LinkCall, now: u128) -> bool {
    match call {
        LinkCall::Send { channel, receiver, payload, .. } => payload[1] == heartbeat::CLOCK_SYNC
            || exists|i: int|
            0 <= i < judged.tracker.groups.len() && is_turned_by(
                #[trigger] judged.tracker.groups[i],
                judged.tracker.master,
                channel,
                receiver,
                payload,
                judged.alarm is Some,
            ) && judged.tracker.groups[i].is_online(now) && judged.percent_for(
                judged.tracker.groups[i].device.mac,
            ) is Some,
        _ => true,
    }
}

/// No fan is ever sent a duty below the floor, and no group that is not heard
/// is sent anything: of the calls that a pass of the loop makes, each that is
/// not the heartbeat and sends anything sends a speed command to a fan group
/// bound to the dongle that is online and turns every fan of it, at the duty
/// of the floor at least, at full duty while there is an alarm, and with zero
/// for every slot that has no fan.
pub proof fn a_pass_turns_every_fan_it_drives(
    s: CoreState,
    master: [u8; 6],
    now: u128,
    clock: Clock,
    t: Seq<LinkCall>,
    at: int,
    after: CoreState,
    end: int,
)
    requires
        0 <= at,
        s.valid(),
        s.tick_run(master, now, clock, t, at) == Some((after, end)),
    ensures
        driving_point(s, master, now, clock, t, at) matches Some((judged, _)) && forall|k: int|
            at <= k < end ==> is_harmless(judged, #[trigger] t[k], now),
{
    a_pass_comes_to_driving(s, master, now, clock, t, at);
    let counted = s.counted();
    heartbeat_calls(counted, master, now, clock, t, at);
    if let Some((beaten, end1)) = counted.heartbeat_run(master, now, clock, t, at) {
        poll_calls(beaten, now, t, end1);
        if let Some((polled, end2)) = beaten.poll_run(now, t, end1) {
            let judged = at_driving(polled, now);
            assert forall|i: int| 0 <= i < judged.driven().len() implies judged.driven().contains(
                #[trigger] judged.driven()[i],
            ) by {}
            no_fan_is_driven_below_the_floor(judged, judged.driven(), master, now, t, end2);
            if let Some((driven, end3)) = judged.drive_run(judged.driven(), master, now, t, end2) {
                recover_calls(driven, now, t, end3);
                assert forall|k: int| at <= k < end implies is_harmless(
                    judged,
                    #[trigger] t[k],
                    now,
                ) by {
                    if k == at && k < end1 {
                        assert(counted.beat(master, clock)[1] == heartbeat::CLOCK_SYNC);
                    }
                    if end2 <= k < end3 {
                        a_driving_call_is_harmless(judged, t[k], now);
                    }
                }
            }
        }
    }
}

/// A call that turns the fans of a group in a slot order of the moment turns
/// those of one that is online.
proof fn a_driving_call_is_harmless(judged: CoreState, call: LinkCall, now: u128)
    requires
        judged.tracker.valid(),
        is_current(judged.tracker, now),
        turns_its_fans(judged, call),
    ensures
        is_harmless(judged, call, now),
{
    if let LinkCall::Send { channel, receiver, payload, .. } = call {
        let i = choose|i: int|
            0 <= i < judged.tracker.groups.len() && is_turned_by(
                #[trigger] judged.tracker.groups[i],
                judged.tracker.master,
                channel,
                receiver,
                payload,
                judged.alarm is Some,
            ) && judged.tracker.order.contains(judged.tracker.groups[i].device.mac)
                && judged.percent_for(judged.tracker.groups[i].device.mac) is Some;
        groups::only_place(judged.tracker.groups, i);
        let mac = judged.tracker.groups[i].device.mac;
        assert(groups::is_heard(judged.tracker.groups, mac, now));
        assert(judged.tracker.groups[i].is_online(now));
    }
}

/// Every pass counts itself and polls once: the passes go up by one, and so
/// do the polls that succeeded and failed together. What is asked of the
/// groups survives it, whatever was heard, lost or forgotten.
pub proof fn a_pass_polls_once_and_forgets_no_request(
    s: CoreState,
    master: [u8; 6],
    now: u128,
    clock: Clock,
    t: Seq<LinkCall>,
    at: int,
)
    requires
        s.valid(),
        s.has_room(now),
        s.tick_run(master, now, clock, t, at) is Some,
    ensures
        s.tick_run(master, now, clock, t, at) matches Some((after, _)) ==> {
            &&& after.snapshot.ticks == s.snapshot.ticks + 1
            &&& after.snapshot.polls + after.snapshot.poll_failures == s.snapshot.polls
                + s.snapshot.poll_failures + 1
            &&& after.wanted == s.wanted
            &&& after.tracker.master == s.tracker.master
        },
{
    let counted = s.counted();
    if let Some((beaten, end1)) = counted.heartbeat_run(master, now, clock, t, at) {
        if let Some((polled, end2)) = beaten.poll_run(now, t, end1) {
            let judged = at_driving(polled, now);
            judged.drive_keeps(judged.driven(), master, now, t, end2);
        }
    }
}

/// The alarm is up to date at the end of every pass: it is raised if and only
/// if the polls failed three times in a row and the dongle is not back, and
/// the host is told so.
pub proof fn the_alarm_follows_the_failures(
    s: CoreState,
    master: [u8; 6],
    now: u128,
    clock: Clock,
    t: Seq<LinkCall>,
    at: int,
)
    requires
        s.tick_run(master, now, clock, t, at) is Some,
    ensures
        s.tick_run(master, now, clock, t, at) matches Some((after, _)) ==> {
            &&& after.alarm is Some <==> after.failures_in_a_row >= POLL_FAILURES
            &&& after.snapshot.alarm == after.alarm
        },
{
    let counted = s.counted();
    if let Some((beaten, end1)) = counted.heartbeat_run(master, now, clock, t, at) {
        if let Some((polled, end2)) = beaten.poll_run(now, t, end1) {
            let judged = at_driving(polled, now);
            judged.drive_keeps(judged.driven(), master, now, t, end2);
        }
    }
}

/// The failures in a row: a poll that succeeds starts them over, one that
/// fails adds one, and a reconnect starts them over too.
pub proof fn failures_count_up_until_the_dongle_is_back(
    s: CoreState,
    now: u128,
    t: Seq<LinkCall>,
    at: int,
    to: [u8; 6],
    channel: u8,
)
    requires
        s.failures_in_a_row < u32::MAX,
        s.poll_run(now, t, at) is Some,
    ensures
        s.poll_run(now, t, at) matches Some((after, _)) ==> (match t[at] {
            LinkCall::Poll { result: Ok(_) } => after.failures_in_a_row == 0,
            _ => after.failures_in_a_row == s.failures_in_a_row + 1,
        }),
        s.reconnected(to, channel).failures_in_a_row == 0,
        s.reconnected(to, channel).alarm is None,
{
}

/// What driving one group leaves of the others.
pub proof fn others_keep_their_targets(
    s: CoreState,
    mac: [u8; 6],
    other: [u8; 6],
    master: [u8; 6],
    now: u128,
    t: Seq<LinkCall>,
    at: int,
)
    requires
        other != mac,
    ensures
        s.drive_one_run(mac, master, now, t, at) matches Some((after, _)) ==> after.tracker.group(
            other,
        ) == s.tracker.group(other),
{
    let macs = groups::macs_of(s.tracker.groups);
    address::the_place_is_the_first(macs, mac);
    address::the_place_is_the_first(macs, other);
    s.drive_one_keeps(mac, master, now, t, at);
    if let Some((after, _)) = s.drive_one_run(mac, master, now, t, at) {
        s.same_places(after);
        if let Some(percent) = s.percent_for(mac) {
            if let Some(group) = s.tracker.group(mac) {
                let aimed = s.aimed(mac, group, percent, now);
                assert(groups::macs_of(aimed.tracker.groups) =~= macs);
            }
        }
    }
}

/// What driving groups leaves of one that is not among them, or of which
/// nothing is asked.
pub proof fn driving_leaves_the_others(
    s: CoreState,
    macs: Seq<[u8; 6]>,
    other: [u8; 6],
    master: [u8; 6],
    now: u128,
    t: Seq<LinkCall>,
    at: int,
)
    requires
        !macs.contains(other) || s.percent_for(other) is None,
    ensures
        s.drive_run(macs, master, now, t, at) matches Some((after, _)) ==> after.tracker.group(
            other,
        ) == s.tracker.group(other),
    decreases macs.len(),
{
    if macs.len() > 0 {
        let front = macs.drop_last();
        let last = macs[macs.len() - 1];
        if front.contains(other) {
            let i = choose|i: int| 0 <= i < front.len() && front[i] == other;
            assert(macs[i] == other);
        }
        driving_leaves_the_others(s, front, other, master, now, t, at);
        s.drive_keeps(front, master, now, t, at);
        if let Some((mid, end)) = s.drive_run(front, master, now, t, at) {
            if last != other {
                others_keep_their_targets(mid, last, other, master, now, t, end);
            } else {
                assert(macs.contains(other));
                assert(mid.percent_for(other) is None);
            }
        }
    }
}

/// What one group is set to when it is driven.
proof fn driving_sets_the_target(
    s: CoreState,
    mac: [u8; 6],
    master: [u8; 6],
    now: u128,
    t: Seq<LinkCall>,
    at: int,
)
    requires
        s.percent_for(mac) is Some,
        s.tracker.group(mac) is Some,
        s.drive_one_run(mac, master, now, t, at) is Some,
    ensures
        s.drive_one_run(mac, master, now, t, at) matches Some((after, _)) ==> (after.tracker.group(
            mac,
        ) matches Some(group) && group.target == Some(
            speed::prepared(
                group.device,
                model::spread(s.percent_for(mac)->0, group.device.fan_count),
            ),
        )),
{
    let macs = groups::macs_of(s.tracker.groups);
    address::the_place_is_the_first(macs, mac);
    let group = s.tracker.group(mac)->0;
    let aimed = s.aimed(mac, group, s.percent_for(mac)->0, now);
    assert(groups::macs_of(aimed.tracker.groups) =~= macs);
    if let Some((after, _)) = s.drive_one_run(mac, master, now, t, at) {
        assert(groups::macs_of(after.tracker.groups) =~= macs);
    }
}

/// Every group that is driven ends up with the target its percentage calls
/// for; while there is an alarm, that is full speed on every fan.
pub proof fn every_driven_group_gets_its_target(
    s: CoreState,
    macs: Seq<[u8; 6]>,
    master: [u8; 6],
    now: u128,
    t: Seq<LinkCall>,
    at: int,
    mac: [u8; 6],
)
    requires
        s.tracker.valid(),
        forall|i: int| 0 <= i < macs.len() ==> s.driven().contains(#[trigger] macs[i]),
        macs.contains(mac),
        s.percent_for(mac) is Some,
        s.drive_run(macs, master, now, t, at) is Some,
    ensures
        s.drive_run(macs, master, now, t, at) matches Some((after, _)) ==> (after.tracker.group(
            mac,
        ) matches Some(group) && group.target == Some(
            speed::prepared(
                group.device,
                model::spread(s.percent_for(mac)->0, group.device.fan_count),
            ),
        )),
        s.alarm is Some ==> s.percent_for(mac) == Some(FAILSAFE_PERCENT),
    decreases macs.len(),
{
    let front = macs.drop_last();
    let last = macs[macs.len() - 1];
    assert forall|i: int| 0 <= i < front.len() implies s.driven().contains(#[trigger] front[i]) by {
        assert(front[i] == macs[i]);
    }
    s.drive_keeps(front, master, now, t, at);
    if let Some((mid, end)) = s.drive_run(front, master, now, t, at) {
        s.same_places(mid);
        if last == mac {
            assert(s.driven().contains(mac));
            driven_are_fans(s, mac);
            address::the_place_is_the_first(groups::macs_of(s.tracker.groups), mac);
            driving_sets_the_target(mid, mac, master, now, t, end);
        } else {
            let i = choose|i: int| 0 <= i < macs.len() && macs[i] == mac;
            assert(front[i] == mac);
            every_driven_group_gets_its_target(s, front, master, now, t, at, mac);
            others_keep_their_targets(mid, last, mac, master, now, t, end);
        }
    }
}

/// A target that is due goes out, and nothing else does: driving a group
/// makes one send, of its target to its receiver on its channel, where the
/// target is due once it is set; it makes no call where it is not, or where
/// nothing is asked of the group.
pub proof fn a_due_target_goes_out(
    s: CoreState,
    mac: [u8; 6],
    master: [u8; 6],
    now: u128,
    t: Seq<LinkCall>,
    at: int,
)
    requires
        s.drive_one_run(mac, master, now, t, at) is Some,
    ensures
        s.percent_for(mac) is None ==> s.drive_one_run(mac, master, now, t, at) == Some((s, at)),
        s.percent_for(mac) matches Some(percent) ==> s.tracker.group(mac) matches Some(group)
            ==> s.drive_one_run(mac, master, now, t, at) matches Some((after, end)) ==> {
            let aimed = s.aimed(mac, group, percent, now);
            aimed.tracker.group(mac) matches Some(set) && if set.is_due(now) {
                &&& end > at
                &&& t[at] matches LinkCall::Send { channel, receiver, payload, .. } && channel
                    == set.device.channel && receiver == set.device.receiver && payload
                    == aimed.command(master, set)
            } else {
                end == at
            }
        },
{
    let macs = groups::macs_of(s.tracker.groups);
    address::the_place_is_the_first(macs, mac);
    if let Some(percent) = s.percent_for(mac) {
        if let Some(group) = s.tracker.group(mac) {
            let aimed = s.aimed(mac, group, percent, now);
            assert(groups::macs_of(aimed.tracker.groups) =~= macs);
        }
    }
}

/// Whether a call sends duties to a device: on its channel, to its receiver
/// type and address.
pub open spec fn sends_duties(
    call: LinkCall,
    device: Device,
    duties: [u8; FANS_PER_GROUP],
) -> bool {
    call matches LinkCall::Send { channel, receiver, payload, .. } && {
        &&& channel == device.channel
        &&& receiver == device.receiver
        &&& payload[1] == speed::PWM
        &&& payload.subrange(2, 8) == device.mac@
        &&& payload.subrange(17, 21) == duties@
    }
}

/// Whether one of the calls from `at` to `end` sends duties to a device.
pub open spec fn are_sent(
    t: Seq<LinkCall>,
    at: int,
    end: int,
    device: Device,
    duties: [u8; FANS_PER_GROUP],
) -> bool {
    exists|k: int| at <= k < end && sends_duties(#[trigger] t[k], device, duties)
}

/// The duties that a percentage means on a group.
pub open spec fn duties_for(group: Group, percent: u8) -> [u8; FANS_PER_GROUP] {
    speed::prepared(group.device, model::spread(percent, group.device.fan_count))
}

/// A group among the driven ones whose duties are due is sent them.
pub proof fn due_duties_go_out(
    s: CoreState,
    macs: Seq<[u8; 6]>,
    master: [u8; 6],
    now: u128,
    t: Seq<LinkCall>,
    at: int,
    mac: [u8; 6],
    group: Group,
    percent: u8,
)
    requires
        macs.contains(mac),
        s.percent_for(mac) == Some(percent),
        s.tracker.group(mac) == Some(group),
        groups::aimed(group, duties_for(group, percent)).is_due(now),
        s.drive_run(macs, master, now, t, at) is Some,
    ensures
        s.drive_run(macs, master, now, t, at) matches Some((_, end)) ==> at <= end && are_sent(
            t,
            at,
            end,
            group.device,
            duties_for(group, percent),
        ),
    decreases macs.len(),
{
    let front = macs.drop_last();
    let last = macs[macs.len() - 1];
    let duties = duties_for(group, percent);
    s.drive_keeps(front, master, now, t, at);
    driving_only_sends(s, front, master, now, t, at);
    driving_only_sends(s, macs, master, now, t, at);
    if let Some((mid, end)) = s.drive_run(front, master, now, t, at) {
        if front.contains(mac) {
            due_duties_go_out(s, front, master, now, t, at, mac, group, percent);
            let k = choose|k: int|
                at <= k < end && sends_duties(#[trigger] t[k], group.device, duties);
            assert(sends_duties(t[k], group.device, duties));
            if let Some((after, last_end)) = s.drive_run(macs, master, now, t, at) {
                assert(are_sent(t, at, last_end, group.device, duties));
            }
        } else {
            let i = choose|i: int| 0 <= i < macs.len() && macs[i] == mac;
            if i < front.len() {
                assert(front[i] == mac);
            }
            driving_leaves_the_others(s, front, mac, master, now, t, at);
            a_due_target_goes_out(mid, mac, master, now, t, end);
            groups::placed(mid.tracker.groups, mac);
            let aimed = mid.aimed(mac, group, percent, now);
            assert(groups::macs_of(aimed.tracker.groups) =~= groups::macs_of(mid.tracker.groups));
            let set = groups::aimed(group, duties);
            assert(aimed.tracker.group(mac) == Some(set));
            let payload = aimed.command(master, set);
            assert(payload.subrange(2, 8) =~= group.device.mac@);
            assert(payload.subrange(17, 21) =~= duties@);
            assert(sends_duties(t[end], group.device, duties));
            if let Some((after, last_end)) = s.drive_run(macs, master, now, t, at) {
                assert(are_sent(t, at, last_end, group.device, duties));
            }
        }
    }
}

/// Whether a group is sent the duties that its percentage means between `at`
/// and `end`, where it has one and they are due.
pub open spec fn gets_what_is_due(
    judged: CoreState,
    t: Seq<LinkCall>,
    at: int,
    end: int,
    mac: [u8; 6],
    now: u128,
) -> bool {
    match judged.percent_for(mac) {
        Some(percent) => judged.tracker.group(mac) matches Some(group) && (groups::aimed(
            group,
            duties_for(group, percent),
        ).is_due(now) ==> are_sent(t, at, end, group.device, duties_for(group, percent))),
        None => true,
    }
}

/// What is due goes out: a pass sends a fan group of the dongle in the slot
/// order the duties that its percentage means, where they are due: where they
/// are new to it, where it does not report them, or where they last went out
/// a second ago or more.
pub proof fn a_pass_sends_what_is_due(
    s: CoreState,
    master: [u8; 6],
    now: u128,
    clock: Clock,
    t: Seq<LinkCall>,
    at: int,
    after: CoreState,
    end: int,
    judged: CoreState,
    here: int,
    mac: [u8; 6],
)
    requires
        s.valid(),
        s.tick_run(master, now, clock, t, at) == Some((after, end)),
        driving_point(s, master, now, clock, t, at) == Some((judged, here)),
        judged.driven().contains(mac),
    ensures
        gets_what_is_due(judged, t, here, end, mac, now),
{
    a_pass_comes_to_driving(s, master, now, clock, t, at);
    driven_are_fans(judged, mac);
    let group = judged.tracker.group(mac)->0;
    let percent = judged.percent_for(mac)->0;
    let duties = duties_for(group, percent);
    if judged.percent_for(mac) is Some && groups::aimed(group, duties).is_due(now) {
        due_duties_go_out(judged, judged.driven(), master, now, t, here, mac, group, percent);
        if let Some((driven, end3)) = judged.drive_run(judged.driven(), master, now, t, here) {
            recover_calls(driven, now, t, end3);
            let k = choose|k: int|
                here <= k < end3 && sends_duties(#[trigger] t[k], group.device, duties);
            assert(sends_duties(t[k], group.device, duties));
        }
    }
}

/// While the dongle counts as lost every group in reach is held at full
/// speed: where a pass finds the polls to have failed three times in a row,
/// every fan group of the dongle in the slot order ends it with full duty as
/// the target of each of its fans, whatever was asked of it.
pub proof fn a_lost_dongle_means_full_speed(
    s: CoreState,
    master: [u8; 6],
    now: u128,
    clock: Clock,
    t: Seq<LinkCall>,
    at: int,
    judged: CoreState,
    here: int,
    mac: [u8; 6],
)
    requires
        s.valid(),
        driving_point(s, master, now, clock, t, at) == Some((judged, here)),
        judged.failures_in_a_row >= POLL_FAILURES,
        judged.driven().contains(mac),
        s.tick_run(master, now, clock, t, at) is Some,
    ensures
        judged.alarm is Some,
        s.tick_run(master, now, clock, t, at) matches Some((after, _)) ==> (
        after.tracker.group(mac) matches Some(group) && group.target matches Some(target)
            && forall|slot: int|
            0 <= slot < FANS_PER_GROUP && slot < group.device.fan_count ==> #[trigger] target[slot]
                == speed::MAX_DUTY),
{
    a_pass_comes_to_driving(s, master, now, clock, t, at);
    assert(judged.alarm is Some);
    assert forall|i: int| 0 <= i < judged.driven().len() implies judged.driven().contains(
        #[trigger] judged.driven()[i],
    ) by {}
    every_driven_group_gets_its_target(judged, judged.driven(), master, now, t, here, mac);
    if let Some((driven, end3)) = judged.drive_run(judged.driven(), master, now, t, here) {
        let group = driven.tracker.group(mac)->0;
        assert forall|slot: int|
            0 <= slot < FANS_PER_GROUP && slot < group.device.fan_count implies #[trigger] (
        group.target->0)[slot] == speed::MAX_DUTY by {
            every_fan_turns(group.device, FAILSAFE_PERCENT, slot);
        }
    }
}

/// The calls that driving groups makes: sends, and what an error code means.
proof fn driving_only_sends(
    s: CoreState,
    macs: Seq<[u8; 6]>,
    master: [u8; 6],
    now: u128,
    t: Seq<LinkCall>,
    at: int,
)
    ensures
        s.drive_run(macs, master, now, t, at) matches Some((_, end)) ==> at <= end && forall|k: int|
            at <= k < end ==> (#[trigger] t[k] is Send || t[k] is Message),
    decreases macs.len(),
{
    if macs.len() > 0 {
        driving_only_sends(s, macs.drop_last(), master, now, t, at);
    }
}

/// The calls that the heartbeat makes.
proof fn heartbeat_calls(
    s: CoreState,
    master: [u8; 6],
    now: u128,
    clock: Clock,
    t: Seq<LinkCall>,
    at: int,
)
    ensures
        s.heartbeat_run(master, now, clock, t, at) matches Some((_, end)) ==> at <= end && forall|
            k: int,
        |
            at <= k < end ==> if k == at {
                #[trigger] t[k] is Send
            } else {
                t[k] is Message
            },
{
}

/// The calls that the poll makes.
proof fn poll_calls(s: CoreState, now: u128, t: Seq<LinkCall>, at: int)
    ensures
        s.poll_run(now, t, at) matches Some((_, end)) ==> at < end && t[at] is Poll && forall|
            k: int,
        |
            at < k < end ==> #[trigger] t[k] is Message,
{
}

/// The calls that the reconnect attempt makes.
proof fn recover_calls(s: CoreState, now: u128, t: Seq<LinkCall>, at: int)
    ensures
        s.recover_run(now, t, at) matches Some((_, end)) ==> at <= end && forall|k: int|
            at <= k < end ==> if k == at {
                #[trigger] t[k] is Reconnect
            } else {
                t[k] is Message
            },
{
}

/// Whether the calls from `at` to `end` are a heartbeat or nothing, a poll,
/// sends, and a reconnect or nothing, with nothing in between but what error
/// codes mean.
pub open spec fn is_in_order(t: Seq<LinkCall>, at: int, end: int, poll: int, last: int) -> bool {
    &&& at <= poll < last <= end
    &&& t[poll] is Poll
    &&& forall|k: int|
        at <= k < end ==> if k < poll {
            #[trigger] t[k] is Message || (k == at && t[k] is Send)
        } else if poll < k < last {
            t[k] is Message || t[k] is Send
        } else if k > poll {
            t[k] is Message || (k == last && t[k] is Reconnect)
        } else {
            true
        }
}

/// The calls of a pass come in order: there is one poll in each, nothing but
/// the heartbeat is sent before it, and nothing is sent any more once a
/// reconnect is tried, which is tried once at most.
pub proof fn a_pass_calls_in_order(
    s: CoreState,
    master: [u8; 6],
    now: u128,
    clock: Clock,
    t: Seq<LinkCall>,
    at: int,
    after: CoreState,
    end: int,
)
    requires
        s.tick_run(master, now, clock, t, at) == Some((after, end)),
    ensures
        exists|poll: int, last: int| #[trigger] is_in_order(t, at, end, poll, last),
{
    let counted = s.counted();
    heartbeat_calls(counted, master, now, clock, t, at);
    if let Some((beaten, end1)) = counted.heartbeat_run(master, now, clock, t, at) {
        poll_calls(beaten, now, t, end1);
        if let Some((polled, end2)) = beaten.poll_run(now, t, end1) {
            let judged = at_driving(polled, now);
            driving_only_sends(judged, judged.driven(), master, now, t, end2);
            if let Some((driven, end3)) = judged.drive_run(judged.driven(), master, now, t, end2) {
                recover_calls(driven, now, t, end3);
                assert(is_in_order(t, at, end, end1, end3));
            }
        }
    }
}

/// A pass makes one poll, the one that its polling makes.
pub proof fn the_poll_is_the_only_one(
    s: CoreState,
    master: [u8; 6],
    now: u128,
    clock: Clock,
    t: Seq<LinkCall>,
    at: int,
    after: CoreState,
    end: int,
    poll: int,
    k: int,
)
    requires
        s.tick_run(master, now, clock, t, at) == Some((after, end)),
        s.counted().heartbeat_run(master, now, clock, t, at) matches Some((_, here)) && here
            == poll,
        at <= k < end,
        t[k] is Poll,
    ensures
        k == poll,
{
    let counted = s.counted();
    heartbeat_calls(counted, master, now, clock, t, at);
    if let Some((beaten, end1)) = counted.heartbeat_run(master, now, clock, t, at) {
        poll_calls(beaten, now, t, end1);
        if let Some((polled, end2)) = beaten.poll_run(now, t, end1) {
            let judged = at_driving(polled, now);
            driving_only_sends(judged, judged.driven(), master, now, t, end2);
            if let Some((driven, end3)) = judged.drive_run(judged.driven(), master, now, t, end2) {
                recover_calls(driven, now, t, end3);
            }
        }
    }
}

/// A heartbeat goes out no more than once a second: while the last is less
/// than a second old no call is made, and one that went out counts as the
/// last from then on.
pub proof fn heartbeats_are_a_second_apart(
    s: CoreState,
    master: [u8; 6],
    now: u128,
    clock: Clock,
    t: Seq<LinkCall>,
    at: int,
    later: u128,
)
    requires
        s.heartbeat_run(master, now, clock, t, at) is Some,
    ensures
        s.is_beating(now) ==> s.heartbeat_run(master, now, clock, t, at) == Some((s, at)),
        !s.is_beating(now) ==> (t[at] matches LinkCall::Send { channel, receiver, payload, result }
            && channel == s.channel && payload == s.beat(master, clock) && (result is Ok ==> (
        s.heartbeat_run(master, now, clock, t, at) matches Some((after, _)) && after.heartbeat_sent
            && (now <= later < now + SECOND ==> after.is_beating(later))))),
{
}

/// The first heartbeat since the dongle was connected leaves the leading part
/// of the block unset, every later one carries the whole block.
pub proof fn only_the_first_heartbeat_leaves_the_block_unset(
    s: CoreState,
    master: [u8; 6],
    clock: Clock,
)
    ensures
        s.beat(master, clock).len() == RF_PAYLOAD_LEN,
        s.heartbeat_sent ==> s.beat(master, clock).subrange(14, 234) == heartbeat::block_bytes(
            heartbeat::no_readings(),
            clock,
        ),
        !s.heartbeat_sent ==> forall|k: int|
            14 <= k < 64 ==> #[trigger] s.beat(master, clock)[k] == heartbeat::UNSET,
        !CoreState::start(master, s.channel).heartbeat_sent,
{
    let block = heartbeat::block_bytes(heartbeat::no_readings(), clock);
    assert(block.len() == 220);
    if s.heartbeat_sent {
        assert(s.beat(master, clock).subrange(14, 234) =~= block);
    }
}

/// A reconnect starts over: the heartbeat goes out with the next pass, the
/// next attempt would be immediate and its wait the shortest, the failsafe is
/// lifted, and what is known and asked of the groups is as it was.
pub proof fn a_reconnect_starts_over(s: CoreState, master: [u8; 6], channel: u8, now: u128)
    ensures
        ({
            let after = s.reconnected(master, channel);
            &&& !after.is_beating(now)
            &&& !after.heartbeat_sent
            &&& after.failures_in_a_row == 0
            &&& after.reconnect_at is None
            &&& after.reconnect_wait == RECONNECT_FIRST_WAIT
            &&& after.alarm is None
            &&& after.tracker == s.tracker
            &&& after.wanted == s.wanted
            &&& after.channel == channel
            &&& after.snapshot.channel == channel
            &&& after.snapshot.master_mac == master
        }),
{
}

/// The wait that follows `failures` reconnects that failed in a row.
pub open spec fn wait_after(failures: nat) -> int
    decreases failures,
{
    if failures == 0 {
        RECONNECT_FIRST_WAIT as int
    } else {
        let before = wait_after((failures - 1) as nat);
        if before * 2 < RECONNECT_MAX_WAIT {
            before * 2
        } else {
            RECONNECT_MAX_WAIT as int
        }
    }
}

/// The waits between reconnects are 2, 4, 8, 16, 32 and from then on 60
/// seconds.
pub proof fn waits_double_up_to_a_minute(failures: nat)
    ensures
        wait_after(0) == 2 * SECOND,
        wait_after(1) == 4 * SECOND,
        wait_after(2) == 8 * SECOND,
        wait_after(3) == 16 * SECOND,
        wait_after(4) == 32 * SECOND,
        failures >= 5 ==> wait_after(failures) == 60 * SECOND,
    decreases failures,
{
    reveal_with_fuel(wait_after, 6);
    if failures > 5 {
        waits_double_up_to_a_minute((failures - 1) as nat);
    }
}

/// A reconnect that fails makes the next one wait, and the one after it wait
/// longer; every channel is tried once the wait has reached a minute, and not
/// before.
pub proof fn a_failed_reconnect_waits(s: CoreState, failures: nat, words: Seq<char>, now: u128)
    requires
        s.reconnect_wait == wait_after(failures),
        now <= u128::MAX - RECONNECT_MAX_WAIT,
    ensures
        ({
            let after = s.still_lost(words, now);
            &&& after.reconnect_wait == wait_after(failures + 1)
            &&& after.reconnect_at == Some((now + wait_after(failures)) as u128)
            &&& after.failures_in_a_row == s.failures_in_a_row
            &&& forall|later: u128|
                later < now + wait_after(failures) ==> !#[trigger] after.is_recovering(later)
        }),
        s.tries_every_channel() <==> failures >= 5,
{
    waits_double_up_to_a_minute(failures);
    waits_double_up_to_a_minute(failures + 1);
}

/// A released group is left alone: nothing is asked of it any more, it has no
/// target, and without an alarm a pass makes no call for it; the other groups
/// are as they were.
pub proof fn a_released_group_is_left_alone(
    s: CoreState,
    mac: [u8; 6],
    other: [u8; 6],
    master: [u8; 6],
    now: u128,
    t: Seq<LinkCall>,
    at: int,
)
    requires
        s.tracker.valid(),
        other != mac,
    ensures
        ({
            let after = s.released(mac);
            &&& after.tracker.valid()
            &&& !after.is_driving(mac)
            &&& after.alarm == s.alarm
            &&& s.alarm is None ==> after.percent_for(mac) is None && after.drive_one_run(
                mac,
                master,
                now,
                t,
                at,
            ) == Some((after, at))
            &&& after.tracker.group(other) == s.tracker.group(other)
            &&& after.percent_for(other) == s.percent_for(other)
        }),
{
    let macs = groups::macs_of(s.tracker.groups);
    address::the_place_is_the_first(macs, mac);
    address::the_place_is_the_first(macs, other);
    groups::change_keeps(s.tracker, mac, |g: Group| groups::cleared(g));
    if wanted::key_of(other) == wanted::key_of(mac) {
        wanted::keys_tell_groups_apart(other, mac);
    }
}

/// What is asked of a group last is what it is driven at, held to what a host
/// can ask for, as long as there is no alarm.
pub proof fn the_last_request_counts(s: CoreState, mac: [u8; 6], first: u8, last: u8)
    ensures
        s.alarm is None ==> s.wanting(mac, first).wanting(mac, last).percent_for(mac) == Some(
            model::held_percent(last),
        ),
        s.alarm is Some ==> s.wanting(mac, last).percent_for(mac) == Some(FAILSAFE_PERCENT),
        s.wanting(mac, first).wanting(mac, last) == s.wanting(mac, last),
{
    let key = wanted::key_of(mac);
    assert(s.wanted.insert(key, model::held_percent(first)).insert(key, model::held_percent(last))
        =~= s.wanted.insert(key, model::held_percent(last)));
}

/// Driving one group keeps a tracker valid.
proof fn driving_one_keeps_valid(
    s: CoreState,
    mac: [u8; 6],
    master: [u8; 6],
    now: u128,
    t: Seq<LinkCall>,
    at: int,
)
    requires
        s.tracker.valid(),
    ensures
        s.drive_one_run(mac, master, now, t, at) matches Some((after, _)) ==> after.tracker.valid(),
{
    if let Some(percent) = s.percent_for(mac) {
        if let Some(group) = s.tracker.group(mac) {
            let wanted = model::spread(percent, group.device.fan_count);
            groups::change_keeps(
                s.tracker,
                mac,
                |g: Group| groups::aimed(g, speed::prepared(g.device, wanted)),
            );
            let aimed = s.aimed(mac, group, percent, now);
            groups::change_keeps(aimed.tracker, mac, |g: Group| groups::resent(g, now));
        }
    }
}

/// Driving groups keeps a tracker valid.
proof fn driving_keeps_valid(
    s: CoreState,
    macs: Seq<[u8; 6]>,
    master: [u8; 6],
    now: u128,
    t: Seq<LinkCall>,
    at: int,
)
    requires
        s.tracker.valid(),
    ensures
        s.drive_run(macs, master, now, t, at) matches Some((after, _)) ==> after.tracker.valid(),
    decreases macs.len(),
{
    if macs.len() > 0 {
        driving_keeps_valid(s, macs.drop_last(), master, now, t, at);
        if let Some((mid, end)) = s.drive_run(macs.drop_last(), master, now, t, at) {
            driving_one_keeps_valid(mid, macs.last(), master, now, t, end);
        }
    }
}

/// Whether the slot order holds the devices online at `now` and no others.
pub open spec fn is_current(tracker: TrackerState, now: u128) -> bool {
    forall|mac: [u8; 6]| #[trigger]
        tracker.order.contains(mac) <==> groups::is_heard(tracker.groups, mac, now)
}

/// A pass leaves a valid tracker whose slot order is that of the moment.
pub proof fn a_pass_leaves_a_current_order(
    s: CoreState,
    master: [u8; 6],
    now: u128,
    clock: Clock,
    t: Seq<LinkCall>,
    at: int,
    after: CoreState,
    end: int,
)
    requires
        s.valid(),
        s.tick_run(master, now, clock, t, at) == Some((after, end)),
    ensures
        after.tracker.valid(),
        is_current(after.tracker, now),
        after.snapshot.groups == model::published_groups(after.tracker, now),
{
    if let Some((beaten, end1)) = s.counted().heartbeat_run(master, now, clock, t, at) {
        polling_keeps(beaten, now, t, end1);
        if let Some((polled, end2)) = beaten.poll_run(now, t, end1) {
            let judged = at_driving(polled, now);
            polled.tracker.sweeping_keeps(now);
            groups::order_is_exactly_the_online(
                judged.tracker.groups,
                polled.tracker.order,
                now,
            );
            driving_keeps_valid(judged, judged.driven(), master, now, t, end2);
            judged.drive_keeps(judged.driven(), master, now, t, end2);
            if let Some((driven, end3)) = judged.drive_run(judged.driven(), master, now, t, end2) {
                judged.same_places(driven);
                assert(driven.tracker == after.tracker);
                assert forall|mac: [u8; 6]| #[trigger]
                    after.tracker.order.contains(mac) <==> groups::is_heard(
                        after.tracker.groups,
                        mac,
                        now,
                    ) by {
                    groups::placed(judged.tracker.groups, mac);
                    assert(groups::is_heard(after.tracker.groups, mac, now) == groups::is_heard(
                        judged.tracker.groups,
                        mac,
                        now,
                    ));
                }
            }
        }
    }
}

/// A pass leaves a valid state, with the same dongle and the same requests.
pub proof fn a_pass_keeps_the_loop_valid(
    s: CoreState,
    master: [u8; 6],
    now: u128,
    clock: Clock,
    t: Seq<LinkCall>,
    at: int,
    after: CoreState,
    end: int,
)
    requires
        s.valid(),
        s.tick_run(master, now, clock, t, at) == Some((after, end)),
    ensures
        after.valid(),
        after.wanted == s.wanted,
        after.tracker.master == s.tracker.master,
{
    a_pass_leaves_a_current_order(s, master, now, clock, t, at, after, end);
    if let Some((beaten, end1)) = s.counted().heartbeat_run(master, now, clock, t, at) {
        if let Some((polled, end2)) = beaten.poll_run(now, t, end1) {
            let judged = at_driving(polled, now);
            judged.drive_keeps(judged.driven(), master, now, t, end2);
        }
    }
}

/// Whether the host is shown a group at an address.
pub open spec fn is_shown(shown: Seq<GroupState>, mac: [u8; 6]) -> bool {
    exists|i: int| 0 <= i < shown.len() && (#[trigger] shown[i]).mac == mac
}

/// Whether a fan group of the dongle is known at an address.
pub open spec fn is_fan_group(tracker: TrackerState, mac: [u8; 6]) -> bool {
    tracker.group(mac) matches Some(group) && group.is_bound(tracker.master) && group.is_fans()
}

/// Whether what a host is shown of a group is what is known of it: the
/// target and whether it is seen applied, the duties that the receiver
/// reports, and the speeds while it is online, none otherwise.
pub open spec fn shows_truly(tracker: TrackerState, shown: GroupState, now: u128) -> bool {
    tracker.group(shown.mac) matches Some(group) && {
        &&& shown.target == group.target
        &&& shown.acknowledged <==> shown.online && group.is_acknowledged(now)
        &&& shown.duty == group.device.duty
        &&& if shown.online {
            shown.rpm == group.device.rpm
        } else {
            forall|k: int| 0 <= k < FANS_PER_GROUP ==> #[trigger] shown.rpm[k] == 0
        }
    }
}

/// The online part of what a host is shown.
pub proof fn online_part(tracker: TrackerState, now: u128)
    requires
        tracker.valid(),
        is_current(tracker, now),
    ensures
        groups::macs_of(tracker.fans()).no_duplicates(),
        forall|k: int|
            0 <= k < tracker.fans().len() ==> {
                let fan = #[trigger] tracker.fans()[k];
                &&& tracker.group(fan.device.mac) == Some(fan)
                &&& is_fan_group(tracker, fan.device.mac)
                &&& fan.is_online(now)
            },
        forall|mac: [u8; 6]|
            is_fan_group(tracker, mac) && groups::is_heard(tracker.groups, mac, now)
                ==> #[trigger] groups::macs_of(tracker.fans()).contains(mac),
{
    let listed = tracker.listed();
    let drives = |g: Group| g.is_bound(tracker.master) && g.is_fans();
    tracker.listed_addresses();
    groups::joiners_apart(listed, drives);
    lists::filtered(listed, drives);
    let fans = tracker.fans();
    assert forall|k: int| 0 <= k < fans.len() implies {
        let fan = #[trigger] fans[k];
        &&& tracker.group(fan.device.mac) == Some(fan)
        &&& is_fan_group(tracker, fan.device.mac)
        &&& fan.is_online(now)
    } by {
        assert(fans.contains(fans[k]));
        let j = choose|j: int| 0 <= j < listed.len() && listed[j] == fans[k];
        let mac = tracker.order[j];
        assert(groups::macs_of(listed)[j] == mac);
        groups::placed(tracker.groups, mac);
        assert(tracker.order.contains(mac));
    }
    assert forall|mac: [u8; 6]|
        is_fan_group(tracker, mac) && groups::is_heard(
            tracker.groups,
            mac,
            now,
        ) implies #[trigger] groups::macs_of(fans).contains(mac) by {
        assert(tracker.order.contains(mac));
        let j = choose|j: int| 0 <= j < tracker.order.len() && tracker.order[j] == mac;
        assert(listed[j] == tracker.group_at(mac));
        assert(listed.contains(listed[j]));
        assert(fans.contains(listed[j]));
        let k = choose|k: int| 0 <= k < fans.len() && fans[k] == listed[j];
        groups::placed(tracker.groups, mac);
        assert(groups::macs_of(fans)[k] == mac);
    }
}

/// The offline part of what a host is shown.
pub proof fn offline_part(tracker: TrackerState, now: u128)
    requires
        tracker.valid(),
    ensures
        ({
            let away = tracker.groups.filter(|g: Group| model::is_away(g, tracker.master, now));
            &&& groups::macs_of(away).no_duplicates()
            &&& forall|k: int|
                0 <= k < away.len() ==> {
                    let fan = #[trigger] away[k];
                    &&& tracker.group(fan.device.mac) == Some(fan)
                    &&& is_fan_group(tracker, fan.device.mac)
                    &&& !fan.is_online(now)
                }
            &&& forall|mac: [u8; 6]|
                is_fan_group(tracker, mac) && !groups::is_heard(tracker.groups, mac, now)
                    ==> #[trigger] groups::macs_of(away).contains(mac)
        }),
{
    let quiet = |g: Group| model::is_away(g, tracker.master, now);
    let away = tracker.groups.filter(quiet);
    groups::joiners_apart(tracker.groups, quiet);
    lists::filtered(tracker.groups, quiet);
    assert forall|k: int| 0 <= k < away.len() implies {
        let fan = #[trigger] away[k];
        &&& tracker.group(fan.device.mac) == Some(fan)
        &&& is_fan_group(tracker, fan.device.mac)
        &&& !fan.is_online(now)
    } by {
        assert(away.contains(away[k]));
        let j = choose|j: int| 0 <= j < tracker.groups.len() && tracker.groups[j] == away[k];
        groups::only_place(tracker.groups, j);
    }
    assert forall|mac: [u8; 6]|
        is_fan_group(tracker, mac) && !groups::is_heard(
            tracker.groups,
            mac,
            now,
        ) implies #[trigger] groups::macs_of(away).contains(mac) by {
        groups::placed(tracker.groups, mac);
        let group = tracker.group(mac)->0;
        assert(tracker.groups.contains(group));
        assert(away.contains(group));
        let k = choose|k: int| 0 <= k < away.len() && away[k] == group;
        assert(groups::macs_of(away)[k] == mac);
    }
}

/// After a pass the host is shown every fan group of the dongle that is known,
/// each once, and nothing else; the ones that are online come first, and each
/// is shown online if and only if it was heard of late. The duties shown are
/// the ones the receiver reports; of a group that is not online no fan is
/// shown to turn.
pub proof fn a_pass_shows_every_fan_group_once(
    s: CoreState,
    master: [u8; 6],
    now: u128,
    clock: Clock,
    t: Seq<LinkCall>,
    at: int,
    after: CoreState,
    end: int,
)
    requires
        s.valid(),
        s.tick_run(master, now, clock, t, at) == Some((after, end)),
    ensures
        ({
            let shown = after.snapshot.groups;
            &&& forall|i: int, j: int|
                0 <= i < j < shown.len() ==> (#[trigger] shown[i]).mac != (#[trigger] shown[j]).mac
            &&& forall|mac: [u8; 6]| #[trigger]
                is_shown(shown, mac) <==> is_fan_group(after.tracker, mac)
            &&& forall|i: int, j: int|
                0 <= i < j < shown.len() && (#[trigger] shown[j]).online ==> (
                #[trigger] shown[i]).online
            &&& forall|i: int|
                0 <= i < shown.len() ==> ((#[trigger] shown[i]).online <==> groups::is_heard(
                    after.tracker.groups,
                    shown[i].mac,
                    now,
                ))
            &&& forall|i: int|
                0 <= i < shown.len() ==> shows_truly(after.tracker, #[trigger] shown[i], now)
        }),
{
    a_pass_leaves_a_current_order(s, master, now, clock, t, at, after, end);
    let tracker = after.tracker;
    online_part(tracker, now);
    offline_part(tracker, now);
    let fans = tracker.fans();
    let away = tracker.groups.filter(|g: Group| model::is_away(g, tracker.master, now));
    let shown = after.snapshot.groups;
    let n = fans.len();
    assert forall|i: int| 0 <= i < shown.len() implies #[trigger] shown[i] == (if i < n {
        model::online_state(fans[i], now)
    } else {
        model::offline_state(away[i - n])
    }) by {}
    assert forall|i: int, j: int| 0 <= i < j < shown.len() implies (#[trigger] shown[i]).mac != (
    #[trigger] shown[j]).mac by {
        if j < n {
            assert(groups::macs_of(fans)[i] != groups::macs_of(fans)[j]);
        } else if i >= n {
            assert(groups::macs_of(away)[i - n] != groups::macs_of(away)[j - n]);
        } else {
            assert(fans[i].is_online(now));
            assert(!away[j - n].is_online(now));
        }
    }
    assert forall|mac: [u8; 6]| #[trigger] is_shown(shown, mac) <==> is_fan_group(tracker, mac) by {
        if is_shown(shown, mac) {
            let i = choose|i: int| 0 <= i < shown.len() && (#[trigger] shown[i]).mac == mac;
            if i < n {
                assert(is_fan_group(tracker, fans[i].device.mac));
            } else {
                assert(is_fan_group(tracker, away[i - n].device.mac));
            }
        }
        if is_fan_group(tracker, mac) {
            if groups::is_heard(tracker.groups, mac, now) {
                assert(groups::macs_of(fans).contains(mac));
                let k = choose|k: int|
                    0 <= k < groups::macs_of(fans).len() && groups::macs_of(fans)[k] == mac;
                assert(shown[k].mac == mac);
            } else {
                assert(groups::macs_of(away).contains(mac));
                let k = choose|k: int|
                    0 <= k < groups::macs_of(away).len() && groups::macs_of(away)[k] == mac;
                assert(shown[n + k].mac == mac);
            }
        }
    }
}

/// Groups that differ in nothing but their targets have the same slots.
proof fn same_slots(s: CoreState, after: CoreState, mac: [u8; 6])
    requires
        s.tracker.valid(),
        s.differs_in_targets(after),
    ensures
        after.tracker.slot(mac) == s.tracker.slot(mac),
{
    s.same_places(after);
    let before = s.tracker.listed().map_values(|g: Group| g.device);
    let now = after.tracker.listed().map_values(|g: Group| g.device);
    assert forall|i: int| 0 <= i < before.len() implies #[trigger] now[i] == before[i] by {
        groups::placed(s.tracker.groups, s.tracker.order[i]);
        assert(groups::macs_of(s.tracker.groups).contains(s.tracker.order[i]));
    }
    assert(now =~= before);
}

/// What the last sending of one group's target leaves as it was.
proof fn last_send_keeps(
    s: CoreState,
    mac: [u8; 6],
    other: [u8; 6],
    master: [u8; 6],
    now: u128,
    t: Seq<LinkCall>,
    at: int,
)
    ensures
        s.last_send_run(mac, master, now, t, at) matches Some((after, _)) ==> {
            &&& s.differs_in_targets(after)
            &&& other != mac ==> after.tracker.group(other) == s.tracker.group(other)
        },
{
    let macs = groups::macs_of(s.tracker.groups);
    groups::placed(s.tracker.groups, mac);
    groups::placed(s.tracker.groups, other);
    if let Some((after, _)) = s.last_send_run(mac, master, now, t, at) {
        assert(groups::macs_of(after.tracker.groups) =~= macs);
    }
}

/// What the last sending of groups' targets leaves as it was.
proof fn last_sends_keep(
    s: CoreState,
    macs: Seq<[u8; 6]>,
    other: [u8; 6],
    master: [u8; 6],
    now: u128,
    t: Seq<LinkCall>,
    at: int,
)
    ensures
        s.last_sends_run(macs, master, now, t, at) matches Some((after, end)) ==> {
            &&& at <= end
            &&& s.differs_in_targets(after)
            &&& !macs.contains(other) ==> after.tracker.group(other) == s.tracker.group(other)
        },
    decreases macs.len(),
{
    if macs.len() > 0 {
        let front = macs.drop_last();
        last_sends_keep(s, front, other, master, now, t, at);
        if let Some((mid, end)) = s.last_sends_run(front, master, now, t, at) {
            last_send_keeps(mid, macs.last(), other, master, now, t, end);
            if front.contains(other) {
                let i = choose|i: int| 0 <= i < front.len() && front[i] == other;
                assert(macs[i] == other);
            }
            assert(macs[macs.len() - 1] == macs.last());
        }
    }
}

/// Whether a group has a target that is not seen applied.
pub open spec fn is_unapplied(s: CoreState, mac: [u8; 6], now: u128) -> bool {
    s.tracker.group(mac) matches Some(group) && group.target is Some && !group.is_acknowledged(now)
}

/// Whether a call sends a group its target.
pub open spec fn sends_target(s: CoreState, mac: [u8; 6], master: [u8; 6], call: LinkCall) -> bool {
    s.tracker.group(mac) matches Some(group) && call matches LinkCall::Send {
        channel,
        receiver,
        payload,
        ..
    } && channel == group.device.channel && receiver == group.device.receiver && payload
        == s.command(master, group)
}

/// Whether a call sends one of some groups its target, which is not seen
/// applied.
pub open spec fn is_last_send(
    s: CoreState,
    macs: Seq<[u8; 6]>,
    master: [u8; 6],
    now: u128,
    call: LinkCall,
) -> bool {
    exists|i: int|
        0 <= i < macs.len() && is_unapplied(s, #[trigger] macs[i], now) && sends_target(
            s,
            macs[i],
            master,
            call,
        )
}

/// Whether one of the calls from `at` to `end` sends a group its target.
pub open spec fn is_sent(
    s: CoreState,
    mac: [u8; 6],
    master: [u8; 6],
    t: Seq<LinkCall>,
    at: int,
    end: int,
) -> bool {
    exists|k: int| at <= k < end && sends_target(s, mac, master, #[trigger] t[k])
}

/// The calls of a stop are the last sends of targets that are not seen
/// applied, one for each.
proof fn last_sends_are_of_the_unapplied(
    s: CoreState,
    macs: Seq<[u8; 6]>,
    master: [u8; 6],
    now: u128,
    t: Seq<LinkCall>,
    at: int,
    after: CoreState,
    end: int,
)
    requires
        s.tracker.valid(),
        macs.no_duplicates(),
        s.last_sends_run(macs, master, now, t, at) == Some((after, end)),
    ensures
        at <= end,
        forall|k: int|
            at <= k < end ==> is_last_send(s, macs, master, now, #[trigger] t[k]),
        forall|i: int|
            0 <= i < macs.len() && is_unapplied(s, #[trigger] macs[i], now) ==> is_sent(
                s,
                macs[i],
                master,
                t,
                at,
                end,
            ),
    decreases macs.len(),
{
    if macs.len() > 0 {
        let front = macs.drop_last();
        let last = macs[macs.len() - 1];
        assert(!front.contains(last)) by {
            if front.contains(last) {
                let i = choose|i: int| 0 <= i < front.len() && front[i] == last;
                assert(macs[i] == last);
            }
        }
        last_sends_keep(s, front, last, master, now, t, at);
        if let Some((mid, here)) = s.last_sends_run(front, master, now, t, at) {
            last_sends_are_of_the_unapplied(s, front, master, now, t, at, mid, here);
            same_slots(s, mid, last);
            groups::placed(s.tracker.groups, last);
            assert(mid.tracker.group(last) == s.tracker.group(last));
            assert forall|k: int| at <= k < end implies is_last_send(
                s,
                macs,
                master,
                now,
                #[trigger] t[k],
            ) by {
                if k < here {
                    assert(is_last_send(s, front, master, now, t[k]));
                    let i = choose|i: int|
                        0 <= i < front.len() && is_unapplied(s, #[trigger] front[i], now)
                            && sends_target(s, front[i], master, t[k]);
                    assert(macs[i] == front[i]);
                } else {
                    assert(is_unapplied(s, last, now));
                    assert(sends_target(s, macs[macs.len() - 1], master, t[k]));
                }
            }
            assert forall|i: int|
                0 <= i < macs.len() && is_unapplied(
                    s,
                    #[trigger] macs[i],
                    now,
                ) implies is_sent(s, macs[i], master, t, at, end) by {
                if i < front.len() {
                    assert(front[i] == macs[i]);
                    assert(is_sent(s, front[i], master, t, at, here));
                    let k = choose|k: int|
                        at <= k < here && sends_target(s, front[i], master, #[trigger] t[k]);
                    assert(sends_target(s, macs[i], master, t[k]));
                } else {
                    assert(sends_target(s, macs[i], master, t[here]));
                }
            }
        }
    }
}

/// A stop keeps the groups at their last duty: all it does is send each group
/// in reach whose target is not seen applied that target once more; no target
/// is changed, and nothing else is sent.
pub proof fn a_stop_repeats_what_is_not_applied(
    s: CoreState,
    master: [u8; 6],
    now: u128,
    t: Seq<LinkCall>,
    at: int,
    after: CoreState,
    end: int,
)
    requires
        s.tracker.valid(),
        s.shutdown_run(master, now, t, at) == Some((after, end)),
    ensures
        forall|k: int|
            at <= k < end ==> is_last_send(s, s.driven(), master, now, #[trigger] t[k]),
        forall|i: int|
            0 <= i < s.driven().len() && is_unapplied(s, #[trigger] s.driven()[i], now) ==> is_sent(
                s,
                s.driven()[i],
                master,
                t,
                at,
                end,
            ),
        forall|mac: [u8; 6]|
            (#[trigger] after.tracker.group(mac) matches Some(group) ==> s.tracker.group(
                mac,
            ) matches Some(before) && group.target == before.target),
{
    s.tracker.listed_addresses();
    groups::joiners_apart(
        s.tracker.listed(),
        |g: Group| g.is_bound(s.tracker.master) && g.is_fans(),
    );
    if let Some((last, here)) = s.last_sends_run(s.driven(), master, now, t, at) {
        last_sends_are_of_the_unapplied(s, s.driven(), master, now, t, at, last, here);
        assert forall|mac: [u8; 6]|
            (#[trigger] after.tracker.group(mac) matches Some(group) ==> s.tracker.group(
                mac,
            ) matches Some(before) && group.target == before.target) by {
            last_sends_keep_targets(s, s.driven(), mac, master, now, t, at);
        }
    }
}

/// The last sending of groups' targets changes none.
proof fn last_sends_keep_targets(
    s: CoreState,
    macs: Seq<[u8; 6]>,
    mac: [u8; 6],
    master: [u8; 6],
    now: u128,
    t: Seq<LinkCall>,
    at: int,
)
    ensures
        s.last_sends_run(macs, master, now, t, at) matches Some((after, _)) ==> (
        after.tracker.group(mac) matches Some(group) ==> s.tracker.group(mac) matches Some(before)
            && group.target == before.target),
    decreases macs.len(),
{
    if macs.len() > 0 {
        let front = macs.drop_last();
        last_sends_keep_targets(s, front, mac, master, now, t, at);
        if let Some((mid, end)) = s.last_sends_run(front, master, now, t, at) {
            last_send_keeps(mid, macs.last(), mac, master, now, t, end);
            groups::placed(mid.tracker.groups, mac);
            if let Some((after, _)) = mid.last_send_run(macs.last(), master, now, t, end) {
                assert(groups::macs_of(after.tracker.groups) =~= groups::macs_of(
                    mid.tracker.groups,
                ));
            }
        }
    }
}

} // verus!
