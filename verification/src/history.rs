//! What holds of a run of the loop: requests and passes, one after the other,
//! from the start on.

use crate::address;
use crate::discovery::Device;
use crate::engine::{asked, Request};
use crate::groups;
use crate::groups::Group;
use crate::heartbeat::Clock;
use crate::laws;
use crate::lists;
use crate::model::{CoreState, GroupState, LinkCall, FLOOR_PERCENT};
use crate::passes;
use crate::passes::{driving_point, is_harmless};
use crate::speed;
use crate::text;
use crate::wanted;
use vstd::prelude::*;

verus! {

/// One turn of a run.
pub enum Turn {
    /// The host asks for something.
    Ask(Request),
    /// The loop makes a pass, whose calls on the link are those of the trace
    /// from `at` on.
    Pass { master: [u8; 6], now: u128, clock: Clock, trace: Seq<LinkCall>, at: int },
    /// The host takes the lines said so far.
    Take,
}

/// The state after a turn, as the loop's methods leave it; none, where the
/// pass has no room or its calls are not the ones a pass makes.
pub open spec fn turned(s: CoreState, turn: Turn) -> Option<CoreState> {
    match turn {
        Turn::Ask(request) => Some(asked(s, request)),
        Turn::Take => Some(CoreState { events: Seq::empty(), ..s }),
        Turn::Pass { master, now, clock, trace, at } => if at < 0 || !s.has_room(now) {
            None
        } else {
            match s.tick_run(master, now, clock, trace, at) {
                Some((after, end)) => if end == trace.len() {
                    Some(after)
                } else {
                    None
                },
                None => None,
            }
        },
    }
}

/// The state after a run.
pub open spec fn ran(s: CoreState, turns: Seq<Turn>) -> Option<CoreState>
    decreases turns.len(),
{
    if turns.len() == 0 {
        Some(s)
    } else {
        match ran(s, turns.drop_last()) {
            Some(mid) => turned(mid, turns.last()),
            None => None,
        }
    }
}

/// The state before a turn of a run.
pub open spec fn before(s: CoreState, turns: Seq<Turn>, i: int) -> CoreState {
    ran(s, turns.take(i))->0
}

/// A request keeps a state valid.
proof fn a_request_keeps_valid(s: CoreState, request: Request)
    requires
        s.valid(),
    ensures
        asked(s, request).valid(),
{
    match request {
        Request::Want(mac, percent) => {
            laws::requests_are_held_to_bounds(s, mac, percent, mac);
        },
        Request::Release(mac) => {
            laws::requests_are_held_to_bounds(s, mac, 0, mac);
            groups::change_keeps(s.tracker, mac, |g: Group| groups::cleared(g));
        },
    }
}

/// A turn keeps a state valid.
pub proof fn a_turn_keeps_the_loop_valid(s: CoreState, turn: Turn)
    requires
        s.valid(),
        turned(s, turn) is Some,
    ensures
        turned(s, turn)->0.valid(),
{
    match turn {
        Turn::Ask(request) => {
            a_request_keeps_valid(s, request);
        },
        Turn::Take => {},
        Turn::Pass { master, now, clock, trace, at } => {
            passes::a_pass_keeps_the_loop_valid(
                s,
                master,
                now,
                clock,
                trace,
                at,
                turned(s, turn)->0,
                trace.len() as int,
            );
        },
    }
}

/// A run goes from each of its turns to the next.
proof fn a_run_has_its_beginnings(s: CoreState, turns: Seq<Turn>, i: int)
    requires
        ran(s, turns) is Some,
        0 <= i <= turns.len(),
    ensures
        ran(s, turns.take(i)) is Some,
        i < turns.len() ==> ran(s, turns.take(i + 1)) == turned(ran(s, turns.take(i))->0, turns[i]),
    decreases turns.len() - i,
{
    if i < turns.len() {
        a_run_has_its_beginnings(s, turns, i + 1);
        assert(turns.take(i + 1).drop_last() =~= turns.take(i));
        assert(turns.take(i + 1).last() == turns[i]);
    } else {
        assert(turns.take(i) =~= turns);
    }
}

/// A run keeps a state valid.
proof fn a_run_stays_valid(s: CoreState, turns: Seq<Turn>)
    requires
        s.valid(),
        ran(s, turns) is Some,
    ensures
        ran(s, turns)->0.valid(),
    decreases turns.len(),
{
    if turns.len() > 0 {
        a_run_stays_valid(s, turns.drop_last());
        a_turn_keeps_the_loop_valid(ran(s, turns.drop_last())->0, turns.last());
    }
}

/// The states of a run follow one another, and all of them are valid.
pub proof fn a_run_goes_turn_by_turn(s: CoreState, turns: Seq<Turn>, i: int)
    requires
        s.valid(),
        ran(s, turns) is Some,
        0 <= i < turns.len(),
    ensures
        ran(s, turns.take(i)) == Some(before(s, turns, i)),
        before(s, turns, i).valid(),
        turned(before(s, turns, i), turns[i]) == Some(before(s, turns, i + 1)),
        before(s, turns, i + 1).valid(),
{
    a_run_has_its_beginnings(s, turns, i);
    a_run_has_its_beginnings(s, turns, i + 1);
    a_run_stays_valid(s, turns.take(i));
    a_run_stays_valid(s, turns.take(i + 1));
}

/// Whether every speed command that a turn sends turns every fan of the group
/// it goes to, at the floor at least, at full duty while the alarm is up, and
/// asks nothing of the slots without a fan.
pub open spec fn turns_every_fan(s: CoreState, turn: Turn) -> bool {
    match turn {
        Turn::Pass { master, now, clock, trace, at } => driving_point(
            s,
            master,
            now,
            clock,
            trace,
            at,
        ) matches Some((judged, _)) && forall|k: int|
            at <= k < trace.len() ==> is_harmless(judged, #[trigger] trace[k], now),
        _ => true,
    }
}

/// No fan stops in any run: whatever is asked, heard and lost from the start
/// on, each speed command of each pass holds for every fan of the group it
/// goes to the duty of the floor at least, which is 77, and full duty, 255,
/// while the alarm is up, and zero for every slot without a fan.
pub proof fn no_run_stops_a_fan(master: [u8; 6], channel: u8, turns: Seq<Turn>, i: int)
    requires
        ran(CoreState::start(master, channel), turns) is Some,
        0 <= i < turns.len(),
    ensures
        turns_every_fan(before(CoreState::start(master, channel), turns, i), turns[i]),
        speed::percent_duty(FLOOR_PERCENT) == 77,
        speed::MAX_DUTY == 255,
{
    let start = CoreState::start(master, channel);
    a_run_goes_turn_by_turn(start, turns, i);
    let s = before(start, turns, i);
    if let Turn::Pass { master, now, clock, trace, at } = turns[i] {
        passes::a_pass_turns_every_fan_it_drives(
            s,
            master,
            now,
            clock,
            trace,
            at,
            before(start, turns, i + 1),
            trace.len() as int,
        );
    }
}

/// Whether a turn sends a group its duties, where it is a fan group of the
/// dongle in the slot order, something is asked of it, and they are due.
pub open spec fn sends_what_is_due(s: CoreState, turn: Turn, mac: [u8; 6]) -> bool {
    match turn {
        Turn::Pass { master, now, clock, trace, at } => driving_point(
            s,
            master,
            now,
            clock,
            trace,
            at,
        ) matches Some((judged, here)) && (judged.driven().contains(mac)
            ==> passes::gets_what_is_due(judged, trace, here, trace.len() as int, mac, now)),
        _ => true,
    }
}

/// In any run, each pass sends each fan group of the dongle in the slot order
/// the duties that are asked of it, or full duty while the alarm is up, as
/// often as they are due: at once where they are new to it, again as long as
/// it does not report them, and each second after that.
pub proof fn every_run_sends_what_is_due(
    master: [u8; 6],
    channel: u8,
    turns: Seq<Turn>,
    i: int,
    mac: [u8; 6],
)
    requires
        ran(CoreState::start(master, channel), turns) is Some,
        0 <= i < turns.len(),
    ensures
        sends_what_is_due(before(CoreState::start(master, channel), turns, i), turns[i], mac),
{
    let start = CoreState::start(master, channel);
    a_run_goes_turn_by_turn(start, turns, i);
    let s = before(start, turns, i);
    if let Turn::Pass { master, now, clock, trace, at } = turns[i] {
        passes::a_pass_comes_to_driving(s, master, now, clock, trace, at);
        if let Some((judged, here)) = driving_point(s, master, now, clock, trace, at) {
            if judged.driven().contains(mac) {
                passes::a_pass_sends_what_is_due(
                    s,
                    master,
                    now,
                    clock,
                    trace,
                    at,
                    before(start, turns, i + 1),
                    trace.len() as int,
                    judged,
                    here,
                    mac,
                );
            }
        }
    }
}

/// Whether groups hold no target for an address.
spec fn no_target(groups: Seq<Group>, mac: [u8; 6]) -> bool {
    groups::place_of(groups, mac) matches Some(i) ==> groups[i].target is None
}

/// A sighting sets no target.
proof fn a_sighting_sets_no_target(groups: Seq<Group>, seen: Device, now: u128, mac: [u8; 6])
    requires
        no_target(groups, mac),
    ensures
        no_target(groups::noted(groups, seen, now), mac),
{
    let after = groups::noted(groups, seen, now);
    groups::placed(groups, seen.mac);
    groups::placed(groups, mac);
    groups::placed(after, mac);
    address::the_place_is_the_first(groups::macs_of(groups), mac);
    address::the_place_is_the_first(groups::macs_of(after), mac);
    match groups::place_of(groups, seen.mac) {
        Some(i) => {
            assert(groups::macs_of(after) =~= groups::macs_of(groups));
        },
        None => {
            assert(groups::macs_of(after) =~= groups::macs_of(groups).push(seen.mac));
            if let Some(k) = groups::place_of(after, mac) {
                if k < groups.len() {
                    assert(groups::macs_of(groups)[k] == mac);
                    assert forall|j: int| 0 <= j < k implies groups::macs_of(groups)[j] != mac by {
                        assert(groups::macs_of(after)[j] == groups::macs_of(groups)[j]);
                    }
                    address::place_found(groups::macs_of(groups), mac, k);
                }
            }
        },
    }
}

/// Sightings set no target.
proof fn sightings_set_no_target(groups: Seq<Group>, seen: Seq<Device>, now: u128, mac: [u8; 6])
    requires
        no_target(groups, mac),
    ensures
        no_target(groups::noted_all(groups, seen, now), mac),
    decreases seen.len(),
{
    if seen.len() > 0 {
        sightings_set_no_target(groups, seen.drop_last(), now, mac);
        a_sighting_sets_no_target(
            groups::noted_all(groups, seen.drop_last(), now),
            seen.last(),
            now,
            mac,
        );
    }
}

/// A sweep sets no target.
proof fn a_sweep_sets_no_target(s: CoreState, now: u128, mac: [u8; 6])
    requires
        s.tracker.valid(),
        no_target(s.tracker.groups, mac),
    ensures
        no_target(s.swept(now).tracker.groups, mac),
{
    let keeps = |g: Group| groups::is_kept(g, s.tracker.master, now);
    let kept = s.tracker.groups.filter(keeps);
    lists::filtered(s.tracker.groups, keeps);
    groups::placed(kept, mac);
    if let Some(k) = groups::place_of(kept, mac) {
        assert(kept.contains(kept[k]));
        let j = choose|j: int|
            0 <= j < s.tracker.groups.len() && s.tracker.groups[j] == kept[k];
        groups::only_place(s.tracker.groups, j);
    }
}

/// Whether a turn asks for a percentage on a group.
pub open spec fn asks_for(turn: Turn, mac: [u8; 6]) -> bool {
    turn matches Turn::Ask(Request::Want(wanted, _)) && wanted == mac
}

/// Whether a turn drives groups while the alarm is up.
pub open spec fn drives_in_alarm(s: CoreState, turn: Turn) -> bool {
    turn matches Turn::Pass { master, now, clock, trace, at } && driving_point(
        s,
        master,
        now,
        clock,
        trace,
        at,
    ) matches Some((judged, _)) && judged.alarm is Some
}

/// Whether a call is a speed command to an address.
pub open spec fn commands(call: LinkCall, mac: [u8; 6]) -> bool {
    call matches LinkCall::Send { payload, .. } && payload[1] == speed::PWM && payload.subrange(
        2,
        8,
    ) == mac@
}

/// Whether a host is shown a group, if at all, without a target and with
/// nothing seen applied.
pub open spec fn is_shown_idle(shown: Seq<GroupState>, mac: [u8; 6]) -> bool {
    forall|k: int|
        0 <= k < shown.len() && (#[trigger] shown[k]).mac == mac ==> shown[k].target is None
            && !shown[k].acknowledged
}

/// Whether a turn leaves a group alone: no speed command goes to it, and the
/// host is shown it without a target.
pub open spec fn leaves_alone(turn: Turn, after: CoreState, mac: [u8; 6]) -> bool {
    match turn {
        Turn::Pass { trace, at, .. } => {
            &&& forall|k: int| at <= k < trace.len() ==> !commands(#[trigger] trace[k], mac)
            &&& is_shown_idle(after.snapshot.groups, mac)
        },
        _ => true,
    }
}

/// A pass without an alarm leaves alone a group of which nothing is asked.
proof fn a_pass_leaves_the_released_alone(
    s: CoreState,
    master: [u8; 6],
    now: u128,
    clock: Clock,
    trace: Seq<LinkCall>,
    at: int,
    after: CoreState,
    mac: [u8; 6],
)
    requires
        0 <= at,
        s.valid(),
        !s.is_driving(mac),
        s.tick_run(master, now, clock, trace, at) == Some((after, trace.len() as int)),
        !drives_in_alarm(s, Turn::Pass { master, now, clock, trace, at }),
    ensures
        !after.is_driving(mac),
        leaves_alone(Turn::Pass { master, now, clock, trace, at }, after, mac),
{
    let end = trace.len() as int;
    passes::a_pass_comes_to_driving(s, master, now, clock, trace, at);
    passes::a_pass_turns_every_fan_it_drives(s, master, now, clock, trace, at, after, end);
    passes::a_pass_keeps_the_loop_valid(s, master, now, clock, trace, at, after, end);
    passes::a_pass_shows_every_fan_group_once(s, master, now, clock, trace, at, after, end);
    if let Some((beaten, end1)) = s.counted().heartbeat_run(master, now, clock, trace, at) {
        if let Some((polled, end2)) = beaten.poll_run(now, trace, end1) {
            if let LinkCall::Poll { result: Ok(reply) } = trace[end1] {
                sightings_set_no_target(beaten.tracker.groups, reply.devices, now, mac);
                beaten.tracker.observing_keeps(reply.devices, now);
            }
            assert(no_target(polled.tracker.groups, mac));
            a_sweep_sets_no_target(polled, now, mac);
            let judged = passes::at_driving(polled, now);
            assert(judged.percent_for(mac) is None);
            passes::driving_leaves_the_others(
                judged,
                judged.driven(),
                mac,
                master,
                now,
                trace,
                end2,
            );
            if let Some((driven, end3)) = judged.drive_run(
                judged.driven(),
                master,
                now,
                trace,
                end2,
            ) {
                assert(after.tracker == driven.tracker);
            }
            assert forall|k: int| at <= k < end implies !commands(#[trigger] trace[k], mac) by {
                if commands(trace[k], mac) {
                    a_harmless_call_commands_the_asked(judged, trace[k], now, mac);
                }
            }
        }
    }
    assert forall|k: int|
        0 <= k < after.snapshot.groups.len() && (
        #[trigger] after.snapshot.groups[k]).mac == mac implies after.snapshot.groups[k].target
        is None && !after.snapshot.groups[k].acknowledged by {
        assert(passes::shows_truly(after.tracker, after.snapshot.groups[k], now));
    }
}

/// A speed command of a pass goes to a group that is to be driven.
proof fn a_harmless_call_commands_the_asked(
    judged: CoreState,
    call: LinkCall,
    now: u128,
    mac: [u8; 6],
)
    requires
        is_harmless(judged, call, now),
        commands(call, mac),
    ensures
        judged.percent_for(mac) is Some,
{
    if let LinkCall::Send { channel, receiver, payload, .. } = call {
        let i = choose|i: int|
            0 <= i < judged.tracker.groups.len() && laws::is_turned_by(
                #[trigger] judged.tracker.groups[i],
                judged.tracker.master,
                channel,
                receiver,
                payload,
                judged.alarm is Some,
            ) && judged.tracker.groups[i].is_online(now) && judged.percent_for(
                judged.tracker.groups[i].device.mac,
            ) is Some;
        assert(judged.tracker.groups[i].device.mac@ == mac@);
        assert(judged.tracker.groups[i].device.mac =~= mac);
    }
}

/// A turn that does not ask for a group of which nothing is asked, and drives
/// nothing in alarm, leaves it alone.
proof fn a_turn_leaves_the_released_alone(s: CoreState, turn: Turn, mac: [u8; 6])
    requires
        s.valid(),
        !s.is_driving(mac),
        turned(s, turn) is Some,
        !asks_for(turn, mac),
        !drives_in_alarm(s, turn),
    ensures
        !turned(s, turn)->0.is_driving(mac),
        leaves_alone(turn, turned(s, turn)->0, mac),
{
    match turn {
        Turn::Ask(Request::Want(other, percent)) => {
            if wanted::key_of(other) == wanted::key_of(mac) {
                wanted::keys_tell_groups_apart(other, mac);
            }
        },
        Turn::Ask(Request::Release(other)) => {
            groups::change_keeps(s.tracker, other, |g: Group| groups::cleared(g));
            groups::placed(s.tracker.groups, mac);
            groups::placed(s.tracker.groups, other);
        },
        Turn::Take => {},
        Turn::Pass { master, now, clock, trace, at } => {
            a_pass_leaves_the_released_alone(
                s,
                master,
                now,
                clock,
                trace,
                at,
                turned(s, turn)->0,
                mac,
            );
        },
    }
}

/// Whether the turns of a run do not ask for a group and drive nothing in
/// alarm.
pub open spec fn asks_nothing_of(s: CoreState, turns: Seq<Turn>, mac: [u8; 6]) -> bool {
    forall|i: int|
        0 <= i < turns.len() ==> !asks_for(#[trigger] turns[i], mac) && !drives_in_alarm(
            before(s, turns, i),
            turns[i],
        )
}

/// A group that was released stays released: in a run that does not ask for
/// it and in which the alarm is not up, no speed command goes to it in any
/// pass, and after each the host is shown it, if at all, without a target and
/// with nothing seen applied.
pub proof fn a_released_group_stays_released(
    s: CoreState,
    mac: [u8; 6],
    turns: Seq<Turn>,
    i: int,
)
    requires
        s.valid(),
        ran(s.released(mac), turns) is Some,
        asks_nothing_of(s.released(mac), turns, mac),
        0 <= i < turns.len(),
    ensures
        leaves_alone(turns[i], before(s.released(mac), turns, i + 1), mac),
        !before(s.released(mac), turns, i + 1).is_driving(mac),
    decreases i,
{
    let start = s.released(mac);
    a_request_keeps_valid(s, Request::Release(mac));
    a_run_goes_turn_by_turn(start, turns, i);
    if i == 0 {
        assert(turns.take(0).len() == 0);
        groups::change_keeps(s.tracker, mac, |g: Group| groups::cleared(g));
        groups::placed(s.tracker.groups, mac);
    } else {
        a_released_group_stays_released(s, mac, turns, i - 1);
    }
    assert(!asks_for(turns[i], mac));
    a_turn_leaves_the_released_alone(before(start, turns, i), turns[i], mac);
}

/// A release is said once: a group of which something is asked, or on which
/// something was set, is released with one line, and releasing it again,
/// at once or after any run that does not ask for it and in which the alarm
/// is not up, says nothing.
pub proof fn a_release_is_said_once(s: CoreState, mac: [u8; 6], turns: Seq<Turn>)
    requires
        s.valid(),
        ran(s.released(mac), turns) is Some,
        asks_nothing_of(s.released(mac), turns, mac),
    ensures
        s.released(mac).events == if s.is_driving(mac) {
            s.events.push(text::mac_of(mac) + " released; its fans keep their last duty"@)
        } else {
            s.events
        },
        ran(s.released(mac), turns) matches Some(later) ==> later.released(mac).events
            == later.events,
{
    let start = s.released(mac);
    if turns.len() == 0 {
        groups::change_keeps(s.tracker, mac, |g: Group| groups::cleared(g));
        groups::placed(s.tracker.groups, mac);
    } else {
        let last = turns.len() - 1;
        a_released_group_stays_released(s, mac, turns, last);
        assert(turns.take(last + 1) =~= turns);
    }
}

} // verus!
