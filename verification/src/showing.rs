//! What the host is shown of the groups and told through the C interface,
//! field by field.

use crate::duties::leaves_duties_out;
use crate::ffi;
use crate::groups;
use crate::groups::{Group, TrackerState};
use crate::heartbeat::Clock;
use crate::model;
use crate::model::{CoreState, GroupState, LinkCall, SnapshotState};
use crate::passes;
use crate::passes::{driving_point, duties_for};
use crate::tracking;
use crate::wanted;
use vstd::prelude::*;
use vstd::utf8::is_char_boundary;

verus! {

/// Whether a group is one of the dongle's fan groups: it names the dongle, is
/// of kind 0 and has a fan.
pub open spec fn is_own_fan_group(group: Group, master: [u8; 6]) -> bool {
    group.device.master_mac == master && group.device.device_type == 0 && group.device.fan_count
        >= 1
}

/// Whether a host is shown a group as it is: the address, the receiver type,
/// the number of fans, the model of the first one, the duties it reports, its
/// target and the sends of it; online where it was heard in the last fifteen
/// seconds, with the speeds it reports, and without any where it was not; and
/// applied only while it is online and reports the target.
pub open spec fn is_shown_as(shown: GroupState, group: Group, now: u128) -> bool {
    let online = now <= group.last_seen + 15_000_000_000;
    &&& shown.mac == group.device.mac
    &&& shown.receiver == group.device.receiver
    &&& shown.fan_count == group.device.fan_count
    &&& shown.model == group.device.fan_types[0]
    &&& shown.online == online
    &&& forall|k: int|
        0 <= k < 4 ==> #[trigger] shown.rpm[k] == if online {
            group.device.rpm[k]
        } else {
            0
        }
    &&& forall|k: int| 0 <= k < 4 ==> #[trigger] shown.duty[k] == group.device.duty[k]
    &&& shown.target == group.target
    &&& shown.acknowledged == (online && group.is_acknowledged(now))
    &&& shown.unacknowledged == group.unacknowledged
}

/// Whether one of the groups shown is a group as it is.
pub open spec fn is_among_shown(shown: Seq<GroupState>, group: Group, now: u128) -> bool {
    exists|k: int| 0 <= k < shown.len() && is_shown_as(#[trigger] shown[k], group, now)
}

/// After a pass the host is shown every fan group of the dongle that is known,
/// as it is, and no other group.
pub proof fn every_fan_group_is_shown_as_it_is(
    s: CoreState,
    master: [u8; 6],
    now: u128,
    clock: Clock,
    t: Seq<LinkCall>,
    at: int,
    after: CoreState,
    end: int,
    i: int,
)
    requires
        s.valid(),
        s.tick_run(master, now, clock, t, at) == Some((after, end)),
        0 <= i < after.tracker.groups.len(),
    ensures
        is_own_fan_group(after.tracker.groups[i], after.tracker.master) ==> is_among_shown(
            after.snapshot.groups,
            after.tracker.groups[i],
            now,
        ),
        !is_own_fan_group(after.tracker.groups[i], after.tracker.master) ==> forall|k: int|
            0 <= k < after.snapshot.groups.len() ==> (#[trigger] after.snapshot.groups[k]).mac
                != after.tracker.groups[i].device.mac,
        forall|k: int|
            0 <= k < after.snapshot.groups.len() ==> groups::macs_of(
                after.tracker.groups,
            ).contains((#[trigger] after.snapshot.groups[k]).mac),
{
    passes::a_pass_leaves_a_current_order(s, master, now, clock, t, at, after, end);
    passes::a_pass_shows_every_fan_group_once(s, master, now, clock, t, at, after, end);
    let tracker = after.tracker;
    let group = tracker.groups[i];
    let mac = group.device.mac;
    let shown = after.snapshot.groups;
    let fans = tracker.fans();
    let away = tracker.groups.filter(|g: Group| model::is_away(g, tracker.master, now));
    passes::online_part(tracker, now);
    passes::offline_part(tracker, now);
    groups::only_place(tracker.groups, i);
    assert(passes::is_fan_group(tracker, mac) == is_own_fan_group(group, tracker.master));
    if is_own_fan_group(group, tracker.master) {
        if group.is_online(now) {
            assert(groups::is_heard(tracker.groups, mac, now));
            assert(groups::macs_of(fans).contains(mac));
            let k = choose|k: int|
                0 <= k < groups::macs_of(fans).len() && groups::macs_of(fans)[k] == mac;
            assert(tracker.group(fans[k].device.mac) == Some(fans[k]));
            assert(fans[k] == group);
            assert(shown[k] == model::online_state(group, now));
            assert(is_shown_as(shown[k], group, now));
        } else {
            assert(!groups::is_heard(tracker.groups, mac, now));
            assert(groups::macs_of(away).contains(mac));
            let k = choose|k: int|
                0 <= k < groups::macs_of(away).len() && groups::macs_of(away)[k] == mac;
            assert(tracker.group(away[k].device.mac) == Some(away[k]));
            assert(away[k] == group);
            assert(shown[fans.len() + k] == model::offline_state(group));
            assert(is_shown_as(shown[fans.len() + k], group, now));
        }
    } else {
        assert(!passes::is_shown(shown, mac));
    }
    assert forall|k: int| 0 <= k < shown.len() implies groups::macs_of(tracker.groups).contains(
        (#[trigger] shown[k]).mac,
    ) by {
        assert(passes::shows_truly(tracker, shown[k], now));
        groups::placed(tracker.groups, shown[k].mac);
    }
}

/// The addresses of those let through are those let through of the addresses.
proof fn filtered_addresses(
    tracker: TrackerState,
    order: Seq<[u8; 6]>,
    pred: spec_fn(Group) -> bool,
)
    requires
        forall|k: int|
            0 <= k < order.len() ==> tracker.group_at(#[trigger] order[k]).device.mac == order[k],
    ensures
        groups::macs_of(
            order.map_values(|mac: [u8; 6]| tracker.group_at(mac)).filter(pred),
        ) == order.filter(|mac: [u8; 6]| pred(tracker.group_at(mac))),
    decreases order.len(),
{
    reveal(Seq::filter);
    let at = |mac: [u8; 6]| tracker.group_at(mac);
    let held = |mac: [u8; 6]| pred(tracker.group_at(mac));
    if order.len() > 0 {
        let front = order.drop_last();
        assert forall|k: int| 0 <= k < front.len() implies tracker.group_at(
            #[trigger] front[k],
        ).device.mac == front[k] by {
            assert(front[k] == order[k]);
        }
        filtered_addresses(tracker, front, pred);
        let listed = order.map_values(at);
        assert(listed.drop_last() =~= front.map_values(at));
        assert(order[order.len() - 1] == order.last());
        assert(tracker.group_at(order.last()).device.mac == order.last());
        let kept = front.map_values(at).filter(pred);
        if pred(tracker.group_at(order.last())) {
            assert(groups::macs_of(listed.filter(pred)) =~= groups::macs_of(kept).push(
                order.last(),
            ));
            assert(order.filter(held) =~= front.filter(held).push(order.last()));
        } else {
            assert(groups::macs_of(listed.filter(pred)) =~= groups::macs_of(kept));
            assert(order.filter(held) =~= front.filter(held));
        }
    } else {
        assert(groups::macs_of(order.map_values(at).filter(pred)) =~= order.filter(held));
    }
}

/// The groups that are driven, and that a host is shown first, come in the
/// slot order: they are what is left of it without the devices that are no
/// fan groups of the dongle.
pub proof fn fan_groups_come_in_slot_order(tracker: TrackerState)
    requires
        tracker.valid(),
    ensures
        groups::macs_of(tracker.fans()) == tracker.order.filter(
            |mac: [u8; 6]| is_own_fan_group(tracker.group_at(mac), tracker.master),
        ),
{
    let drives = |g: Group| g.is_bound(tracker.master) && g.is_fans();
    let own = |mac: [u8; 6]| is_own_fan_group(tracker.group_at(mac), tracker.master);
    let held = |mac: [u8; 6]| drives(tracker.group_at(mac));
    assert forall|k: int| 0 <= k < tracker.order.len() implies tracker.group_at(
        #[trigger] tracker.order[k],
    ).device.mac == tracker.order[k] by {
        groups::placed(tracker.groups, tracker.order[k]);
    }
    filtered_addresses(tracker, tracker.order, drives);
    same_filter(tracker.order, own, held);
}

/// Two conditions that agree let the same through.
proof fn same_filter(
    list: Seq<[u8; 6]>,
    a: spec_fn([u8; 6]) -> bool,
    b: spec_fn([u8; 6]) -> bool,
)
    requires
        forall|x: [u8; 6]| #[trigger] a(x) == b(x),
    ensures
        list.filter(a) == list.filter(b),
    decreases list.len(),
{
    reveal(Seq::filter);
    if list.len() > 0 {
        same_filter(list.drop_last(), a, b);
        assert(a(list.last()) == b(list.last()));
    }
}

/// What the host is shown first are the groups that are driven, in slot order.
pub proof fn online_groups_are_shown_in_slot_order(
    s: CoreState,
    master: [u8; 6],
    now: u128,
    clock: Clock,
    t: Seq<LinkCall>,
    at: int,
    after: CoreState,
    end: int,
    k: int,
)
    requires
        s.valid(),
        s.tick_run(master, now, clock, t, at) == Some((after, end)),
        0 <= k < after.snapshot.groups.len(),
    ensures
        ({
            let online = after.tracker.order.filter(
                |mac: [u8; 6]| is_own_fan_group(after.tracker.group_at(mac), after.tracker.master),
            );
            &&& k < online.len() ==> after.snapshot.groups[k].mac == online[k]
                && after.snapshot.groups[k].online
            &&& k >= online.len() ==> !after.snapshot.groups[k].online
        }),
{
    passes::a_pass_leaves_a_current_order(s, master, now, clock, t, at, after, end);
    fan_groups_come_in_slot_order(after.tracker);
    let fans = after.tracker.fans();
    if k < fans.len() {
        assert(groups::macs_of(fans)[k] == fans[k].device.mac);
        assert(after.snapshot.groups[k] == model::online_state(fans[k], now));
    }
}

/// Every fan group of the dongle that was heard in the last fifteen seconds is
/// driven where something is asked of it: whatever else a pass finds, the
/// group ends it with the duties nearest to its percentage as its target, on
/// every fan, and is sent them where they are due.
pub proof fn an_asked_fan_group_is_driven(
    s: CoreState,
    master: [u8; 6],
    now: u128,
    clock: Clock,
    t: Seq<LinkCall>,
    at: int,
    after: CoreState,
    end: int,
    judged: CoreState,
    here: int,
    i: int,
    percent: u8,
    slot: int,
)
    requires
        s.valid(),
        s.tick_run(master, now, clock, t, at) == Some((after, end)),
        driving_point(s, master, now, clock, t, at) == Some((judged, here)),
        0 <= i < judged.tracker.groups.len(),
        is_own_fan_group(judged.tracker.groups[i], judged.tracker.master),
        now <= judged.tracker.groups[i].last_seen + 15_000_000_000,
        judged.failures_in_a_row < 3,
        judged.wanted.contains_key(wanted::key_of(judged.tracker.groups[i].device.mac)),
        judged.wanted[wanted::key_of(judged.tracker.groups[i].device.mac)] == percent,
        0 <= slot < 4,
    ensures
        ({
            let group = judged.tracker.groups[i];
            &&& after.tracker.group(group.device.mac) matches Some(driven) && driven.target
                matches Some(target) && {
                &&& slot >= group.device.fan_count ==> target[slot] == 0
                &&& slot < group.device.fan_count && !leaves_duties_out(group.device) ==> -50 < 100
                    * target[slot] - 255 * percent <= 50
                &&& slot < group.device.fan_count && leaves_duties_out(group.device) ==> -250 < 100
                    * target[slot] - 255 * percent <= 150
                &&& groups::aimed(group, target).is_due(now) ==> passes::are_sent(
                    t,
                    here,
                    end,
                    group.device,
                    target,
                )
            }
        }),
{
    passes::a_pass_comes_to_driving(s, master, now, clock, t, at);
    let group = judged.tracker.groups[i];
    let mac = group.device.mac;
    groups::only_place(judged.tracker.groups, i);
    assert(groups::is_heard(judged.tracker.groups, mac, now));
    assert(judged.tracker.order.contains(mac));
    tracking::every_fan_group_is_driven(judged.tracker, i);
    assert(judged.driven().contains(mac));
    assert(judged.alarm is None);
    assert(judged.percent_for(mac) == Some(percent));
    assert(model::asks_within_bounds(judged.wanted));
    assert(30 <= percent <= 100);
    passes::a_pass_sends_what_is_due(
        s,
        master,
        now,
        clock,
        t,
        at,
        after,
        end,
        judged,
        here,
        mac,
    );
    crate::conduct::a_group_is_driven_at_its_percentage(group, percent, slot);
    assert forall|k: int| 0 <= k < judged.driven().len() implies judged.driven().contains(
        #[trigger] judged.driven()[k],
    ) by {}
    passes::every_driven_group_gets_its_target(
        judged,
        judged.driven(),
        master,
        now,
        t,
        here,
        mac,
    );
    judged.drive_keeps(judged.driven(), master, now, t, here);
    if let Some((driven, end3)) = judged.drive_run(judged.driven(), master, now, t, here) {
        judged.same_places(driven);
        assert(driven.tracker == after.tracker);
        assert(driven.tracker.group(mac)->0.device == group.device);
        assert(driven.tracker.group(mac)->0.target == Some(duties_for(group, percent)));
    }
}

/// What a pass counts: itself, and its poll as one that succeeded or one that
/// failed; the failures in a row start over with the one, and go up with the
/// other unless the dongle is back.
pub proof fn a_pass_counts_its_poll(
    s: CoreState,
    master: [u8; 6],
    now: u128,
    clock: Clock,
    t: Seq<LinkCall>,
    at: int,
    after: CoreState,
    end: int,
    k: int,
)
    requires
        s.valid(),
        s.has_room(now),
        s.tick_run(master, now, clock, t, at) == Some((after, end)),
        at <= k < end,
        t[k] is Poll,
    ensures
        after.snapshot.ticks == s.snapshot.ticks + 1,
        t[k]->Poll_result is Ok ==> after.snapshot.polls == s.snapshot.polls + 1
            && after.snapshot.poll_failures == s.snapshot.poll_failures && after.failures_in_a_row
            == 0 && after.snapshot.skipped_records == s.snapshot.skipped_records
            + t[k]->Poll_result->Ok_0.skipped,
        t[k]->Poll_result is Err ==> after.snapshot.polls == s.snapshot.polls
            && after.snapshot.poll_failures == s.snapshot.poll_failures + 1 && (
        after.failures_in_a_row == s.failures_in_a_row + 1 || (after.failures_in_a_row == 0
            && after.snapshot.reconnects == s.snapshot.reconnects + 1)),
        after.snapshot.alarm is Some <==> after.failures_in_a_row >= 3,
{
    let counted = s.counted();
    passes::a_pass_calls_in_order(s, master, now, clock, t, at, after, end);
    if let Some((beaten, end1)) = counted.heartbeat_run(master, now, clock, t, at) {
        if let Some((polled, end2)) = beaten.poll_run(now, t, end1) {
            let judged = passes::at_driving(polled, now);
            judged.drive_keeps(judged.driven(), master, now, t, end2);
            passes::the_poll_is_the_only_one(s, master, now, clock, t, at, after, end, end1, k);
            assert(k == end1);
        }
    }
}

/// A state that is laid out for the caller carries the snapshot: the dongle,
/// the counts, whether the alarm is up, and how many groups there are, of
/// which there is room for sixteen.
pub proof fn a_state_carries_the_snapshot(state: ffi::State, snapshot: SnapshotState, m: int)
    requires
        ffi::tells(state, snapshot),
        0 <= m < 6,
    ensures
        state.size == 560,
        state.version == 1,
        state.master_mac[m] == snapshot.master_mac[m],
        state.channel == snapshot.channel,
        snapshot.alarm is Some ==> state.alarm == 1,
        snapshot.alarm is None ==> state.alarm == 0,
        state.ticks == snapshot.ticks,
        state.polls == snapshot.polls,
        state.poll_failures == snapshot.poll_failures,
        snapshot.groups.len() <= 16 ==> state.group_count == snapshot.groups.len(),
        snapshot.groups.len() > 16 ==> state.group_count == 16,
{
}

/// Every group that is laid out for the caller carries what the snapshot says
/// of it, slot for slot: the speeds, the duties, the target, zeros where there
/// is none, and the flags as one or zero.
pub proof fn a_state_carries_every_group(
    state: ffi::State,
    snapshot: SnapshotState,
    i: int,
    m: int,
    slot: int,
)
    requires
        ffi::tells(state, snapshot),
        0 <= i < 16,
        i < snapshot.groups.len(),
        0 <= m < 6,
        0 <= slot < 4,
    ensures
        ({
            let laid = state.groups[i];
            let told = snapshot.groups[i];
            &&& i < state.group_count
            &&& laid.mac[m] == told.mac[m]
            &&& laid.receiver == told.receiver
            &&& laid.fan_count == told.fan_count
            &&& laid.model == told.model
            &&& told.online ==> laid.online == 1
            &&& !told.online ==> laid.online == 0
            &&& told.acknowledged ==> laid.acknowledged == 1
            &&& !told.acknowledged ==> laid.acknowledged == 0
            &&& laid.unacknowledged == told.unacknowledged
            &&& laid.rpm[slot] == told.rpm[slot]
            &&& laid.duty[slot] == told.duty[slot]
            &&& told.target matches Some(target) ==> laid.has_target == 1 && laid.target[slot]
                == target[slot]
            &&& told.target is None ==> laid.has_target == 0 && laid.target[slot] == 0
        }),
{
    assert(state.groups[i] == ffi::group_of(snapshot.groups[i]));
}

/// The places behind the groups that are told of are empty.
pub proof fn a_state_is_empty_behind_its_groups(
    state: ffi::State,
    snapshot: SnapshotState,
    i: int,
    m: int,
    slot: int,
)
    requires
        ffi::tells(state, snapshot),
        0 <= i < 16,
        i >= snapshot.groups.len(),
        0 <= m < 6,
        0 <= slot < 4,
    ensures
        ({
            let laid = state.groups[i];
            &&& i >= state.group_count
            &&& laid.mac[m] == 0
            &&& laid.receiver == 0
            &&& laid.fan_count == 0
            &&& laid.model == 0
            &&& laid.online == 0
            &&& laid.acknowledged == 0
            &&& laid.has_target == 0
            &&& laid.unacknowledged == 0
            &&& laid.rpm[slot] == 0
            &&& laid.duty[slot] == 0
            &&& laid.target[slot] == 0
        }),
{
    assert(state.groups[i] == ffi::no_group());
}

/// The codes that a caller tells failures by are zero for success and each a
/// negative number of its own for the rest.
pub proof fn every_failure_has_its_code()
    ensures
        ffi::OK == 0,
        ffi::ERR_ARGUMENT == -1,
        ffi::ERR_DONGLE == -2,
        ffi::ERR_LCONNECT == -3,
        ffi::ERR_PANIC == -4,
        ffi::ERR_SIZE == -5,
        ffi::ERR_WINDOWS == -6,
{
}

/// The log kept for the host holds a thousand lines: a further one drops the
/// oldest and nothing else, and comes last.
pub proof fn the_host_log_holds_a_thousand_lines(
    lines: Seq<Seq<char>>,
    line: Seq<char>,
    k: int,
)
    requires
        0 <= k < lines.len() <= 1000,
    ensures
        ({
            let kept = ffi::kept_with(lines, line);
            &&& kept.len() <= 1000
            &&& kept.last() == line
            &&& lines.len() < 1000 ==> kept.len() == lines.len() + 1 && kept[k] == lines[k]
            &&& lines.len() == 1000 && k >= 1 ==> kept.len() == 1000 && kept[k - 1] == lines[k]
        }),
{
}

/// A text goes into a buffer as far as it fits with a zero behind it: it is a
/// front part of the text that ends between two characters, and no longer
/// front part that does would fit.
pub proof fn a_text_goes_in_as_far_as_it_fits(chars: Seq<char>, length: nat, longer: int)
    requires
        length > 0,
    ensures
        ({
            let bytes = vstd::utf8::encode_utf8(chars);
            let kept = ffi::cut(bytes, length);
            &&& kept.is_prefix_of(bytes)
            &&& is_char_boundary(bytes, kept.len() as int)
            &&& kept.len() + 1 <= length
            &&& kept.len() < longer <= bytes.len() && is_char_boundary(bytes, longer) ==> longer + 1
                > length
        }),
{
    let bytes = vstd::utf8::encode_utf8(chars);
    vstd::utf8::encode_utf8_valid_utf8(chars);
    let n: int = if bytes.len() < length {
        bytes.len() as int
    } else {
        length - 1
    };
    ffi::boundary_is_boundary(bytes, n);
    if ffi::boundary_before(bytes, n) < longer <= n {
        the_boundary_is_the_last(bytes, n, longer);
    }
    let kept = ffi::cut(bytes, length);
    assert(kept =~= bytes.subrange(0, kept.len() as int));
}

/// No boundary lies between the one found and the place it was looked from.
proof fn the_boundary_is_the_last(bytes: Seq<u8>, n: int, m: int)
    requires
        0 <= n <= bytes.len(),
        ffi::boundary_before(bytes, n) < m <= n,
    ensures
        !is_char_boundary(bytes, m),
    decreases n,
{
    if n > 0 && !is_char_boundary(bytes, n) && m < n {
        the_boundary_is_the_last(bytes, n - 1, m);
    }
}

/// A refusal says a code and a message where it carries both.
pub proof fn a_refusal_says_its_code_and_message(
    refusal: ffi::Refusal,
    code: i32,
    message: Seq<char>,
)
    ensures
        refusal.says(code, message) ==> refusal.code == code,
        refusal.says(code, message) ==> refusal.message@ == message,
        refusal.says(refusal.code, refusal.message@),
{
}

} // verus!
