//! Why a pass that has room overflows no count: each group is driven once, and
//! no failure comes twice.

use crate::address;
use crate::groups;
use crate::heartbeat::Clock;
use crate::lists;
use crate::log;
use crate::log::FailState;
use crate::model;
use crate::model::{CoreState, LinkCall, SnapshotState};
use crate::passes;
use crate::text;
use vstd::prelude::*;

verus! {

/// Whether every failure whose text begins so can be counted once more.
pub open spec fn has_fail_room(fail_log: Seq<FailState>, start: Seq<char>) -> bool {
    forall|i: int|
        0 <= i < fail_log.len() && start.is_prefix_of((#[trigger] fail_log[i]).message)
            ==> fail_log[i].held < u32::MAX
}

/// How the failures of driving a group begin.
pub open spec fn start_of(mac: [u8; 6]) -> Seq<char> {
    text::mac_of(mac) + ": "@
}

/// Whether a group's sends can be counted once more.
pub open spec fn has_send_room(s: CoreState, mac: [u8; 6]) -> bool {
    s.tracker.group(mac) matches Some(group) ==> group.unacknowledged < u32::MAX
}

/// Whether what is said of a group can be counted once more.
pub open spec fn has_change_room(s: CoreState, mac: [u8; 6]) -> bool {
    log::entry_for(s.change_log, mac) matches Some(entry) ==> entry.held < u32::MAX
}

/// Whether driving a group overflows no count.
pub open spec fn has_driving_room(s: CoreState, mac: [u8; 6]) -> bool {
    &&& has_send_room(s, mac)
    &&& has_change_room(s, mac)
    &&& has_fail_room(s.fail_log, start_of(mac))
}

/// A text that begins with another character does not begin so.
proof fn begins_otherwise(start: Seq<char>, message: Seq<char>)
    requires
        start.len() > 0,
        message.len() > 0,
        start[0] != message[0],
    ensures
        !start.is_prefix_of(message),
{
    if start.is_prefix_of(message) {
        assert(start[0] == message.subrange(0, start.len() as int)[0]);
    }
}

/// A failure that begins so can be counted.
pub proof fn room_for_one(fail_log: Seq<FailState>, start: Seq<char>, rest: Seq<char>)
    requires
        has_fail_room(fail_log, start),
    ensures
        log::entry_of(fail_log, start + rest) matches Some(i) ==> fail_log[i].held < u32::MAX,
{
    log::the_entry_is_the_first(fail_log, start + rest);
    assert((start + rest).subrange(0, start.len() as int) =~= start);
}

/// A failure that begins otherwise leaves the room.
proof fn room_is_left(fail_log: Seq<FailState>, message: Seq<char>, now: u128, start: Seq<char>)
    requires
        has_fail_room(fail_log, start),
        !start.is_prefix_of(message),
    ensures
        has_fail_room(log::failed(fail_log, message, now).0, start),
{
    log::the_entry_is_the_first(fail_log, message);
    let after = log::failed(fail_log, message, now).0;
    assert forall|i: int|
        0 <= i < after.len() && start.is_prefix_of(
            (#[trigger] after[i]).message,
        ) implies after[i].held < u32::MAX by {
        if i < fail_log.len() {
            assert(fail_log[i].message == after[i].message);
        }
    }
}

/// What has room for a pass has room for everything in it.
pub proof fn room_for_all(s: CoreState, now: u128, start: Seq<char>, mac: [u8; 6])
    requires
        s.has_room(now),
    ensures
        has_fail_room(s.fail_log, start),
        has_driving_room(s, mac),
{
    groups::placed(s.tracker.groups, mac);
    address::the_place_is_the_first(log::macs_of(s.change_log), mac);
}

/// The heartbeat leaves the room for the rest of a pass.
pub proof fn the_heartbeat_leaves_room(
    s: CoreState,
    master: [u8; 6],
    now: u128,
    clock: Clock,
    t: Seq<LinkCall>,
    at: int,
    start: Seq<char>,
)
    requires
        has_fail_room(s.fail_log, start),
        start.len() > 0,
        start[0] != 'h',
    ensures
        s.heartbeat_run(master, now, clock, t, at) matches Some((after, _)) ==> {
            &&& has_fail_room(after.fail_log, start)
            &&& after.tracker == s.tracker
            &&& after.wanted == s.wanted
            &&& after.change_log == s.change_log
            &&& after.failures_in_a_row == s.failures_in_a_row
            &&& after.reconnect_wait == s.reconnect_wait
            &&& after.snapshot == (SnapshotState {
                last_error: after.snapshot.last_error,
                ..s.snapshot
            })
        },
{
    reveal_strlit("heartbeat: ");
    if let Some((after, _)) = s.heartbeat_run(master, now, clock, t, at) {
        if !s.is_beating(now) {
            if let LinkCall::Send { result: Err(error), .. } = t[at] {
                let (words, _) = model::error_run(t, at + 1, error)->0;
                begins_otherwise(start, "heartbeat: "@ + words);
                room_is_left(s.fail_log, "heartbeat: "@ + words, now, start);
            }
        }
    }
}

/// The poll leaves the room for the rest of a pass.
pub proof fn the_poll_leaves_room(
    s: CoreState,
    now: u128,
    t: Seq<LinkCall>,
    at: int,
    start: Seq<char>,
)
    requires
        s.valid(),
        s.can_stop(),
        has_fail_room(s.fail_log, start),
        start.len() > 0,
        start[0] != 'p',
    ensures
        s.poll_run(now, t, at) matches Some((after, _)) ==> {
            &&& has_fail_room(after.fail_log, start)
            &&& after.can_stop()
            &&& after.change_log == s.change_log
            &&& after.reconnect_wait <= s.reconnect_wait
            &&& after.snapshot.reconnects == s.snapshot.reconnects
        },
{
    reveal_strlit("poll: ");
    if let Some((after, _)) = s.poll_run(now, t, at) {
        if let LinkCall::Poll { result: Err(error) } = t[at] {
            let (words, _) = model::error_run(t, at + 1, error)->0;
            begins_otherwise(start, "poll: "@ + words);
            room_is_left(s.fail_log, "poll: "@ + words, now, start);
        } else if let LinkCall::Poll { result: Ok(reply) } = t[at] {
            groups::noting_counts(s.tracker.groups, reply.devices, now, u32::MAX - 1);
        }
    }
}

/// The sweep and the alarm leave the room for the rest of a pass.
pub proof fn judging_leaves_room(s: CoreState, now: u128, mac: [u8; 6])
    requires
        s.can_stop(),
    ensures
        ({
            let after = passes::at_driving(s, now);
            &&& has_send_room(after, mac)
            &&& after.change_log == s.change_log
            &&& after.fail_log == s.fail_log
            &&& after.reconnect_wait == s.reconnect_wait
            &&& after.snapshot.reconnects == s.snapshot.reconnects
        }),
{
    let keeps = |g: groups::Group| groups::is_kept(g, s.tracker.master, now);
    let kept = s.tracker.groups.filter(keeps);
    lists::filtered(s.tracker.groups, keeps);
    groups::placed(kept, mac);
    if let Some(i) = groups::place_of(kept, mac) {
        assert(kept.contains(kept[i]));
        let k = choose|k: int| 0 <= k < s.tracker.groups.len() && s.tracker.groups[k] == kept[i];
        assert(s.tracker.groups[k].unacknowledged < u32::MAX);
    }
}

/// Driving one group leaves the room for driving another, and for what comes
/// after.
pub proof fn driving_one_leaves_room(
    s: CoreState,
    mac: [u8; 6],
    master: [u8; 6],
    now: u128,
    t: Seq<LinkCall>,
    at: int,
    other: [u8; 6],
)
    ensures
        s.drive_one_run(mac, master, now, t, at) matches Some((after, _)) ==> {
            &&& other != mac && has_driving_room(s, other) ==> has_driving_room(after, other)
            &&& has_fail_room(s.fail_log, "reconnect"@) ==> has_fail_room(
                after.fail_log,
                "reconnect"@,
            )
        },
{
    if let Some((after, _)) = s.drive_one_run(mac, master, now, t, at) {
        if other != mac {
            passes::others_keep_their_targets(s, mac, other, master, now, t, at);
        }
        if s.percent_for(mac) is Some && s.tracker.group(mac) is Some {
            let percent = s.percent_for(mac)->0;
            let group = s.tracker.group(mac)->0;
            let aimed = s.aimed(mac, group, percent, now);
            assert(aimed.fail_log == s.fail_log);
            if other != mac {
                let duties = passes::duties_for(group, percent)@.take(
                    model::said_count(group.device.fan_count),
                );
                log::a_change_leaves_the_others(
                    s.change_log,
                    mac,
                    model::target_line(mac, percent, duties),
                    now,
                    other,
                );
            }
            sending_leaves_room(aimed, mac, master, now, t, at, other);
        }
    }
}

/// Sending one group's target leaves the room of the failures of another, and
/// of a reconnect.
proof fn sending_leaves_room(
    s: CoreState,
    mac: [u8; 6],
    master: [u8; 6],
    now: u128,
    t: Seq<LinkCall>,
    at: int,
    other: [u8; 6],
)
    ensures
        s.send_run(mac, master, now, t, at) matches Some((after, _)) ==> {
            &&& after.change_log == s.change_log
            &&& other != mac && has_fail_room(s.fail_log, start_of(other)) ==> has_fail_room(
                after.fail_log,
                start_of(other),
            )
            &&& has_fail_room(s.fail_log, "reconnect"@) ==> has_fail_room(
                after.fail_log,
                "reconnect"@,
            )
        },
{
    if let Some((after, _)) = s.send_run(mac, master, now, t, at) {
        if s.tracker.group(mac) is Some && s.tracker.group(mac)->0.is_due(now) {
            if let LinkCall::Send { result: Err(error), .. } = t[at] {
                let (words, _) = model::error_run(t, at + 1, error)->0;
                let message = text::mac_of(mac) + ": "@ + words;
                text::an_address_has_its_colon(mac);
                text::an_address_has_its_colon(other);
                reveal_strlit("reconnect");
                begins_otherwise("reconnect"@, message);
                if has_fail_room(s.fail_log, "reconnect"@) {
                    room_is_left(s.fail_log, message, now, "reconnect"@);
                }
                if other != mac && has_fail_room(s.fail_log, start_of(other)) {
                    another_group_begins_otherwise(other, mac, words);
                    room_is_left(s.fail_log, message, now, start_of(other));
                }
            }
        }
    }
}

/// The failures of one group do not begin as those of another do.
proof fn another_group_begins_otherwise(other: [u8; 6], mac: [u8; 6], words: Seq<char>)
    requires
        other != mac,
    ensures
        !start_of(other).is_prefix_of(text::mac_of(mac) + ": "@ + words),
{
    let message = text::mac_of(mac) + ": "@ + words;
    let start = start_of(other);
    text::addresses_are_told_apart(other, mac);
    if start.is_prefix_of(message) {
        assert forall|i: int| 0 <= i < 17 implies text::mac_of(other)[i] == text::mac_of(
            mac,
        )[i] by {
            assert(start[i] == message.subrange(0, start.len() as int)[i]);
        }
        assert(text::mac_of(other) =~= text::mac_of(mac));
        assert(text::mac_of(mac).subrange(0, 17) =~= text::mac_of(mac));
    }
}

/// Sending one group's target a last time leaves the room of another.
pub proof fn last_sending_leaves_room(
    s: CoreState,
    mac: [u8; 6],
    master: [u8; 6],
    now: u128,
    t: Seq<LinkCall>,
    at: int,
    other: [u8; 6],
)
    requires
        other != mac,
        has_send_room(s, other),
    ensures
        s.last_send_run(mac, master, now, t, at) matches Some((after, _)) ==> has_send_room(
            after,
            other,
        ),
{
    groups::placed(s.tracker.groups, mac);
    groups::placed(s.tracker.groups, other);
    if let Some((after, _)) = s.last_send_run(mac, master, now, t, at) {
        assert(groups::macs_of(after.tracker.groups) =~= groups::macs_of(s.tracker.groups));
    }
}

} // verus!
