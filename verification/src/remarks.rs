//! What the loop says of what it does, and to whom its commands go.

use crate::device;
use crate::discovery;
use crate::discovery::Device;
use crate::dongle;
use crate::duties;
use crate::engine;
use crate::engine::Request;
use crate::enumerate;
use crate::enumerate::Role;
use crate::groups;
use crate::groups::{Group, TrackerState};
use crate::lists;
use crate::log;
use crate::log::ChangeState;
use crate::model;
use crate::model::{CoreState, LinkCall};
use crate::speed;
use crate::text;
use crate::wanted;
use crate::wire;
use vstd::prelude::*;

verus! {

/// A group that comes online is told of with its fans and its type, and with
/// its dongle where that is another.
pub proof fn what_is_said_of_an_arrival(group: Group, master: [u8; 6])
    ensures
        ({
            let line = text::mac_of(group.device.mac) + " online: "@ + text::decimal_of(
                group.device.fan_count as nat,
            ) + " fans, receiver "@ + text::decimal_of(group.device.receiver as nat);
            &&& group.device.master_mac == master ==> model::online_line(group, master) == line
                + ""@
            &&& group.device.master_mac != master ==> model::online_line(group, master) == line
                + ", bound to another dongle"@
        }),
{
}

/// A group that went quiet was unheard for fifteen seconds; one of the dongle
/// that is forgotten, for ten minutes, and whether it is asked for still is
/// said with it; one of another dongle is gone.
pub proof fn what_is_said_of_a_silence(group: Group, master: [u8; 6], asked: Map<u64, u8>)
    ensures
        ({
            let name = text::mac_of(group.device.mac);
            let line = model::forgotten_line(group, master, asked);
            let silent = name + " forgotten after "@ + text::decimal_of(600) + " s unheard"@;
            &&& model::quiet_line(group.device.mac) == name + " unheard for "@ + text::decimal_of(
                15,
            ) + " s; its fans keep their last duty"@
            &&& group.device.master_mac != master ==> line == name
                + " gone; it was bound to another dongle"@
            &&& group.device.master_mac == master && asked.contains_key(
                wanted::key_of(group.device.mac),
            ) ==> line == silent + "; driven at its last asked percentage if it returns"@
            &&& group.device.master_mac == master && !asked.contains_key(
                wanted::key_of(group.device.mac),
            ) ==> line == silent + ""@
        }),
{
}

/// A target is told of with its percentage and its duties, unreadable records
/// with how many there were and how many so far.
pub proof fn what_is_said_of_targets_and_records(
    mac: [u8; 6],
    percent: u8,
    duties: Seq<u8>,
    skipped: u8,
    total: u64,
)
    ensures
        model::target_line(mac, percent, duties) == text::mac_of(mac) + " target "@
            + text::decimal_of(percent as nat) + "% "@ + text::list_of(duties),
        model::skipped_line(skipped, total) == text::decimal_of(skipped as nat)
            + " unreadable record(s) in a reply, "@ + text::decimal_of(total as nat) + " so far"@,
{
}

/// Unreadable records are told of with those of all replies so far.
pub proof fn unreadable_records_are_told_with_their_sum(s: CoreState, skipped: u8, now: u128)
    requires
        skipped > 0,
        s.last_skip_log is None || now >= s.last_skip_log->0 + 60_000_000_000,
        s.snapshot.skipped_records + skipped <= u64::MAX,
    ensures
        s.skipped(skipped, now).events == s.events.push(
            model::skipped_line(skipped, (s.snapshot.skipped_records + skipped) as u64),
        ),
{
}

/// A new target is told of with the percentage it is for and the duties of the
/// group's fans, but not where the target stays what it was.
pub proof fn a_target_is_told_of_when_it_changes(
    s: CoreState,
    mac: [u8; 6],
    group: Group,
    percent: u8,
    now: u128,
)
    requires
        log::entry_for(s.change_log, mac) is None,
    ensures
        ({
            let target = speed::prepared(
                group.device,
                model::spread(percent, group.device.fan_count),
            );
            let shown = target@.take(model::said_count(group.device.fan_count));
            let after = s.aimed(mac, group, percent, now);
            &&& group.target == Some(target) ==> after.events == s.events && after.change_log
                == s.change_log
            &&& group.target != Some(target) ==> after.events == s.events.push(
                model::target_line(mac, percent, shown),
            )
        }),
{
    let target = speed::prepared(group.device, model::spread(percent, group.device.fan_count));
    let shown = target@.take(model::said_count(group.device.fan_count));
    let line = model::target_line(mac, percent, shown);
    assert(line + log::suffix_of(0) =~= line);
}

/// The alarm is told of when it goes up, with what it means, and when it is
/// lifted.
pub proof fn the_alarm_is_told_of(s: CoreState)
    ensures
        s.alarm is None && s.failures_in_a_row >= 3 ==> s.judged().events == s.events.push(
            "failsafe: "@ + (text::decimal_of(3) + " polls failed in a row"@)
                + "; every reachable group to "@ + text::decimal_of(100) + "%"@,
        ),
        s.alarm is Some && s.failures_in_a_row < 3 ==> s.judged().events == s.events.push(
            "failsafe cleared; targets resume"@,
        ),
{
}

/// A release is told of where the group was asked for or had a target, and
/// only then.
pub proof fn a_release_is_told_of(s: CoreState, mac: [u8; 6])
    ensures
        ({
            let line = text::mac_of(mac) + " released; its fans keep their last duty"@;
            let has_target = s.tracker.group(mac) matches Some(group) && group.target is Some;
            let asked = s.wanted.contains_key(wanted::key_of(mac));
            &&& asked || has_target ==> s.released(mac).events == s.events.push(line)
            &&& !asked && !has_target ==> s.released(mac).events == s.events
        }),
{
}

/// Requests are taken in one after the other.
pub proof fn requests_are_taken_in_order(
    s: CoreState,
    requests: Seq<Request>,
    mac: [u8; 6],
    percent: u8,
)
    ensures
        engine::asked_all(s, Seq::empty()) == s,
        engine::asked_all(s, requests.push(Request::Want(mac, percent))) == engine::asked_all(
            s,
            requests,
        ).wanting(mac, percent),
        engine::asked_all(s, requests.push(Request::Release(mac))) == engine::asked_all(
            s,
            requests,
        ).released(mac),
{
    assert(requests.push(Request::Want(mac, percent)).drop_last() =~= requests);
    assert(requests.push(Request::Release(mac)).drop_last() =~= requests);
}

/// A reconnect is told of with the dongle's address and channel, before the
/// alarm is lifted; one that failed with its scope, why it failed and the
/// whole seconds until the next.
pub proof fn what_is_said_of_a_reconnect(
    s: CoreState,
    master: [u8; 6],
    channel: u8,
    words: Seq<char>,
    now: u128,
    seconds: u64,
)
    requires
        s.reconnect_wait == seconds * 1_000_000_000,
    ensures
        s.reconnected(master, channel).events.len() > s.events.len(),
        s.reconnected(master, channel).events[s.events.len() as int] == "reconnected: master "@
            + text::mac_of(master) + " channel "@ + text::decimal_of(channel as nat),
        s.reconnected(master, channel).events.take(s.events.len() as int) == s.events,
        seconds < 60 ==> s.still_lost(words, now).snapshot.last_error == Some(
            "reconnect"@ + ": "@ + words + "; next try in "@ + text::decimal_of(seconds as nat)
                + " s"@,
        ),
        seconds >= 60 ==> s.still_lost(words, now).snapshot.last_error == Some(
            "reconnect on every channel"@ + ": "@ + words + "; next try in "@ + text::decimal_of(
                seconds as nat,
            ) + " s"@,
        ),
{
    assert(s.reconnect_wait / 1_000_000_000 == seconds as u128);
    assert(s.reconnected(master, channel).events.take(s.events.len() as int) =~= s.events);
}

/// A failure is what the host is told as the last error, and is said where the
/// log lets it.
pub proof fn a_failure_is_the_last_error(s: CoreState, message: Seq<char>, now: u128)
    ensures
        ({
            let after = s.failed(message, now);
            let (kept, line) = log::failed(s.fail_log, message, now);
            &&& after.snapshot.last_error == Some(message)
            &&& after.fail_log == kept
            &&& line is None ==> after.events == s.events
            &&& line matches Some(said) ==> after.events == s.events.push(said)
            &&& after.tracker == s.tracker
            &&& after.wanted == s.wanted
            &&& after.change_log == s.change_log
            &&& after.alarm == s.alarm
            &&& after.failures_in_a_row == s.failures_in_a_row
        }),
{
}

/// An error without a code of the system's is told in its own words; for one
/// with a code the system is asked for its words first.
pub proof fn the_system_is_asked_for_its_words(
    t: Seq<LinkCall>,
    at: int,
    error: dongle::Error,
)
    requires
        0 <= at,
    ensures
        error.code_of() is None ==> model::error_run(t, at, error) == Some(
            (error.text_of(Seq::empty()), at),
        ),
        error.code_of() matches Some(code) ==> (model::error_run(t, at, error) matches Some(
            (words, end),
        ) ==> end == at + 1 && at < t.len() && (t[at] matches LinkCall::Message {
            code: asked,
            text,
        } && asked == code && words == error.text_of(text))),
        error.code_of() is Some && at < t.len() && (t[at] matches LinkCall::Message {
            code,
            ..
        } && error.code_of() == Some(code)) ==> model::error_run(t, at, error) is Some,
{
}

/// A poll that failed is told of as one, and so is a heartbeat.
pub proof fn failures_say_what_failed(
    s: CoreState,
    master: [u8; 6],
    now: u128,
    clock: crate::heartbeat::Clock,
    t: Seq<LinkCall>,
    at: int,
    error: dongle::Error,
)
    requires
        0 <= at < t.len(),
        error.code_of() is None,
    ensures
        t[at] == (LinkCall::Poll { result: Err(error) }) ==> (s.poll_run(now, t, at) matches Some(
            (after, end),
        ) && end == at + 1 && after.snapshot.last_error == Some(
            "poll: "@ + error.text_of(Seq::empty()),
        )),
        !s.is_beating(now) && t[at] == (LinkCall::Send {
            channel: s.channel,
            receiver: 0xFF,
            payload: s.beat(master, clock),
            result: Err(error),
        }) ==> (s.heartbeat_run(master, now, clock, t, at) matches Some((after, end)) && end == at
            + 1 && after.snapshot.last_error == Some("heartbeat: "@ + error.text_of(Seq::empty()))),
{
}

/// A change that was held back is said once ten seconds have passed since the
/// last line on the group, with those before it counted; an entry that holds
/// nothing back, or whose time is not up, stays as it is.
pub proof fn held_changes_are_said_after_ten_seconds(
    log: Seq<ChangeState>,
    now: u128,
    i: int,
)
    requires
        0 <= i < log.len(),
    ensures
        log::flushed(log, now).len() == log.len(),
        log::flushed(log, now)[i].mac == log[i].mac,
        log[i].pending is None || now < log[i].logged_at + 10_000_000_000 ==> log::flushed(
            log,
            now,
        )[i] == log[i],
        log[i].pending is Some && now >= log[i].logged_at + 10_000_000_000 ==> {
            &&& log::flushed(log, now)[i].pending is None
            &&& log::flushed(log, now)[i].held == 0
            &&& log::flushed(log, now)[i].logged_at == now
            &&& log[i].held > 0 ==> log::last_lines(log, now).contains(
                log[i].pending->0 + log::suffix_of((log[i].held - 1) as u32),
            )
        },
{
    let due = |e: ChangeState| log::is_overdue(e, now);
    lists::filtered(log, due);
    assert(log.contains(log[i]));
    if log[i].pending is Some && now >= log[i].logged_at + 10_000_000_000 {
        let said = log.filter(due);
        assert(due(log[i]));
        assert(said.contains(log[i]));
        let k = choose|k: int| 0 <= k < said.len() && said[k] == log[i];
        assert(log::last_lines(log, now)[k] == log::last_line(log[i]));
    }
}

/// Nothing is said of changes when the log is gone through but of those that
/// were held back for ten seconds, each once.
pub proof fn only_held_changes_are_said(log: Seq<ChangeState>, next: ChangeState, now: u128)
    ensures
        log::last_lines(Seq::empty(), now).len() == 0,
        next.pending is Some && now >= next.logged_at + 10_000_000_000 ==> log::last_lines(
            log.push(next),
            now,
        ).len() == log::last_lines(log, now).len() + 1 && log::last_lines(
            log.push(next),
            now,
        ).drop_last() == log::last_lines(log, now),
        next.pending is None || now < next.logged_at + 10_000_000_000 ==> log::last_lines(
            log.push(next),
            now,
        ) == log::last_lines(log, now),
{
    reveal(Seq::filter);
    assert(log.push(next).drop_last() =~= log);
    let due = |e: ChangeState| log::is_overdue(e, now);
    if log::is_overdue(next, now) {
        assert(log.push(next).filter(due) =~= log.filter(due).push(next));
        assert(log::last_lines(log.push(next), now).drop_last() =~= log::last_lines(log, now));
    } else {
        assert(log.push(next).filter(due) =~= log.filter(due));
    }
}

/// What the logs have held back is said, changes and failures alike, behind
/// what was said before.
pub proof fn what_is_held_back_is_said(s: CoreState, now: u128)
    ensures
        s.changes_flushed(now).events == s.events + log::last_lines(s.change_log, now),
        s.changes_flushed(now).change_log == log::flushed(s.change_log, now),
        s.changes_flushed(now).fail_log == s.fail_log,
        s.changes_flushed(now).tracker == s.tracker,
        s.failures_flushed(now).events == s.events + log::overdue(s.fail_log, now),
        s.failures_flushed(now).fail_log == log::still_held(s.fail_log, now),
        s.failures_flushed(now).change_log == s.change_log,
        s.failures_flushed(now).tracker == s.tracker,
{
}

/// A device that was not in the slot order before a reply and is in it now is
/// told of, whatever it is; one that was in it is not.
pub proof fn every_arrival_is_told_of(s: CoreState, before: Seq<[u8; 6]>, i: int, k: int)
    requires
        s.tracker.valid(),
    ensures
        0 <= i < s.tracker.order.len() && !before.contains(s.tracker.order[i]) ==> (
        s.tracker.group(s.tracker.order[i]) matches Some(group) && s.arrivals(before).contains(
            model::online_line(group, s.tracker.master),
        )),
        0 <= k < s.arrivals(before).len() ==> exists|j: int|
            0 <= j < s.tracker.order.len() && !before.contains(#[trigger] s.tracker.order[j])
                && s.tracker.group(s.tracker.order[j]) is Some && s.arrivals(before)[k]
                == model::online_line(
                s.tracker.group(s.tracker.order[j])->0,
                s.tracker.master,
            ),
{
    let listed = s.tracker.listed();
    let new = |g: Group| !before.contains(g.device.mac);
    lists::filtered(listed, new);
    s.tracker.listed_addresses();
    assert forall|j: int| 0 <= j < s.tracker.order.len() implies s.tracker.group(
        #[trigger] s.tracker.order[j],
    ) == Some(listed[j]) && listed[j].device.mac == s.tracker.order[j] by {
        crate::address::the_place_is_the_first(
            groups::macs_of(s.tracker.groups),
            s.tracker.order[j],
        );
        assert(groups::macs_of(s.tracker.groups).contains(s.tracker.order[j]));
    }
    if 0 <= i < s.tracker.order.len() && !before.contains(s.tracker.order[i]) {
        assert(listed.contains(listed[i]));
        assert(new(listed[i]));
        let said = listed.filter(new);
        let at = choose|at: int| 0 <= at < said.len() && said[at] == listed[i];
        assert(s.arrivals(before)[at] == model::online_line(listed[i], s.tracker.master));
    }
    if 0 <= k < s.arrivals(before).len() {
        let said = listed.filter(new);
        assert(said.contains(said[k]));
        let j = choose|j: int| 0 <= j < listed.len() && listed[j] == said[k];
        assert(s.tracker.group(s.tracker.order[j]) == Some(listed[j]));
        assert(!before.contains(s.tracker.order[j]));
    }
}

/// A sweep tells of every group it forgets, and of every fan group of the
/// dongle that was in the slot order after the last sweep, is known still, and
/// is not in it any more.
pub proof fn a_sweep_tells_of_who_is_silent(s: CoreState, now: u128, i: int, j: int)
    requires
        s.tracker.valid(),
    ensures
        ({
            let after = s.swept(now);
            &&& 0 <= i < s.tracker.groups.len() && !groups::is_kept(
                s.tracker.groups[i],
                s.tracker.master,
                now,
            ) ==> after.events.contains(
                model::forgotten_line(s.tracker.groups[i], s.tracker.master, s.wanted),
            )
            &&& 0 <= j < s.last_online.len() && !after.tracker.order.contains(s.last_online[j])
                && !s.tracker.forgotten(now).contains(s.last_online[j]) && (
            after.tracker.group(s.last_online[j]) matches Some(group) && group.device.master_mac
                == s.tracker.master && group.device.device_type == 0 && group.device.fan_count > 0)
                ==> after.events.contains(model::quiet_line(s.last_online[j]))
            &&& after.last_online == after.tracker.order
            &&& after.tracker == s.tracker.swept(now)
            &&& after.wanted == s.wanted
        }),
{
    let after = s.swept(now);
    let gone = |g: Group| !groups::is_kept(g, s.tracker.master, now);
    let forgotten = s.tracker.forgotten(now);
    let tracker = s.tracker.swept(now);
    let silent = |mac: [u8; 6]| CoreState::is_quiet(tracker, mac, forgotten);
    lists::filtered(s.tracker.groups, gone);
    lists::filtered(s.last_online, silent);
    let quiet = s.last_online.filter(silent).map_values(|mac: [u8; 6]| model::quiet_line(mac));
    let lost = s.tracker.groups.filter(gone).map_values(
        |g: Group| model::forgotten_line(g, s.tracker.master, s.wanted),
    );
    assert(after.events =~= s.events + quiet + lost);
    if 0 <= i < s.tracker.groups.len() && gone(s.tracker.groups[i]) {
        assert(s.tracker.groups.contains(s.tracker.groups[i]));
        let said = s.tracker.groups.filter(gone);
        let k = choose|k: int| 0 <= k < said.len() && said[k] == s.tracker.groups[i];
        assert(lost[k] == model::forgotten_line(
            s.tracker.groups[i],
            s.tracker.master,
            s.wanted,
        ));
        assert(after.events[s.events.len() + quiet.len() + k] == lost[k]);
    }
    if 0 <= j < s.last_online.len() && silent(s.last_online[j]) {
        assert(s.last_online.contains(s.last_online[j]));
        let said = s.last_online.filter(silent);
        let k = choose|k: int| 0 <= k < said.len() && said[k] == s.last_online[j];
        assert(quiet[k] == model::quiet_line(s.last_online[j]));
        assert(after.events[s.events.len() + k] == quiet[k]);
    }
}

/// A sweep tells of nothing else.
pub proof fn a_sweep_tells_of_no_one_else(s: CoreState, now: u128, k: int)
    requires
        s.events.len() <= k < s.swept(now).events.len(),
    ensures
        ({
            let after = s.swept(now);
            let line = after.events[k];
            ||| exists|i: int|
                0 <= i < s.tracker.groups.len() && !groups::is_kept(
                    #[trigger] s.tracker.groups[i],
                    s.tracker.master,
                    now,
                ) && line == model::forgotten_line(s.tracker.groups[i], s.tracker.master, s.wanted)
            ||| exists|j: int|
                0 <= j < s.last_online.len() && !after.tracker.order.contains(
                    #[trigger] s.last_online[j],
                ) && !s.tracker.forgotten(now).contains(s.last_online[j]) && (
                after.tracker.group(s.last_online[j]) matches Some(group)
                    && group.device.master_mac == s.tracker.master && group.device.device_type == 0
                    && group.device.fan_count > 0) && line == model::quiet_line(s.last_online[j])
        }),
{
    let after = s.swept(now);
    let gone = |g: Group| !groups::is_kept(g, s.tracker.master, now);
    let forgotten = s.tracker.forgotten(now);
    let tracker = s.tracker.swept(now);
    let silent = |mac: [u8; 6]| CoreState::is_quiet(tracker, mac, forgotten);
    lists::filtered(s.tracker.groups, gone);
    lists::filtered(s.last_online, silent);
    let kept = s.last_online.filter(silent);
    let lost = s.tracker.groups.filter(gone);
    let n = s.events.len() as int;
    if k < n + kept.len() {
        assert(kept.contains(kept[k - n]));
        let j = choose|j: int| 0 <= j < s.last_online.len() && s.last_online[j] == kept[k - n];
        assert(after.events[k] == model::quiet_line(s.last_online[j]));
        assert(silent(s.last_online[j]));
        assert(!after.tracker.order.contains(s.last_online[j]));
    } else {
        let at = k - n - kept.len();
        assert(lost.contains(lost[at]));
        let i = choose|i: int| 0 <= i < s.tracker.groups.len() && s.tracker.groups[i] == lost[at];
        assert(after.events[k] == model::forgotten_line(
            s.tracker.groups[i],
            s.tracker.master,
            s.wanted,
        ));
        assert(gone(s.tracker.groups[i]));
    }
}

/// A command names the group and the dongle, the dongle's channel, the slot
/// and the duties of the target.
pub proof fn what_a_command_says(
    s: CoreState,
    master: [u8; 6],
    group: Group,
    m: int,
    f: int,
    z: int,
)
    requires
        group.target is Some,
        0 <= m < 6,
        0 <= f < 4,
        21 <= z < 240,
    ensures
        ({
            let sent = s.command(master, group);
            &&& sent.len() == 240
            &&& sent[0] == 0x12
            &&& sent[1] == 0x10
            &&& sent[2 + m] == group.device.mac[m]
            &&& sent[8 + m] == master[m]
            &&& sent[14] == group.device.receiver
            &&& sent[15] == s.channel
            &&& sent[16] == s.tracker.slot(group.device.mac)
            &&& sent[17 + f] == (group.target->0)[f]
            &&& sent[z] == 0
        }),
{
    wire::a_speed_command_names_group_and_duties(
        group.device,
        master,
        s.channel,
        s.tracker.slot(group.device.mac),
        group.target->0,
        m,
        f,
        z,
    );
}

/// A target that is due goes out on the device's own channel to its type; where
/// it went out, it counts as sent now and once more, and where not, the group
/// and the words are the last error. One that is not due stays.
pub proof fn a_due_target_is_sent_on_the_devices_channel(
    s: CoreState,
    mac: [u8; 6],
    master: [u8; 6],
    now: u128,
    t: Seq<LinkCall>,
    at: int,
)
    requires
        s.tracker.valid(),
        s.send_run(mac, master, now, t, at) is Some,
        s.tracker.group(mac) matches Some(group) ==> group.unacknowledged < u32::MAX,
    ensures
        s.tracker.group(mac) is None ==> s.send_run(mac, master, now, t, at) == Some((s, at)),
        s.tracker.group(mac) matches Some(group) ==> {
            let (after, end) = s.send_run(mac, master, now, t, at)->0;
            &&& !group.is_due(now) ==> after == s && end == at
            &&& group.is_due(now) ==> (t[at] matches LinkCall::Send { channel, receiver, payload, result } && {
                &&& channel == group.device.channel
                &&& receiver == group.device.receiver
                &&& payload == s.command(master, group)
                &&& result is Ok ==> end == at + 1 && after.events == s.events && (
                after.tracker.group(mac) matches Some(sent) && sent.last_sent == Some(now)
                    && sent.unacknowledged == group.unacknowledged + 1 && sent.target
                    == group.target && sent.device == group.device)
                &&& result matches Err(error) ==> after.tracker == s.tracker && (error.code_of()
                    is None ==> after.snapshot.last_error == Some(
                    text::mac_of(mac) + ": "@ + error.text_of(Seq::empty()),
                ))
            })
        },
{
    groups::change_keeps(s.tracker, mac, |g: Group| groups::resent(g, now));
    groups::placed(s.tracker.groups, mac);
}

/// When the loop stops, a target that is not seen applied goes out once more,
/// due or not, on the device's own channel to its type; one that is, or that
/// is not there, does not, and a failure is passed over.
pub proof fn a_last_send_is_on_the_devices_channel(
    s: CoreState,
    mac: [u8; 6],
    master: [u8; 6],
    now: u128,
    t: Seq<LinkCall>,
    at: int,
)
    requires
        s.last_send_run(mac, master, now, t, at) is Some,
    ensures
        s.tracker.group(mac) is None ==> s.last_send_run(mac, master, now, t, at) == Some((s, at)),
        s.tracker.group(mac) matches Some(group) ==> {
            let (after, end) = s.last_send_run(mac, master, now, t, at)->0;
            let wanting = group.target is Some && !group.is_acknowledged(now);
            &&& !wanting ==> after == s && end == at
            &&& wanting ==> end == at + 1 && after.events == s.events && (
            t[at] matches LinkCall::Send { channel, receiver, payload, result } && {
                &&& channel == group.device.channel
                &&& receiver == group.device.receiver
                &&& payload == s.command(master, group)
                &&& result is Err ==> after == s
            })
        },
{
}

/// A loop that stops says so last, tells the host once more, and changes no
/// count.
pub proof fn a_stop_is_told_of(
    s: CoreState,
    master: [u8; 6],
    now: u128,
    t: Seq<LinkCall>,
    at: int,
)
    requires
        s.shutdown_run(master, now, t, at) is Some,
    ensures
        ({
            let (after, _) = s.shutdown_run(master, now, t, at)->0;
            &&& after.events.len() > 0
            &&& after.events.last() == "stopping; the groups keep their last duty"@
            &&& after.snapshot.groups == model::published_groups(after.tracker, now)
            &&& after.snapshot.alarm == after.alarm
        }),
{
}

/// What the host is told is the alarm and the groups as they are, and the
/// counts as they stand; a pass counts as one.
pub proof fn what_the_host_is_told(s: CoreState, now: u128)
    ensures
        ({
            let after = s.published(now);
            &&& after.snapshot.alarm == s.alarm
            &&& after.snapshot.groups == model::published_groups(s.tracker, now)
            &&& after.snapshot.master_mac == s.snapshot.master_mac
            &&& after.snapshot.channel == s.snapshot.channel
            &&& after.snapshot.ticks == s.snapshot.ticks
            &&& after.snapshot.polls == s.snapshot.polls
            &&& after.snapshot.poll_failures == s.snapshot.poll_failures
            &&& after.snapshot.reconnects == s.snapshot.reconnects
            &&& after.snapshot.skipped_records == s.snapshot.skipped_records
            &&& after.snapshot.last_error == s.snapshot.last_error
            &&& after.tracker == s.tracker
            &&& after.events == s.events
        }),
        s.snapshot.ticks < u64::MAX ==> s.counted().snapshot.ticks == s.snapshot.ticks + 1,
        s.counted().snapshot.polls == s.snapshot.polls,
        s.counted().tracker == s.tracker,
        s.counted().events == s.events,
{
}

/// The groups in an order that are bound to a dongle.
pub open spec fn bound_among(tracker: TrackerState, macs: Seq<[u8; 6]>) -> Seq<[u8; 6]> {
    macs.filter(
        |mac: [u8; 6]|
            tracker.group(mac) matches Some(group) && group.device.master_mac == tracker.master,
    )
}

/// The slot of a group of the dongle is one more than the number of the
/// dongle's devices before it in the order, of whatever kind they are.
pub proof fn a_slot_is_a_place_among_the_dongles_own(tracker: TrackerState, i: int)
    requires
        tracker.valid(),
        0 <= i < tracker.order.len(),
        tracker.group(tracker.order[i]) matches Some(group) && group.device.master_mac
            == tracker.master,
        bound_among(tracker, tracker.order.take(i)).len() < 255,
    ensures
        tracker.slot(tracker.order[i]) == bound_among(tracker, tracker.order.take(i)).len() + 1,
{
    let mac = tracker.order[i];
    let master = tracker.master;
    let listed = tracker.listed();
    let all = listed.map_values(|g: Group| g.device);
    tracker.listed_addresses();
    assert forall|j: int| 0 <= j < tracker.order.len() implies (#[trigger] all[j]).mac
        == tracker.order[j] && tracker.group(tracker.order[j]) == Some(listed[j]) by {
        crate::address::the_place_is_the_first(groups::macs_of(tracker.groups), tracker.order[j]);
        assert(groups::macs_of(tracker.groups).contains(tracker.order[j]));
        assert(listed[j] == tracker.group_at(tracker.order[j]));
    }
    assert forall|j: int| 0 <= j < all.len() implies (tracker.group(
        #[trigger] tracker.order[j],
    ) matches Some(group) && group.device == all[j]) by {
        assert(all[j] == listed[j].device);
    }
    let front = all.take(i);
    assert(!duties::holds_bound(front, master, mac)) by {
        if duties::holds_bound(front, master, mac) {
            let j = choose|j: int|
                0 <= j < front.len() && (#[trigger] front[j]).master_mac == master && front[j].mac
                    == mac;
            assert(all[j].mac == tracker.order[j]);
        }
    }
    as_many_are_bound(tracker, all, i);
    duties::a_slot_counts_the_bound_before_it(front, all[i], master, mac);
    assert(all.take(i + 1) =~= front.push(all[i]));
    assert(all[i].mac == mac && all[i].master_mac == master);
    a_slot_stays(all, i, all.len() as int, master, mac);
    assert(all.take(all.len() as int) =~= all);
}

/// As many devices are bound as there are addresses of bound groups.
proof fn as_many_are_bound(tracker: TrackerState, all: Seq<Device>, n: int)
    requires
        0 <= n <= tracker.order.len(),
        all.len() == tracker.order.len(),
        forall|j: int|
            0 <= j < all.len() ==> (tracker.group(#[trigger] tracker.order[j]) matches Some(group)
                && group.device == all[j]),
    ensures
        all.take(n).filter(|d: Device| d.master_mac == tracker.master).len() == bound_among(
            tracker,
            tracker.order.take(n),
        ).len(),
    decreases n,
{
    reveal(Seq::filter);
    if n > 0 {
        as_many_are_bound(tracker, all, n - 1);
        assert(all.take(n).drop_last() =~= all.take(n - 1));
        assert(tracker.order.take(n).drop_last() =~= tracker.order.take(n - 1));
        assert(tracker.order.take(n).last() == tracker.order[n - 1]);
        assert(tracker.group(tracker.order[n - 1]) matches Some(group) && group.device == all[n
            - 1]);
    }
}

/// What comes behind a bound device leaves its slot alone.
proof fn a_slot_stays(all: Seq<Device>, i: int, n: int, master: [u8; 6], mac: [u8; 6])
    requires
        0 <= i < n <= all.len(),
        all[i].mac == mac,
        all[i].master_mac == master,
    ensures
        speed::slot_number(all.take(n), master, mac) == speed::slot_number(
            all.take(i + 1),
            master,
            mac,
        ),
    decreases n,
{
    if n > i + 1 {
        a_slot_stays(all, i, n - 1, master, mac);
        let front = all.take(n - 1);
        assert(front[i] == all[i]);
        assert(duties::holds_bound(front, master, mac));
        duties::a_slot_counts_the_bound_before_it(front, all[n - 1], master, mac);
        assert(all.take(n) =~= front.push(all[n - 1]));
    }
}

/// What each error of a dongle is told as, with which half it was.
pub proof fn what_an_error_is_told_as(error: dongle::Error, message: Seq<char>)
    ensures
        match error {
            dongle::Error::Find(why) => error.text_of(message) == why.text_of(message)
                && error.code_of() == why.code_of(),
            dongle::Error::Open(role, why) => error.text_of(message) == "opening the "@
                + role.text_of() + ": "@ + why.text_of(message) && error.code_of()
                == why.code_of(),
            dongle::Error::Transfer(role, why) => error.text_of(message) == role.text_of() + ": "@
                + why.text_of(message) && error.code_of() == Some(why.code),
            dongle::Error::NoMaster => error.text_of(message)
                == "the transmitter answered on no channel"@ && error.code_of() is None,
            dongle::Error::ShortWrite(role, n) => error.text_of(message) == role.text_of()
                + " took "@ + text::decimal_of(n as nat) + " of "@ + text::decimal_of(64)
                + " bytes"@ && error.code_of() is None,
            dongle::Error::Reply(why) => error.text_of(message) == why.text_of() && error.code_of()
                is None,
            dongle::Error::Closed => error.text_of(message)
                == "the dongle is closed until it is reopened"@ && error.code_of() is None,
        },
        Role::Transmitter.text_of() == "transmitter"@,
        Role::Receiver.text_of() == "receiver"@,
{
}

/// What a reply that cannot be read is told as.
pub proof fn what_an_unreadable_reply_is_told_as(error: discovery::Error)
    ensures
        match error {
            discovery::Error::Short => error.text_of() == "discovery reply shorter than its header"@,
            discovery::Error::WrongCommand(command) => error.text_of()
                == "discovery reply has command byte 0x"@ + text::hex_of(command),
            discovery::Error::Truncated { expected, actual } => error.text_of()
                == "discovery reply truncated: "@ + text::decimal_of(actual as nat) + " of "@
                + text::decimal_of(expected as nat) + " bytes"@,
        },
{
}

/// What a dongle that cannot be found or opened is told as; only a failed call
/// has a code.
pub proof fn what_a_missing_dongle_is_told_as(
    found: enumerate::Error,
    opened: device::Error,
    message: Seq<char>,
)
    ensures
        match found {
            enumerate::Error::Windows(error) => found.text_of(message) == error.text_of(message)
                && found.code_of() == Some(error.code),
            enumerate::Error::Missing(role) => found.text_of(message) == "no "@ + role.text_of()
                + " dongle is attached"@ && found.code_of() is None,
            enumerate::Error::Several(role, count) => found.text_of(message) == text::decimal_of(
                count as nat,
            ) + " "@ + role.text_of() + " dongles are attached"@ && found.code_of() is None,
        },
        match opened {
            device::Error::Windows(error) => opened.text_of(message) == error.text_of(message)
                && opened.code_of() == Some(error.code),
            device::Error::NoPipe(id) => opened.text_of(message) == "the device has no pipe 0x"@
                + text::hex_of(id) && opened.code_of() is None,
            device::Error::PipeType(id, kind) => opened.text_of(message) == "pipe 0x"@
                + text::hex_of(id) + " has unusable transfer type "@ + text::signed_of(kind as int)
                && opened.code_of() is None,
        },
{
}

/// A reconnect that fails is told of in its own words, or in the system's where
/// it has a code, for which the system is asked next.
pub proof fn a_failed_reconnect_says_why(
    s: CoreState,
    now: u128,
    t: Seq<LinkCall>,
    at: int,
    error: dongle::Error,
    master: [u8; 6],
    channel: u8,
    code: u32,
    words: Seq<char>,
)
    requires
        0 <= at < t.len(),
        s.failures_in_a_row >= 3,
        s.reconnect_at is None || now >= s.reconnect_at->0,
        t[at] == (LinkCall::Reconnect {
            every_channel: s.reconnect_wait >= 60_000_000_000,
            result: Err(error),
            master,
            channel,
        }),
    ensures
        error.code_of() is None ==> s.recover_run(now, t, at) == Some(
            (s.still_lost(error.text_of(Seq::empty()), now), at + 1),
        ),
        error.code_of() == Some(code) && at + 1 < t.len() && t[at + 1] == (LinkCall::Message {
            code,
            text: words,
        }) ==> s.recover_run(now, t, at) == Some(
            (s.still_lost(error.text_of(words), now), at + 2),
        ),
{
}

/// A reconnect that succeeds is to the dongle that answered.
pub proof fn a_reconnect_is_to_the_dongle_that_answered(
    s: CoreState,
    now: u128,
    t: Seq<LinkCall>,
    at: int,
    master: [u8; 6],
    channel: u8,
)
    requires
        0 <= at < t.len(),
        s.failures_in_a_row >= 3,
        s.reconnect_at is None || now >= s.reconnect_at->0,
        t[at] == (LinkCall::Reconnect {
            every_channel: s.reconnect_wait >= 60_000_000_000,
            result: Ok(()),
            master,
            channel,
        }),
    ensures
        s.recover_run(now, t, at) == Some((s.reconnected(master, channel), at + 1)),
{
}

/// For a failure with a code the system is asked right behind the call that
/// failed: after a poll and after a heartbeat alike.
pub proof fn the_system_is_asked_right_away(
    s: CoreState,
    master: [u8; 6],
    now: u128,
    clock: crate::heartbeat::Clock,
    t: Seq<LinkCall>,
    at: int,
    error: dongle::Error,
    code: u32,
    words: Seq<char>,
)
    requires
        0 <= at,
        at + 1 < t.len(),
        error.code_of() == Some(code),
        t[at + 1] == (LinkCall::Message { code, text: words }),
    ensures
        t[at] == (LinkCall::Poll { result: Err(error) }) ==> (s.poll_run(now, t, at) matches Some(
            (after, end),
        ) && end == at + 2 && after.snapshot.last_error == Some("poll: "@ + error.text_of(words))),
        !s.is_beating(now) && t[at] == (LinkCall::Send {
            channel: s.channel,
            receiver: 0xFF,
            payload: s.beat(master, clock),
            result: Err(error),
        }) ==> (s.heartbeat_run(master, now, clock, t, at) matches Some((after, end)) && end == at
            + 2 && after.snapshot.last_error == Some("heartbeat: "@ + error.text_of(words))),
{
}

/// A poll that succeeds takes in the reply that came.
pub proof fn a_poll_takes_in_its_reply(
    s: CoreState,
    now: u128,
    t: Seq<LinkCall>,
    at: int,
    reply: discovery::ReplyState,
)
    requires
        0 <= at < t.len(),
        t[at] == (LinkCall::Poll { result: Ok(reply) }),
    ensures
        s.poll_run(now, t, at) == Some((s.polled(reply, now), at + 1)),
        s.polled(reply, now).events.len() >= s.events.len(),
{
}

} // verus!
