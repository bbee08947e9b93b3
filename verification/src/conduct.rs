//! What the loop does with a request, a poll, a failure or a dongle that is
//! lost, in numbers and times.

use crate::discovery::ReplyState;
use crate::duties;
use crate::duties::leaves_duties_out;
use crate::groups;
use crate::groups::Group;
use crate::heartbeat::Clock;
use crate::lists;
use crate::log;
use crate::log::{ChangeState, FailState};
use crate::model;
use crate::model::{CoreState, LinkCall};
use crate::passes;
use crate::passes::duties_for;
use crate::speed;
use crate::wanted;
use vstd::prelude::*;

verus! {

/// A loop starts with nothing known, asked, said or counted, on the dongle it
/// is given.
pub proof fn a_loop_starts_with_nothing(master: [u8; 6], channel: u8, mac: [u8; 6])
    ensures
        ({
            let start = CoreState::start(master, channel);
            &&& start.valid()
            &&& start.tracker.master == master
            &&& start.tracker.groups.len() == 0
            &&& start.channel == channel
            &&& start.percent_for(mac) is None
            &&& start.alarm is None
            &&& start.failures_in_a_row == 0
            &&& start.reconnect_at is None
            &&& start.reconnect_wait == 2_000_000_000
            &&& !start.heartbeat_sent
            &&& start.last_heartbeat is None
            &&& start.events.len() == 0
            &&& start.snapshot.master_mac == master
            &&& start.snapshot.channel == channel
            &&& start.snapshot.ticks == 0
            &&& start.snapshot.polls == 0
            &&& start.snapshot.poll_failures == 0
            &&& start.snapshot.reconnects == 0
            &&& start.snapshot.skipped_records == 0
            &&& start.snapshot.alarm is None
            &&& start.snapshot.last_error is None
            &&& start.snapshot.groups.len() == 0
        }),
{
}

/// A percentage from 30 to 100 is kept as it is asked for, and is what the
/// group is driven at while there is no alarm; a lower one is kept as 30, a
/// higher one as 100. A request changes nothing else.
pub proof fn a_request_is_kept_as_asked(
    s: CoreState,
    mac: [u8; 6],
    percent: u8,
    other: [u8; 6],
)
    ensures
        ({
            let after = s.wanting(mac, percent);
            &&& s.alarm is None && 30 <= percent <= 100 ==> after.percent_for(mac) == Some(percent)
            &&& s.alarm is None && percent < 30 ==> after.percent_for(mac) == Some(30u8)
            &&& s.alarm is None && percent > 100 ==> after.percent_for(mac) == Some(100u8)
            &&& s.alarm is Some ==> after.percent_for(mac) == Some(100u8)
            &&& 30 <= percent <= 100 ==> after.wanted[wanted::key_of(mac)] == percent
            &&& percent < 30 ==> after.wanted[wanted::key_of(mac)] == 30
            &&& percent > 100 ==> after.wanted[wanted::key_of(mac)] == 100
            &&& other != mac ==> after.percent_for(other) == s.percent_for(other)
            &&& after == (CoreState { wanted: after.wanted, ..s })
        }),
{
    if other != mac && wanted::key_of(other) == wanted::key_of(mac) {
        wanted::keys_tell_groups_apart(other, mac);
    }
}

/// A release takes back what is asked of one group and its target, and of no
/// other.
pub proof fn a_release_takes_back_one_request(s: CoreState, mac: [u8; 6], other: [u8; 6])
    requires
        s.valid(),
        other != mac,
    ensures
        ({
            let after = s.released(mac);
            &&& s.alarm is None ==> after.percent_for(mac) is None
            &&& after.tracker.group(mac) matches Some(group) ==> group.target is None
                && group.last_sent is None && group.unacknowledged == 0
            &&& after.percent_for(other) == s.percent_for(other)
            &&& after.tracker.group(other) == s.tracker.group(other)
            &&& after.tracker.order == s.tracker.order
            &&& after.alarm == s.alarm
            &&& after.snapshot == s.snapshot
        }),
{
    passes::a_released_group_is_left_alone(s, mac, other, s.tracker.master, 0, Seq::empty(), 0);
    groups::change_keeps(s.tracker, mac, |g: Group| groups::cleared(g));
    groups::placed(s.tracker.groups, mac);
}

/// A group is driven at the duty nearest to its percentage on each of its
/// fans: a percentage of 30 or more is above every floor. Fans that leave
/// duties out are at most two steps off.
pub proof fn a_group_is_driven_at_its_percentage(group: Group, percent: u8, slot: int)
    requires
        30 <= percent <= 100,
        group.device.device_type == 0,
        0 <= slot < 4,
    ensures
        ({
            let duty = duties_for(group, percent)[slot];
            &&& slot >= group.device.fan_count ==> duty == 0
            &&& slot < group.device.fan_count && !leaves_duties_out(group.device) ==> -50 < 100
                * duty - 255 * percent <= 50
            &&& slot < group.device.fan_count && leaves_duties_out(group.device) ==> -250 < 100
                * duty - 255 * percent <= 150 && !(153 <= duty <= 155)
            &&& slot < group.device.fan_count && percent == 100 ==> duty == 255
        }),
{
    let device = group.device;
    let left = crate::discovery::Device { right_attach: false, ..device };
    let wanted = model::spread(percent, device.fan_count);
    let fans: int = if device.fan_count < 4 {
        device.fan_count as int
    } else {
        4
    };
    let place: int = if device.right_attach && slot < fans {
        fans - 1 - slot
    } else {
        slot
    };
    assert(speed::floor_duty(left) <= 35);
    assert(leaves_duties_out(left) == leaves_duties_out(device)) by {
        assert(left.fan_types == device.fan_types);
    }
    duties::a_wanted_duty_is_sent_or_raised(left, wanted, place);
    duties::a_percentage_goes_to_every_fan(percent, device.fan_count, place);
    if device.right_attach {
        duties::a_chain_from_the_right_is_reversed(device, wanted, slot);
    } else {
        assert(left == device);
    }
}

/// The alarm is up exactly while three polls or more have failed in a row, and
/// means a hundred percent for every group; without it a group is driven at
/// what is asked of it, or not at all.
pub proof fn three_failures_mean_full_speed(s: CoreState, mac: [u8; 6])
    ensures
        s.judged().alarm is Some <==> s.failures_in_a_row >= 3,
        s.failures_in_a_row >= 3 ==> s.judged().percent_for(mac) == Some(100u8),
        s.failures_in_a_row < 3 && !s.wanted.contains_key(wanted::key_of(mac))
            ==> s.judged().percent_for(mac) is None,
        s.failures_in_a_row < 3 && s.wanted.contains_key(wanted::key_of(mac))
            ==> s.judged().percent_for(mac) == Some(s.wanted[wanted::key_of(mac)]),
        s.judged() == (CoreState {
            alarm: s.judged().alarm,
            events: s.judged().events,
            ..s
        }),
        (s.judged().alarm is Some) == (s.alarm is Some) ==> s.judged().events == s.events,
        (s.judged().alarm is Some) != (s.alarm is Some) ==> s.judged().events.len()
            == s.events.len() + 1 && s.judged().events.drop_last() == s.events,
{
    if let Some(why) = s.alarm {
        assert(why == model::Alarm::Dongle);
    }
    assert(s.judged().events.drop_last() =~= s.events || s.judged().events =~= s.events);
}

/// A poll that succeeds is counted as one, starts the failures and the wait
/// over, takes in the devices, and counts what could not be read.
pub proof fn a_poll_that_succeeds(s: CoreState, reply: ReplyState, now: u128)
    requires
        s.snapshot.polls < u64::MAX,
        s.snapshot.skipped_records + 255 <= u64::MAX,
    ensures
        ({
            let after = s.polled(reply, now);
            &&& after.snapshot.polls == s.snapshot.polls + 1
            &&& after.snapshot.poll_failures == s.snapshot.poll_failures
            &&& after.snapshot.skipped_records == s.snapshot.skipped_records + reply.skipped
            &&& after.snapshot.ticks == s.snapshot.ticks
            &&& after.snapshot.reconnects == s.snapshot.reconnects
            &&& after.snapshot.last_error == s.snapshot.last_error
            &&& after.failures_in_a_row == 0
            &&& after.reconnect_at is None
            &&& after.reconnect_wait == 2_000_000_000
            &&& after.tracker == s.tracker.observed(reply.devices, now)
            &&& after.wanted == s.wanted
            &&& after.channel == s.channel
            &&& after.alarm == s.alarm
            &&& after.heartbeat_sent == s.heartbeat_sent
            &&& after.last_heartbeat == s.last_heartbeat
            &&& after.change_log == s.change_log
            &&& after.fail_log == s.fail_log
        }),
{
}

/// Unreadable records are mentioned at once the first time, and then once a
/// minute: not again within a minute of the last mention, and in any case
/// after it.
pub proof fn unreadable_records_are_mentioned_once_a_minute(s: CoreState, skipped: u8, now: u128)
    ensures
        skipped == 0 ==> s.skipped(skipped, now) == s,
        skipped > 0 && (s.last_skip_log is None || now >= s.last_skip_log->0 + 60_000_000_000)
            ==> s.skipped(skipped, now).events.len() == s.events.len() + 1 && s.skipped(
            skipped,
            now,
        ).last_skip_log == Some(now),
        skipped > 0 && s.last_skip_log is Some && now < s.last_skip_log->0 + 60_000_000_000
            ==> s.skipped(skipped, now).events == s.events && s.skipped(skipped, now).last_skip_log
            == s.last_skip_log,
{
}

/// A poll that fails is counted as one, adds to the failures in a row, and is
/// the last error; what is known and asked of the groups stays.
pub proof fn a_poll_that_fails(s: CoreState, message: Seq<char>, now: u128)
    requires
        s.snapshot.poll_failures < u64::MAX,
        s.failures_in_a_row < u32::MAX,
    ensures
        ({
            let after = s.poll_missed().failed(message, now);
            &&& after.snapshot.poll_failures == s.snapshot.poll_failures + 1
            &&& after.snapshot.polls == s.snapshot.polls
            &&& after.snapshot.last_error == Some(message)
            &&& after.snapshot.skipped_records == s.snapshot.skipped_records
            &&& after.snapshot.ticks == s.snapshot.ticks
            &&& after.snapshot.reconnects == s.snapshot.reconnects
            &&& after.failures_in_a_row == s.failures_in_a_row + 1
            &&& after.tracker == s.tracker
            &&& after.wanted == s.wanted
            &&& after.channel == s.channel
            &&& after.reconnect_at == s.reconnect_at
            &&& after.reconnect_wait == s.reconnect_wait
            &&& after.change_log == s.change_log
        }),
{
}

/// A heartbeat goes out where none did in the last second: on the dongle's
/// channel to every group, and where it went out it counts from then on; one
/// that failed leaves the next pass to try again.
pub proof fn a_heartbeat_goes_to_every_group(
    s: CoreState,
    master: [u8; 6],
    now: u128,
    clock: Clock,
    t: Seq<LinkCall>,
    at: int,
)
    requires
        s.heartbeat_run(master, now, clock, t, at) is Some,
    ensures
        s.last_heartbeat is Some && now < s.last_heartbeat->0 + 1_000_000_000 ==> s.heartbeat_run(
            master,
            now,
            clock,
            t,
            at,
        ) == Some((s, at)),
        s.last_heartbeat is None || now >= s.last_heartbeat->0 + 1_000_000_000 ==> {
            &&& s.heartbeat_run(master, now, clock, t, at) matches Some((after, end)) && end > at
                && (match t[at] {
                LinkCall::Send { channel, receiver, payload, result } => {
                    &&& channel == s.channel
                    &&& receiver == 0xFF
                    &&& payload == s.beat(master, clock)
                    &&& result is Ok ==> after.last_heartbeat == Some(now) && after.heartbeat_sent
                        && after.events == s.events && end == at + 1
                    &&& result is Err ==> after.last_heartbeat == s.last_heartbeat
                        && after.heartbeat_sent == s.heartbeat_sent
                        && after.snapshot.last_error is Some
                },
                _ => false,
            })
        },
{
}

/// What a heartbeat of the loop carries: 0x12 and 0x14, the dongle's address
/// from 8 on, and the date and time from 46 on; no readings. The first since
/// the dongle was connected has 0x14 in the fifty bytes from 14 on.
pub proof fn a_heartbeat_tells_the_time(
    s: CoreState,
    master: [u8; 6],
    clock: Clock,
    m: int,
    k: int,
)
    requires
        0 <= m < 6,
        14 <= k < 64,
    ensures
        ({
            let sent = s.beat(master, clock);
            &&& sent.len() == 240
            &&& sent[0] == 0x12
            &&& sent[1] == 0x14
            &&& sent[8 + m] == master[m]
            &&& !s.heartbeat_sent ==> sent[k] == 0x14
            &&& s.heartbeat_sent ==> {
                &&& 256 * sent[46] + sent[47] == clock.year
                &&& sent[48] == clock.month
                &&& sent[49] == clock.day
                &&& sent[50] == clock.hour
                &&& sent[51] == clock.minute
                &&& sent[52] == clock.second
                &&& k < 46 || k > 52 ==> sent[k] == 0
            }
        }),
{
}

/// A reconnect is tried once three polls failed in a row, at once or when the
/// wait is over, and not before; on every channel only where the wait has
/// grown to a minute.
pub proof fn when_a_reconnect_is_tried(
    s: CoreState,
    now: u128,
    t: Seq<LinkCall>,
    at: int,
)
    requires
        s.recover_run(now, t, at) is Some,
    ensures
        s.failures_in_a_row < 3 ==> s.recover_run(now, t, at) == Some((s, at)),
        s.reconnect_at is Some && now < s.reconnect_at->0 ==> s.recover_run(now, t, at) == Some(
            (s, at),
        ),
        s.failures_in_a_row >= 3 && (s.reconnect_at is None || now >= s.reconnect_at->0) ==> (
        t[at] matches LinkCall::Reconnect { every_channel, .. } && every_channel == (
        s.reconnect_wait >= 60_000_000_000)),
{
}

/// What a reconnect comes to: where it succeeds, the dongle's address and
/// channel are the new ones, the reconnects count one more, the alarm is
/// lifted, and the next heartbeat is the first; where it fails, the next try
/// waits as long as was said, and the one after that twice as long, but no
/// more than a minute.
pub proof fn what_a_reconnect_comes_to(
    s: CoreState,
    master: [u8; 6],
    channel: u8,
    words: Seq<char>,
    now: u128,
)
    requires
        s.valid(),
        s.snapshot.reconnects < u64::MAX,
        now + s.reconnect_wait <= u128::MAX,
    ensures
        ({
            let after = s.reconnected(master, channel);
            &&& after.channel == channel
            &&& after.snapshot.master_mac == master
            &&& after.snapshot.channel == channel
            &&& after.snapshot.reconnects == s.snapshot.reconnects + 1
            &&& after.failures_in_a_row == 0
            &&& after.alarm is None
            &&& after.reconnect_at is None
            &&& after.reconnect_wait == 2_000_000_000
            &&& !after.heartbeat_sent
            &&& after.last_heartbeat is None
            &&& after.tracker == s.tracker
            &&& after.wanted == s.wanted
        }),
        ({
            let after = s.still_lost(words, now);
            &&& after.reconnect_at == Some((now + s.reconnect_wait) as u128)
            &&& 2 * s.reconnect_wait <= 60_000_000_000 ==> after.reconnect_wait == 2
                * s.reconnect_wait
            &&& 2 * s.reconnect_wait > 60_000_000_000 ==> after.reconnect_wait == 60_000_000_000
            &&& after.failures_in_a_row == s.failures_in_a_row
            &&& after.alarm == s.alarm
            &&& after.channel == s.channel
            &&& after.tracker == s.tracker
            &&& after.wanted == s.wanted
            &&& after.snapshot.reconnects == s.snapshot.reconnects
            &&& after.snapshot.last_error is Some
        }),
{
}

/// A failure is said at once where it is not remembered; within a minute of
/// the last time it is only counted, and after that it is said with the count.
pub proof fn a_failure_is_said_then_counted(
    log: Seq<FailState>,
    message: Seq<char>,
    now: u128,
    i: int,
)
    requires
        forall|k: int| 0 <= k < log.len() && k != i ==> (#[trigger] log[k]).message != message,
    ensures
        (i < 0 || i >= log.len()) ==> {
            let (after, line) = log::failed(log, message, now);
            &&& line == Some(message)
            &&& after.len() == log.len() + 1
            &&& after.drop_last() == log
            &&& after.last().message == message
            &&& after.last().logged_at == now
            &&& after.last().held == 0
        },
        0 <= i < log.len() && log[i].message == message && log[i].held < u32::MAX ==> {
            let (after, line) = log::failed(log, message, now);
            &&& after.len() == log.len()
            &&& forall|k: int| 0 <= k < log.len() && k != i ==> #[trigger] after[k] == log[k]
            &&& after[i].message == message
            &&& now < log[i].logged_at + 60_000_000_000 ==> line is None && after[i].held
                == log[i].held + 1 && after[i].logged_at == log[i].logged_at
            &&& now >= log[i].logged_at + 60_000_000_000 ==> line == Some(
                message + " (repeated "@ + crate::text::decimal_of((log[i].held + 1) as nat)
                    + " times)"@,
            ) && after[i].held == 0 && after[i].logged_at == now
        },
{
    log::the_entry_is_the_first(log, message);
    if i < 0 || i >= log.len() {
        if let Some(k) = log::entry_of(log, message) {
            assert(log[k].message != message);
        }
        assert(log::failed(log, message, now).0.drop_last() =~= log);
    } else if log[i].message == message {
        if let Some(k) = log::entry_of(log, message) {
            if k != i {
                assert(log[k].message != message);
            }
        } else {
            assert(log[i].message != message);
        }
    }
}

/// A failure that is not repeated for a minute is forgotten, with a last line
/// where it was held back meanwhile; a younger one stays.
pub proof fn a_failure_is_forgotten_after_a_minute(log: Seq<FailState>, now: u128, i: int)
    requires
        0 <= i < log.len(),
    ensures
        now < log[i].logged_at + 60_000_000_000 ==> log::still_held(log, now).contains(log[i]),
        now >= log[i].logged_at + 60_000_000_000 ==> !log::still_held(log, now).contains(log[i]),
        now >= log[i].logged_at + 60_000_000_000 && log[i].held > 0 ==> log::overdue(
            log,
            now,
        ).contains(
            log[i].message + " (repeated "@ + crate::text::decimal_of(log[i].held as nat)
                + " times)"@,
        ),
{
    let stays = |e: FailState| !log::is_time(now, e.logged_at, log::REPEAT_LOG_EVERY);
    let speaks = |e: FailState|
        log::is_time(now, e.logged_at, log::REPEAT_LOG_EVERY) && e.held > 0;
    lists::filtered(log, stays);
    lists::filtered(log, speaks);
    assert(log.contains(log[i]));
    if now >= log[i].logged_at + 60_000_000_000 && log[i].held > 0 {
        let said = log.filter(speaks);
        assert(said.contains(log[i]));
        let k = choose|k: int| 0 <= k < said.len() && said[k] == log[i];
        assert(log::overdue(log, now)[k] == log::repeated_of(log[i].message, log[i].held));
    }
}

/// Nothing is said of failures when the log is gone through but of those that
/// were held back for a minute.
pub proof fn only_old_failures_are_repeated(log: Seq<FailState>, now: u128, k: int)
    requires
        0 <= k < log::overdue(log, now).len(),
    ensures
        exists|i: int|
            0 <= i < log.len() && (#[trigger] log[i]).held > 0 && now >= log[i].logged_at
                + 60_000_000_000 && log::overdue(log, now)[k] == log[i].message + " (repeated "@
                + crate::text::decimal_of(log[i].held as nat) + " times)"@,
{
    let speaks = |e: FailState|
        log::is_time(now, e.logged_at, log::REPEAT_LOG_EVERY) && e.held > 0;
    lists::filtered(log, speaks);
    let said = log.filter(speaks);
    assert(said.contains(said[k]));
    let i = choose|i: int| 0 <= i < log.len() && log[i] == said[k];
    assert(log::overdue(log, now)[k] == log::repeated_of(log[i].message, log[i].held));
}

/// A change of a group's target is said at once where none was yet, or where
/// the last line on the group is ten seconds old; within the ten seconds it is
/// held, and counted.
pub proof fn a_change_is_said_or_held(
    log: Seq<ChangeState>,
    mac: [u8; 6],
    line: Seq<char>,
    now: u128,
)
    requires
        log::entry_for(log, mac) matches Some(entry) ==> entry.held < u32::MAX,
    ensures
        ({
            let (after, said) = log::changed(log, mac, line, now);
            let entry = log::entry_for(after, mac);
            match log::entry_for(log, mac) {
                None => said == Some(line) && (entry matches Some(e) && e.logged_at == now
                    && e.held == 0 && e.pending is None),
                Some(e0) => {
                    &&& now < e0.logged_at + 10_000_000_000 ==> said is None && (entry matches Some(
                        e,
                    ) && e.logged_at == e0.logged_at && e.held == e0.held + 1 && e.pending == Some(
                        line,
                    ))
                    &&& now >= e0.logged_at + 10_000_000_000 ==> said == Some(
                        line + log::suffix_of(e0.held),
                    ) && (entry matches Some(e) && e.logged_at == now && e.held == 0 && e.pending
                        is None)
                },
            }
        }),
{
    let (after, said) = log::changed(log, mac, line, now);
    let macs = log::macs_of(log);
    let later = log::macs_of(after);
    crate::address::the_place_is_the_first(macs, mac);
    match crate::address::place_of(macs, mac) {
        None => {
            assert(later =~= macs.push(mac));
            crate::address::place_found(later, mac, macs.len() as int);
            assert(line + log::suffix_of(0) =~= line);
        },
        Some(_) => {
            assert(later =~= macs);
        },
    }
}

/// How many changes were left out is said with the line: nothing for none, and
/// else the number.
pub proof fn what_was_left_out_is_counted(held: u32)
    ensures
        held == 0 ==> log::suffix_of(held).len() == 0,
        held == 1 ==> log::suffix_of(held) == " (1 earlier change not logged)"@,
        held >= 2 ==> log::suffix_of(held) == " ("@ + crate::text::decimal_of(held as nat)
            + " earlier changes not logged)"@,
{
}

} // verus!
