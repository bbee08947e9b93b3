//! What a run of the loop says of a group's target.

use crate::address;
use crate::discovery::ReplyState;
use crate::engine::{asked, Request};
use crate::groups;
use crate::groups::Group;
use crate::heartbeat::Clock;
use crate::history;
use crate::history::{before, ran, turned, Turn};
use crate::lists;
use crate::log;
use crate::log::{entry_for, ChangeState, FailState, Line};
use crate::model;
use crate::model::{CoreState, LinkCall};
use crate::passes;
use crate::passes::{driving_point, duties_for};
use crate::speed;
use crate::text;
use crate::wanted;
use vstd::prelude::*;

verus! {

/// Whether a line is about a group's target.
pub open spec fn tells_target(line: Seq<char>, mac: [u8; 6]) -> bool {
    (text::mac_of(mac) + " target "@).is_prefix_of(line)
}

/// The lines about a group's target.
pub open spec fn about(lines: Seq<Seq<char>>, mac: [u8; 6]) -> Seq<Seq<char>> {
    lines.filter(|line: Seq<char>| tells_target(line, mac))
}

/// The target change that driving a group makes, as a line; none, where
/// nothing is asked of it or its target stays.
pub open spec fn change_of(s: CoreState, mac: [u8; 6]) -> Line {
    match s.percent_for(mac) {
        None => None,
        Some(percent) => match s.tracker.group(mac) {
            None => None,
            Some(group) => if group.target == Some(duties_for(group, percent)) {
                None
            } else {
                Some(
                    model::target_line(
                        mac,
                        percent,
                        duties_for(group, percent)@.take(model::said_count(group.device.fan_count)),
                    ),
                )
            },
        },
    }
}

/// The target change that a turn makes on a group, as a line.
pub open spec fn change_in(s: CoreState, turn: Turn, mac: [u8; 6]) -> Line {
    match turn {
        Turn::Pass { master, now, clock, trace, at } => match driving_point(
            s,
            master,
            now,
            clock,
            trace,
            at,
        ) {
            Some((judged, _)) => if judged.driven().contains(mac) {
                change_of(judged, mac)
            } else {
                None
            },
            None => None,
        },
        _ => None,
    }
}

/// The lines that a turn says about a group's target.
pub open spec fn lines_in(s: CoreState, turn: Turn, mac: [u8; 6]) -> Seq<Seq<char>> {
    match turn {
        Turn::Take => Seq::empty(),
        _ => match turned(s, turn) {
            Some(after) => about(after.events.skip(s.events.len() as int), mac),
            None => Seq::empty(),
        },
    }
}

/// Changes with one more, or none.
pub open spec fn with_change(changes: Seq<Seq<char>>, change: Line) -> Seq<Seq<char>> {
    match change {
        Some(line) => changes.push(line),
        None => changes,
    }
}

/// The target changes of a group since the last line about them.
pub open spec fn unsaid(s: CoreState, turns: Seq<Turn>, mac: [u8; 6]) -> Seq<Seq<char>>
    decreases turns.len(),
{
    if turns.len() == 0 {
        Seq::empty()
    } else {
        let front = turns.drop_last();
        let mid = ran(s, front)->0;
        if lines_in(mid, turns.last(), mac).len() > 0 {
            Seq::empty()
        } else {
            with_change(unsaid(s, front, mac), change_in(mid, turns.last(), mac))
        }
    }
}

/// When a group's target was last spoken of.
pub open spec fn last_told(s: CoreState, turns: Seq<Turn>, mac: [u8; 6]) -> Option<u128>
    decreases turns.len(),
{
    if turns.len() == 0 {
        None
    } else {
        let front = turns.drop_last();
        match turns.last() {
            Turn::Pass { now, .. } => if lines_in(ran(s, front)->0, turns.last(), mac).len() > 0 {
                Some(now)
            } else {
                last_told(s, front, mac)
            },
            _ => last_told(s, front, mac),
        }
    }
}

/// Whether lines are what is said at `now` of changes, the last line being of
/// `last`: where there are changes and the last line is ten seconds old, or
/// there is none, one line, which shows the newest change and counts the
/// others; else nothing.
pub open spec fn are_told_right(
    lines: Seq<Seq<char>>,
    changes: Seq<Seq<char>>,
    last: Option<u128>,
    now: u128,
) -> bool {
    if changes.len() > 0 && (last matches Some(at) ==> log::is_time(
        now,
        at,
        log::CHANGE_LOG_EVERY,
    )) {
        lines == seq![changes.last() + log::suffix_of((changes.len() - 1) as u32)]
    } else {
        lines.len() == 0
    }
}

/// Whether a line is apart from every line about a target, and stays so
/// whatever is added to it: where an address has its colon, or behind the
/// address, it has something else.
spec fn is_apart(line: Seq<char>) -> bool {
    ||| line.len() > 2 && line[2] != ':'
    ||| line.len() > 18 && line[17] != ' '
    ||| line.len() > 18 && line[18] != 't'
}

/// A line that is apart is about no target.
proof fn apart_tells_nothing(line: Seq<char>, mac: [u8; 6])
    requires
        is_apart(line),
    ensures
        !tells_target(line, mac),
{
    let start = text::mac_of(mac) + " target "@;
    reveal_strlit(" target ");
    text::an_address_has_its_colon(mac);
    assert(start[2] == ':');
    assert(start[17] == ' ');
    assert(start[18] == 't');
    if tells_target(line, mac) {
        assert(line[2] == line.subrange(0, start.len() as int)[2]);
        assert(line[17] == line.subrange(0, start.len() as int)[17]);
        assert(line[18] == line.subrange(0, start.len() as int)[18]);
    }
}

/// A line about one target is about no other.
proof fn one_target_at_a_time(line: Seq<char>, a: [u8; 6], b: [u8; 6])
    requires
        tells_target(line, a),
        tells_target(line, b),
    ensures
        a == b,
{
    text::addresses_are_told_apart(a, b);
    let of_a = text::mac_of(a) + " target "@;
    let of_b = text::mac_of(b) + " target "@;
    assert forall|i: int| 0 <= i < 17 implies text::mac_of(a)[i] == text::mac_of(b)[i] by {
        assert(of_a[i] == line.subrange(0, of_a.len() as int)[i]);
        assert(of_b[i] == line.subrange(0, of_b.len() as int)[i]);
    }
    assert(text::mac_of(a) =~= text::mac_of(b));
    assert(text::mac_of(b).subrange(0, 17) =~= text::mac_of(b));
}

/// A target line is about its target, whatever is added to it.
proof fn a_target_line_tells(mac: [u8; 6], percent: u8, duties: Seq<u8>, rest: Seq<char>)
    ensures
        tells_target(model::target_line(mac, percent, duties) + rest, mac),
        tells_target(model::target_line(mac, percent, duties), mac),
{
    let start = text::mac_of(mac) + " target "@;
    let line = model::target_line(mac, percent, duties);
    assert(line.subrange(0, start.len() as int) =~= start);
    assert((line + rest).subrange(0, start.len() as int) =~= start);
}

/// What is added to a line about a target leaves it one.
proof fn telling_goes_on(line: Seq<char>, rest: Seq<char>, mac: [u8; 6])
    requires
        tells_target(line, mac),
    ensures
        tells_target(line + rest, mac),
{
    let start = text::mac_of(mac) + " target "@;
    assert((line + rest).subrange(0, start.len() as int) =~= line.subrange(0, start.len() as int));
}

/// The lines about a target in one list behind another.
proof fn about_both(a: Seq<Seq<char>>, b: Seq<Seq<char>>, mac: [u8; 6])
    ensures
        about(a + b, mac) == about(a, mac) + about(b, mac),
{
    Seq::filter_distributes_over_add(a, b, |line: Seq<char>| tells_target(line, mac));
}

/// The lines about a target in a list of one.
proof fn about_one(line: Seq<char>, mac: [u8; 6])
    ensures
        about(seq![line], mac) == if tells_target(line, mac) {
            seq![line]
        } else {
            Seq::empty()
        },
{
    reveal(Seq::filter);
    let one = seq![line];
    assert(one.drop_last() =~= Seq::empty());
    assert(one.last() == line);
    let none = one.drop_last().filter(|line: Seq<char>| tells_target(line, mac));
    assert(none =~= Seq::empty());
    assert(none.push(line) =~= one);
}

/// There are no lines about a target where no line is.
proof fn about_none(lines: Seq<Seq<char>>, mac: [u8; 6])
    requires
        forall|i: int| 0 <= i < lines.len() ==> !tells_target(#[trigger] lines[i], mac),
    ensures
        about(lines, mac) == Seq::<Seq<char>>::empty(),
{
    let pred = |line: Seq<char>| tells_target(line, mac);
    lists::filtered(lines, pred);
    let found = about(lines, mac);
    if found.len() > 0 {
        assert(found.contains(found[0]));
        let i = choose|i: int| 0 <= i < lines.len() && lines[i] == found[0];
        assert(!tells_target(lines[i], mac));
    }
    assert(found =~= Seq::empty());
}

/// Whether every failure in a log is apart from the lines about targets.
spec fn are_apart(fail_log: Seq<FailState>) -> bool {
    forall|i: int| 0 <= i < fail_log.len() ==> is_apart((#[trigger] fail_log[i]).message)
}

/// Whether a log of changes has one entry for a group, and holds back no line
/// but one about its target.
spec fn is_orderly(change_log: Seq<ChangeState>) -> bool {
    &&& log::macs_of(change_log).no_duplicates()
    &&& forall|i: int|
        0 <= i < change_log.len() ==> ((#[trigger] change_log[i]).pending matches Some(line)
            ==> tells_target(line, change_log[i].mac))
}

/// Whether nothing was said about a group's target, and the log of changes is
/// as it was.
spec fn is_silent(s: CoreState, after: CoreState, mac: [u8; 6]) -> bool {
    &&& s.events.is_prefix_of(after.events)
    &&& about(after.events, mac) == about(s.events, mac)
    &&& after.change_log == s.change_log
    &&& are_apart(s.fail_log) ==> are_apart(after.fail_log)
}

/// Silence goes on.
proof fn silence_goes_on(s: CoreState, mid: CoreState, after: CoreState, mac: [u8; 6])
    requires
        is_silent(s, mid, mac),
        is_silent(mid, after, mac),
    ensures
        is_silent(s, after, mac),
{
    prefix_goes_on(s.events, mid.events, after.events);
}

/// What begins with a list that begins with another begins with that one.
proof fn prefix_goes_on(a: Seq<Seq<char>>, b: Seq<Seq<char>>, c: Seq<Seq<char>>)
    requires
        a.is_prefix_of(b),
        b.is_prefix_of(c),
    ensures
        a.is_prefix_of(c),
{
    assert forall|i: int| 0 <= i < a.len() implies a[i] == c[i] by {
        assert(a[i] == b.subrange(0, a.len() as int)[i]);
        assert(b[i] == c.subrange(0, b.len() as int)[i]);
    }
    assert(a =~= c.subrange(0, a.len() as int));
}

/// Lines that are apart leave a state silent.
proof fn saying_apart(s: CoreState, lines: Seq<Seq<char>>, mac: [u8; 6])
    requires
        forall|i: int| 0 <= i < lines.len() ==> is_apart(#[trigger] lines[i]),
    ensures
        is_silent(s, s.said_all(lines), mac),
{
    assert forall|i: int| 0 <= i < lines.len() implies !tells_target(#[trigger] lines[i], mac) by {
        apart_tells_nothing(lines[i], mac);
    }
    about_both(s.events, lines, mac);
    about_none(lines, mac);
    assert(about(s.events, mac) + about(lines, mac) =~= about(s.events, mac));
    assert((s.events + lines).subrange(0, s.events.len() as int) =~= s.events);
}

/// One line is a list of one.
proof fn one_line(s: CoreState, line: Seq<char>)
    ensures
        s.said(line) == s.said_all(seq![line]),
{
    assert(s.events.push(line) =~= s.events + seq![line]);
}

/// A line that is apart leaves a state silent.
proof fn one_apart(s: CoreState, line: Seq<char>, mac: [u8; 6])
    requires
        is_apart(line),
    ensures
        is_silent(s, s.said(line), mac),
{
    one_line(s, line);
    saying_apart(s, seq![line], mac);
}

/// A failure that is apart leaves a state silent.
proof fn failing_apart(s: CoreState, message: Seq<char>, now: u128, mac: [u8; 6])
    requires
        is_apart(message),
        are_apart(s.fail_log),
    ensures
        is_silent(s, s.failed(message, now), mac),
{
    log::the_entry_is_the_first(s.fail_log, message);
    let (fail_log, line) = log::failed(s.fail_log, message, now);
    let noted = CoreState {
        fail_log,
        snapshot: model::SnapshotState { last_error: Some(message), ..s.snapshot },
        ..s
    };
    assert(are_apart(fail_log)) by {
        assert forall|i: int| 0 <= i < fail_log.len() implies is_apart(
            (#[trigger] fail_log[i]).message,
        ) by {
            if i < s.fail_log.len() {
                assert(is_apart(s.fail_log[i].message));
            }
        }
    }
    assert(s.events.subrange(0, s.events.len() as int) =~= s.events);
    assert(is_silent(s, noted, mac));
    if let Some(text) = line {
        assert(is_apart(text));
        one_apart(noted, text, mac);
        silence_goes_on(s, noted, noted.said(text), mac);
    }
}

/// A state with the same lines and logs is silent.
proof fn unchanged_is_silent(s: CoreState, after: CoreState, mac: [u8; 6])
    requires
        after.events == s.events,
        after.change_log == s.change_log,
        after.fail_log == s.fail_log,
    ensures
        is_silent(s, after, mac),
{
    assert(s.events.subrange(0, s.events.len() as int) =~= s.events);
}

/// The heartbeat is silent.
proof fn the_heartbeat_is_silent(
    s: CoreState,
    master: [u8; 6],
    now: u128,
    clock: Clock,
    t: Seq<LinkCall>,
    at: int,
    mac: [u8; 6],
)
    requires
        are_apart(s.fail_log),
    ensures
        s.heartbeat_run(master, now, clock, t, at) matches Some((after, _)) ==> is_silent(
            s,
            after,
            mac,
        ),
{
    reveal_strlit("heartbeat: ");
    if let Some((after, _)) = s.heartbeat_run(master, now, clock, t, at) {
        if s.is_beating(now) {
            unchanged_is_silent(s, after, mac);
        } else if let LinkCall::Send { result: Err(error), .. } = t[at] {
            let (words, _) = model::error_run(t, at + 1, error)->0;
            failing_apart(s, "heartbeat: "@ + words, now, mac);
        } else {
            unchanged_is_silent(s, after, mac);
        }
    }
}

/// Unreadable records are silent.
proof fn skipping_is_silent(s: CoreState, skipped: u8, now: u128, mac: [u8; 6])
    ensures
        is_silent(s, s.skipped(skipped, now), mac),
{
    if skipped == 0 {
        unchanged_is_silent(s, s, mac);
    } else {
        let total = (s.snapshot.skipped_records + skipped) as u64;
        let line = model::skipped_line(skipped, total);
        let counted = CoreState {
            snapshot: model::SnapshotState { skipped_records: total, ..s.snapshot },
            ..s
        };
        unchanged_is_silent(s, counted, mac);
        let noted = CoreState { last_skip_log: Some(now), ..counted };
        unchanged_is_silent(s, noted, mac);
        reveal_strlit(" unreadable record(s) in a reply, ");
        text::a_small_number_is_short(skipped as nat);
        assert(is_apart(line));
        one_apart(noted, line, mac);
        silence_goes_on(s, noted, noted.said(line), mac);
    }
}

/// The line for a group that came online is apart.
proof fn an_arrival_is_apart(group: Group, master: [u8; 6])
    ensures
        is_apart(model::online_line(group, master)),
{
    reveal_strlit(" online: ");
    text::an_address_has_its_colon(group.device.mac);
}

/// The line for a group that went quiet is apart.
proof fn a_quiet_line_is_apart(mac: [u8; 6])
    ensures
        is_apart(model::quiet_line(mac)),
{
    reveal_strlit(" unheard for ");
    text::an_address_has_its_colon(mac);
}

/// The line for a group that was forgotten is apart.
proof fn a_farewell_is_apart(group: Group, master: [u8; 6], wanted: Map<u64, u8>)
    ensures
        is_apart(model::forgotten_line(group, master, wanted)),
{
    reveal_strlit(" gone; it was bound to another dongle");
    reveal_strlit(" forgotten after ");
    text::an_address_has_its_colon(group.device.mac);
}

/// The poll is silent.
proof fn the_poll_is_silent(s: CoreState, now: u128, t: Seq<LinkCall>, at: int, mac: [u8; 6])
    requires
        are_apart(s.fail_log),
    ensures
        s.poll_run(now, t, at) matches Some((after, _)) ==> is_silent(s, after, mac),
{
    if let Some((after, _)) = s.poll_run(now, t, at) {
        if let LinkCall::Poll { result: Err(error) } = t[at] {
            reveal_strlit("poll: ");
            let (words, _) = model::error_run(t, at + 1, error)->0;
            unchanged_is_silent(s, s.poll_missed(), mac);
            failing_apart(s.poll_missed(), "poll: "@ + words, now, mac);
            silence_goes_on(s, s.poll_missed(), after, mac);
        } else if let LinkCall::Poll { result: Ok(reply) } = t[at] {
            a_reply_is_silent(s, reply, now, mac);
        }
    }
}

/// A reply is silent.
proof fn a_reply_is_silent(s: CoreState, reply: ReplyState, now: u128, mac: [u8; 6])
    ensures
        is_silent(s, s.polled(reply, now), mac),
{
    let counted = CoreState {
        snapshot: model::SnapshotState { polls: (s.snapshot.polls + 1) as u64, ..s.snapshot },
        failures_in_a_row: 0,
        reconnect_at: None,
        reconnect_wait: model::RECONNECT_FIRST_WAIT,
        ..s
    };
    let noted = counted.skipped(reply.skipped, now);
    let observed = CoreState { tracker: noted.tracker.observed(reply.devices, now), ..noted };
    unchanged_is_silent(s, counted, mac);
    skipping_is_silent(counted, reply.skipped, now, mac);
    silence_goes_on(s, counted, noted, mac);
    unchanged_is_silent(noted, observed, mac);
    silence_goes_on(s, noted, observed, mac);
    let lines = observed.arrivals(s.tracker.order);
    let new = observed.tracker.listed().filter(
        |g: Group| !s.tracker.order.contains(g.device.mac),
    );
    assert forall|i: int| 0 <= i < lines.len() implies is_apart(#[trigger] lines[i]) by {
        an_arrival_is_apart(new[i], observed.tracker.master);
    }
    saying_apart(observed, lines, mac);
    silence_goes_on(s, observed, observed.said_all(lines), mac);
}

/// The sweep is silent.
proof fn the_sweep_is_silent(s: CoreState, now: u128, mac: [u8; 6])
    ensures
        is_silent(s, s.swept(now), mac),
{
    let forgotten = s.tracker.forgotten(now);
    let tracker = s.tracker.swept(now);
    let quiet_macs = s.last_online.filter(
        |mac: [u8; 6]| CoreState::is_quiet(tracker, mac, forgotten),
    );
    let quiet = quiet_macs.map_values(|mac: [u8; 6]| model::quiet_line(mac));
    let gone_groups = s.tracker.groups.filter(
        |g: Group| !groups::is_kept(g, s.tracker.master, now),
    );
    let gone = gone_groups.map_values(
        |g: Group| model::forgotten_line(g, s.tracker.master, s.wanted),
    );
    let moved = CoreState { tracker, last_online: tracker.order, ..s };
    unchanged_is_silent(s, moved, mac);
    assert forall|i: int| 0 <= i < quiet.len() implies is_apart(#[trigger] quiet[i]) by {
        a_quiet_line_is_apart(quiet_macs[i]);
    }
    saying_apart(moved, quiet, mac);
    silence_goes_on(s, moved, moved.said_all(quiet), mac);
    assert forall|i: int| 0 <= i < gone.len() implies is_apart(#[trigger] gone[i]) by {
        a_farewell_is_apart(gone_groups[i], s.tracker.master, s.wanted);
    }
    saying_apart(moved.said_all(quiet), gone, mac);
    silence_goes_on(s, moved.said_all(quiet), moved.said_all(quiet).said_all(gone), mac);
}

/// The alarm is silent.
proof fn the_alarm_is_silent(s: CoreState, mac: [u8; 6])
    ensures
        is_silent(s, s.judged(), mac),
{
    reveal_strlit("failsafe: ");
    reveal_strlit("failsafe cleared; targets resume");
    let alarm = s.due_alarm();
    if alarm == s.alarm {
        unchanged_is_silent(s, s, mac);
    } else {
        let judged = CoreState { alarm, ..s };
        unchanged_is_silent(s, judged, mac);
        let line = s.judged().events.last();
        assert(is_apart(line));
        one_apart(judged, line, mac);
        silence_goes_on(s, judged, judged.said(line), mac);
    }
}

/// The reconnect attempt is silent.
proof fn recovering_is_silent(s: CoreState, now: u128, t: Seq<LinkCall>, at: int, mac: [u8; 6])
    requires
        are_apart(s.fail_log),
    ensures
        s.recover_run(now, t, at) matches Some((after, _)) ==> is_silent(s, after, mac),
{
    if let Some((after, _)) = s.recover_run(now, t, at) {
        if !s.is_recovering(now) {
            unchanged_is_silent(s, s, mac);
        } else if let LinkCall::Reconnect { result: Err(error), .. } = t[at] {
            let (words, _) = model::error_run(t, at + 1, error)->0;
            reveal_strlit("reconnect on every channel");
            reveal_strlit("reconnect");
            let scope = if s.tries_every_channel() {
                "reconnect on every channel"@
            } else {
                "reconnect"@
            };
            let message = scope + ": "@ + words + "; next try in "@ + text::decimal_of(
                (s.reconnect_wait / crate::time::SECOND) as nat,
            ) + " s"@;
            assert(is_apart(message));
            failing_apart(s, message, now, mac);
            let failed = s.failed(message, now);
            unchanged_is_silent(failed, after, mac);
            silence_goes_on(s, failed, after, mac);
        } else if let LinkCall::Reconnect { result: Ok(()), master, channel, .. } = t[at] {
            reveal_strlit("reconnected: master ");
            let line = "reconnected: master "@ + text::mac_of(master) + " channel "@
                + text::decimal_of(channel as nat);
            assert(is_apart(line));
            let back = CoreState {
                channel,
                snapshot: model::SnapshotState {
                    master_mac: master,
                    channel,
                    reconnects: (s.snapshot.reconnects + 1) as u64,
                    ..s.snapshot
                },
                failures_in_a_row: 0,
                reconnect_at: None,
                reconnect_wait: model::RECONNECT_FIRST_WAIT,
                heartbeat_sent: false,
                last_heartbeat: None,
                ..s
            };
            unchanged_is_silent(s, back, mac);
            one_apart(back, line, mac);
            silence_goes_on(s, back, back.said(line), mac);
            the_alarm_is_silent(back.said(line), mac);
            silence_goes_on(s, back.said(line), after, mac);
        }
    }
}

/// Saying the failures held back is silent.
proof fn repeating_failures_is_silent(s: CoreState, now: u128, mac: [u8; 6])
    requires
        are_apart(s.fail_log),
    ensures
        is_silent(s, s.failures_flushed(now), mac),
{
    let stays = |e: FailState| !log::is_time(now, e.logged_at, log::REPEAT_LOG_EVERY);
    let speaks = |e: FailState|
        log::is_time(now, e.logged_at, log::REPEAT_LOG_EVERY) && e.held > 0;
    let kept = s.fail_log.filter(stays);
    let said = s.fail_log.filter(speaks);
    lists::filtered(s.fail_log, stays);
    lists::filtered(s.fail_log, speaks);
    assert forall|i: int| 0 <= i < kept.len() implies is_apart((#[trigger] kept[i]).message) by {
        assert(kept.contains(kept[i]));
        let k = choose|k: int| 0 <= k < s.fail_log.len() && s.fail_log[k] == kept[i];
        assert(is_apart(s.fail_log[k].message));
    }
    let lines = log::overdue(s.fail_log, now);
    assert forall|i: int| 0 <= i < lines.len() implies is_apart(#[trigger] lines[i]) by {
        assert(said.contains(said[i]));
        let k = choose|k: int| 0 <= k < s.fail_log.len() && s.fail_log[k] == said[i];
        assert(is_apart(s.fail_log[k].message));
        assert(lines[i] == log::repeated_of(said[i].message, said[i].held));
    }
    let left = CoreState { fail_log: log::still_held(s.fail_log, now), ..s };
    assert(left.fail_log == kept);
    assert(s.events.subrange(0, s.events.len() as int) =~= s.events);
    assert(is_silent(s, left, mac));
    saying_apart(left, lines, mac);
    silence_goes_on(s, left, left.said_all(lines), mac);
}

/// A request is silent.
proof fn a_request_is_silent(s: CoreState, request: Request, mac: [u8; 6])
    ensures
        is_silent(s, asked(s, request), mac),
{
    match request {
        Request::Want(_, _) => {
            unchanged_is_silent(s, asked(s, request), mac);
        },
        Request::Release(other) => {
            reveal_strlit(" released; its fans keep their last duty");
            text::an_address_has_its_colon(other);
            let line = text::mac_of(other) + " released; its fans keep their last duty"@;
            assert(is_apart(line));
            let freed = CoreState {
                wanted: s.wanted.remove(wanted::key_of(other)),
                tracker: s.tracker.changed(other, |g: Group| groups::cleared(g)),
                ..s
            };
            unchanged_is_silent(s, freed, mac);
            one_apart(freed, line, mac);
            silence_goes_on(s, freed, freed.said(line), mac);
        },
    }
}

/// A group's entry after a change, or none, and what is said of it.
spec fn noted(e: Option<ChangeState>, mac: [u8; 6], change: Line, now: u128) -> (
    Option<ChangeState>,
    Seq<Seq<char>>,
) {
    match change {
        None => (e, Seq::empty()),
        Some(line) => match e {
            None => (
                Some(ChangeState { mac, logged_at: now, held: 0, pending: None }),
                seq![line + log::suffix_of(0)],
            ),
            Some(e) => if log::is_time(now, e.logged_at, log::CHANGE_LOG_EVERY) {
                (
                    Some(ChangeState { logged_at: now, held: 0, pending: None, ..e }),
                    seq![line + log::suffix_of(e.held)],
                )
            } else {
                (
                    Some(ChangeState { held: (e.held + 1) as u32, pending: Some(line), ..e }),
                    Seq::empty(),
                )
            },
        },
    }
}

/// A group's entry after a flush, and what is said of it.
spec fn flushed(e: Option<ChangeState>, now: u128) -> (Option<ChangeState>, Seq<Seq<char>>) {
    match e {
        None => (None, Seq::empty()),
        Some(e) => (
            Some(log::flushed_entry(e, now)),
            if log::is_overdue(e, now) {
                seq![log::last_line(e)]
            } else {
                Seq::empty()
            },
        ),
    }
}

/// What a change on one group does to the log.
proof fn a_change_is_noted(
    change_log: Seq<ChangeState>,
    changed: [u8; 6],
    line: Seq<char>,
    now: u128,
    mac: [u8; 6],
)
    requires
        is_orderly(change_log),
        tells_target(line, changed),
    ensures
        ({
            let (after, said) = log::changed(change_log, changed, line, now);
            &&& is_orderly(after)
            &&& if changed == mac {
                &&& entry_for(after, mac) == noted(entry_for(change_log, mac), mac, Some(line), now).0
                &&& match said {
                    Some(text) => seq![text],
                    None => Seq::empty(),
                } == noted(entry_for(change_log, mac), mac, Some(line), now).1
            } else {
                entry_for(after, mac) == entry_for(change_log, mac)
            }
            &&& said matches Some(text) ==> tells_target(text, changed)
        }),
{
    let (after, said) = log::changed(change_log, changed, line, now);
    let macs = log::macs_of(change_log);
    let later = log::macs_of(after);
    address::the_place_is_the_first(macs, changed);
    if changed != mac {
        log::a_change_leaves_the_others(change_log, changed, line, now, mac);
    }
    telling_goes_on(line, log::suffix_of(0), changed);
    match address::place_of(macs, changed) {
        None => {
            assert(later =~= macs.push(changed));
            if changed == mac {
                address::place_found(later, mac, macs.len() as int);
            }
        },
        Some(i) => {
            telling_goes_on(line, log::suffix_of(change_log[i].held), changed);
            assert(later =~= macs);
        },
    }
    assert forall|i: int| 0 <= i < after.len() implies ((#[trigger] after[i]).pending matches Some(
        line,
    ) ==> tells_target(line, after[i].mac)) by {
        if i < change_log.len() {
            assert(change_log[i].mac == macs[i]);
            assert(change_log[i].pending matches Some(line) ==> tells_target(
                line,
                change_log[i].mac,
            ));
        }
    }
}

/// What a flush says of one group.
proof fn a_flush_says(change_log: Seq<ChangeState>, now: u128, mac: [u8; 6])
    requires
        is_orderly(change_log),
    ensures
        about(log::last_lines(change_log, now), mac) == flushed(entry_for(change_log, mac), now).1,
    decreases change_log.len(),
{
    let lines = log::last_lines(change_log, now);
    let overdue = |e: ChangeState| log::is_overdue(e, now);
    let line_of = |e: ChangeState| log::last_line(e);
    let macs = log::macs_of(change_log);
    address::the_place_is_the_first(macs, mac);
    reveal(Seq::filter);
    if change_log.len() == 0 {
        assert(lines =~= Seq::empty());
        about_none(lines, mac);
    } else {
        let front = change_log.drop_last();
        let last = change_log.last();
        let front_macs = log::macs_of(front);
        assert(front_macs =~= macs.drop_last());
        assert(is_orderly(front)) by {
            assert forall|i: int| 0 <= i < front.len() implies ((
            #[trigger] front[i]).pending matches Some(line) ==> tells_target(line, front[i].mac)) by {
                assert(front[i] == change_log[i]);
            }
        }
        a_flush_says(front, now, mac);
        address::the_place_is_the_first(front_macs, mac);
        let before = log::last_lines(front, now);
        let added = if log::is_overdue(last, now) {
            seq![log::last_line(last)]
        } else {
            Seq::empty()
        };
        assert(lines =~= before + added);
        about_both(before, added, mac);
        if log::is_overdue(last, now) {
            about_one(log::last_line(last), mac);
            assert(change_log[change_log.len() - 1] == last);
            telling_goes_on(
                last.pending->0,
                log::suffix_of(
                    if last.held == 0 {
                        0
                    } else {
                        (last.held - 1) as u32
                    },
                ),
                last.mac,
            );
            if last.mac != mac && tells_target(log::last_line(last), mac) {
                one_target_at_a_time(log::last_line(last), last.mac, mac);
            }
        } else {
            about_none(added, mac);
        }
        if last.mac == mac {
            assert(!front_macs.contains(mac)) by {
                if front_macs.contains(mac) {
                    let j = choose|j: int| 0 <= j < front_macs.len() && front_macs[j] == mac;
                    assert(macs[j] == macs[macs.len() - 1]);
                }
            }
            assert forall|j: int| 0 <= j < macs.len() - 1 implies macs[j] != mac by {
                assert(front_macs[j] == macs[j]);
                assert(front_macs.contains(front_macs[j]));
            }
            address::place_found(macs, mac, macs.len() - 1);
            assert(about(lines, mac) =~= flushed(entry_for(change_log, mac), now).1);
        } else {
            if let Some(k) = address::place_of(front_macs, mac) {
                assert forall|j: int| 0 <= j < k implies macs[j] != mac by {
                    assert(front_macs[j] == macs[j]);
                }
                address::place_found(macs, mac, k);
                assert(entry_for(change_log, mac) == entry_for(front, mac));
            } else {
                assert(!macs.contains(mac)) by {
                    if macs.contains(mac) {
                        let j = choose|j: int| 0 <= j < macs.len() && macs[j] == mac;
                        assert(front_macs[j] == mac);
                    }
                }
            }
            assert(about(lines, mac) =~= flushed(entry_for(change_log, mac), now).1);
        }
    }
}

/// What a flush does to the log.
proof fn a_flush_keeps(change_log: Seq<ChangeState>, now: u128, mac: [u8; 6])
    requires
        is_orderly(change_log),
    ensures
        is_orderly(log::flushed(change_log, now)),
        entry_for(log::flushed(change_log, now), mac) == flushed(entry_for(change_log, mac), now).0,
{
    let after = log::flushed(change_log, now);
    assert(log::macs_of(after) =~= log::macs_of(change_log));
    address::the_place_is_the_first(log::macs_of(change_log), mac);
    assert forall|i: int| 0 <= i < after.len() implies ((#[trigger] after[i]).pending matches Some(
        line,
    ) ==> tells_target(line, after[i].mac)) by {
        assert(change_log[i].pending matches Some(line) ==> tells_target(line, change_log[i].mac));
    }
}

/// Whether a change on a group, or none, was noted and said as it should.
spec fn is_told(s: CoreState, after: CoreState, mac: [u8; 6], change: Line, now: u128) -> bool {
    let (e, lines) = noted(entry_for(s.change_log, mac), mac, change, now);
    &&& s.events.is_prefix_of(after.events)
    &&& about(after.events, mac) == about(s.events, mac) + lines
    &&& entry_for(after.change_log, mac) == e
    &&& is_orderly(after.change_log)
    &&& are_apart(after.fail_log)
}

/// What is silent tells of no change.
proof fn silence_tells_nothing(s: CoreState, after: CoreState, mac: [u8; 6], now: u128)
    requires
        is_orderly(s.change_log),
        are_apart(s.fail_log),
        is_silent(s, after, mac),
    ensures
        is_told(s, after, mac, None, now),
{
    assert(about(s.events, mac) + Seq::empty() =~= about(s.events, mac));
}

/// A change told before or after none is told.
proof fn telling_adds_up(
    s: CoreState,
    mid: CoreState,
    after: CoreState,
    mac: [u8; 6],
    first: Line,
    second: Line,
    now: u128,
)
    requires
        is_told(s, mid, mac, first, now),
        is_told(mid, after, mac, second, now),
        first is None || second is None,
    ensures
        is_told(
            s,
            after,
            mac,
            if first is None {
                second
            } else {
                first
            },
            now,
        ),
{
    prefix_goes_on(s.events, mid.events, after.events);
    let of_first = noted(entry_for(s.change_log, mac), mac, first, now).1;
    let of_second = noted(entry_for(mid.change_log, mac), mac, second, now).1;
    assert(about(s.events, mac) + of_first + of_second =~= about(s.events, mac) + (of_first
        + of_second));
    assert(of_first + Seq::empty() =~= of_first);
    assert(Seq::<Seq<char>>::empty() + of_second =~= of_second);
}

/// What setting one group's target says of another, or of itself.
proof fn aiming_tells(
    s: CoreState,
    aimed: [u8; 6],
    group: Group,
    percent: u8,
    now: u128,
    mac: [u8; 6],
)
    requires
        is_orderly(s.change_log),
        are_apart(s.fail_log),
        s.percent_for(aimed) == Some(percent),
        s.tracker.group(aimed) == Some(group),
    ensures
        is_told(
            s,
            s.aimed(aimed, group, percent, now),
            mac,
            if aimed == mac {
                change_of(s, mac)
            } else {
                None
            },
            now,
        ),
{
    let after = s.aimed(aimed, group, percent, now);
    let wanted = model::spread(percent, group.device.fan_count);
    let target = duties_for(group, percent);
    let set = CoreState {
        tracker: s.tracker.changed(
            aimed,
            |g: Group| groups::aimed(g, speed::prepared(g.device, wanted)),
        ),
        ..s
    };
    if group.target == Some(target) {
        unchanged_is_silent(s, after, mac);
        silence_tells_nothing(s, after, mac, now);
    } else {
        let duties = target@.take(model::said_count(group.device.fan_count));
        let line = model::target_line(aimed, percent, duties);
        a_target_line_tells(aimed, percent, duties, Seq::empty());
        a_change_is_noted(s.change_log, aimed, line, now, mac);
        let (change_log, said) = log::changed(s.change_log, aimed, line, now);
        let logged = CoreState { change_log, ..set };
        assert(after == logged.said_if(said));
        match said {
            Some(text) => {
                one_line(logged, text);
                about_both(s.events, seq![text], mac);
                about_one(text, mac);
                if aimed != mac && tells_target(text, mac) {
                    one_target_at_a_time(text, aimed, mac);
                }
                assert((s.events + seq![text]).subrange(0, s.events.len() as int) =~= s.events);
            },
            None => {
                assert(s.events.subrange(0, s.events.len() as int) =~= s.events);
            },
        }
        assert(about(s.events, mac) + Seq::empty() =~= about(s.events, mac));
    }
}

/// What driving one group says of another, or of itself.
proof fn driving_one_tells(
    s: CoreState,
    driven: [u8; 6],
    master: [u8; 6],
    now: u128,
    t: Seq<LinkCall>,
    at: int,
    mac: [u8; 6],
)
    requires
        is_orderly(s.change_log),
        are_apart(s.fail_log),
    ensures
        s.drive_one_run(driven, master, now, t, at) matches Some((after, _)) ==> is_told(
            s,
            after,
            mac,
            if driven == mac {
                change_of(s, mac)
            } else {
                None
            },
            now,
        ),
{
    let change = if driven == mac {
        change_of(s, mac)
    } else {
        None
    };
    if let Some((after, _)) = s.drive_one_run(driven, master, now, t, at) {
        if s.percent_for(driven) is None || s.tracker.group(driven) is None {
            unchanged_is_silent(s, after, mac);
            silence_tells_nothing(s, after, mac, now);
        } else {
            let group = s.tracker.group(driven)->0;
            let percent = s.percent_for(driven)->0;
            let aimed = s.aimed(driven, group, percent, now);
            aiming_tells(s, driven, group, percent, now, mac);
            sending_is_silent(aimed, driven, master, now, t, at, mac);
            silence_tells_nothing(aimed, after, mac, now);
            telling_adds_up(s, aimed, after, mac, change, None, now);
        }
    }
}

/// Sending a target is silent.
proof fn sending_is_silent(
    s: CoreState,
    driven: [u8; 6],
    master: [u8; 6],
    now: u128,
    t: Seq<LinkCall>,
    at: int,
    mac: [u8; 6],
)
    requires
        are_apart(s.fail_log),
    ensures
        s.send_run(driven, master, now, t, at) matches Some((after, _)) ==> is_silent(
            s,
            after,
            mac,
        ),
{
    if let Some((after, _)) = s.send_run(driven, master, now, t, at) {
        if s.tracker.group(driven) is None || !s.tracker.group(driven)->0.is_due(now) {
            unchanged_is_silent(s, after, mac);
        } else if let LinkCall::Send { result: Err(error), .. } = t[at] {
            let (words, _) = model::error_run(t, at + 1, error)->0;
            reveal_strlit(": ");
            text::an_address_has_its_colon(driven);
            let message = text::mac_of(driven) + ": "@ + words;
            assert(message[17] == ':');
            assert(is_apart(message));
            failing_apart(s, message, now, mac);
        } else {
            unchanged_is_silent(s, after, mac);
        }
    }
}

/// What driving groups says of one: its change, where it is among them.
proof fn driving_tells(
    s: CoreState,
    macs: Seq<[u8; 6]>,
    master: [u8; 6],
    now: u128,
    t: Seq<LinkCall>,
    at: int,
    mac: [u8; 6],
)
    requires
        is_orderly(s.change_log),
        are_apart(s.fail_log),
        macs.no_duplicates(),
    ensures
        s.drive_run(macs, master, now, t, at) matches Some((after, _)) ==> is_told(
            s,
            after,
            mac,
            if macs.contains(mac) {
                change_of(s, mac)
            } else {
                None
            },
            now,
        ),
    decreases macs.len(),
{
    if macs.len() == 0 {
        unchanged_is_silent(s, s, mac);
        silence_tells_nothing(s, s, mac, now);
    } else {
        let front = macs.drop_last();
        let last = macs[macs.len() - 1];
        driving_tells(s, front, master, now, t, at, mac);
        s.drive_keeps(front, master, now, t, at);
        assert(macs.contains(mac) == (front.contains(mac) || last == mac)) by {
            if macs.contains(mac) && last != mac {
                let i = choose|i: int| 0 <= i < macs.len() && macs[i] == mac;
                assert(front[i] == mac);
            }
            if front.contains(mac) {
                let i = choose|i: int| 0 <= i < front.len() && front[i] == mac;
                assert(macs[i] == mac);
            }
        }
        if let Some((mid, end)) = s.drive_run(front, master, now, t, at) {
            driving_one_tells(mid, last, master, now, t, end, mac);
            if let Some((after, _)) = mid.drive_one_run(last, master, now, t, end) {
                if last == mac {
                    assert(!front.contains(mac)) by {
                        if front.contains(mac) {
                            let i = choose|i: int| 0 <= i < front.len() && front[i] == mac;
                            assert(macs[i] == macs[macs.len() - 1]);
                        }
                    }
                    passes::driving_leaves_the_others(s, front, mac, master, now, t, at);
                    assert(change_of(mid, mac) == change_of(s, mac));
                    telling_adds_up(s, mid, after, mac, None, change_of(s, mac), now);
                } else {
                    let change = if front.contains(mac) {
                        change_of(s, mac)
                    } else {
                        None
                    };
                    telling_adds_up(s, mid, after, mac, change, None, now);
                }
            }
        }
    }
}

/// What a pass does to a group's entry, and what it says of it.
spec fn passed(e: Option<ChangeState>, mac: [u8; 6], change: Line, now: u128) -> (
    Option<ChangeState>,
    Seq<Seq<char>>,
) {
    let (first, lines) = noted(e, mac, change, now);
    let (last, more) = flushed(first, now);
    (last, lines + more)
}

/// Saying the changes held back says what is due of a group.
proof fn flushing_tells(s: CoreState, now: u128, mac: [u8; 6])
    requires
        is_orderly(s.change_log),
    ensures
        ({
            let after = s.changes_flushed(now);
            &&& s.events.is_prefix_of(after.events)
            &&& about(after.events, mac) == about(s.events, mac) + flushed(
                entry_for(s.change_log, mac),
                now,
            ).1
            &&& entry_for(after.change_log, mac) == flushed(entry_for(s.change_log, mac), now).0
            &&& is_orderly(after.change_log)
            &&& after.fail_log == s.fail_log
        }),
{
    let lines = log::last_lines(s.change_log, now);
    a_flush_says(s.change_log, now, mac);
    a_flush_keeps(s.change_log, now, mac);
    about_both(s.events, lines, mac);
    assert((s.events + lines).subrange(0, s.events.len() as int) =~= s.events);
}

/// What a pass says of a group's target.
proof fn a_pass_tells(
    s: CoreState,
    master: [u8; 6],
    now: u128,
    clock: Clock,
    trace: Seq<LinkCall>,
    at: int,
    after: CoreState,
    end: int,
    mac: [u8; 6],
)
    requires
        s.valid(),
        is_orderly(s.change_log),
        are_apart(s.fail_log),
        s.tick_run(master, now, clock, trace, at) == Some((after, end)),
    ensures
        ({
            let change = change_in(s, Turn::Pass { master, now, clock, trace, at }, mac);
            let (e, lines) = passed(entry_for(s.change_log, mac), mac, change, now);
            &&& s.events.is_prefix_of(after.events)
            &&& about(after.events, mac) == about(s.events, mac) + lines
            &&& entry_for(after.change_log, mac) == e
            &&& is_orderly(after.change_log)
            &&& are_apart(after.fail_log)
        }),
{
    passes::a_pass_comes_to_driving(s, master, now, clock, trace, at);
    let counted = s.counted();
    unchanged_is_silent(s, counted, mac);
    the_heartbeat_is_silent(counted, master, now, clock, trace, at, mac);
    if let Some((beaten, end1)) = counted.heartbeat_run(master, now, clock, trace, at) {
        silence_goes_on(s, counted, beaten, mac);
        the_poll_is_silent(beaten, now, trace, end1, mac);
        if let Some((polled, end2)) = beaten.poll_run(now, trace, end1) {
            silence_goes_on(s, beaten, polled, mac);
            the_sweep_is_silent(polled, now, mac);
            silence_goes_on(s, polled, polled.swept(now), mac);
            the_alarm_is_silent(polled.swept(now), mac);
            let judged = passes::at_driving(polled, now);
            silence_goes_on(s, polled.swept(now), judged, mac);
            silence_tells_nothing(s, judged, mac, now);
            passes::online_part(judged.tracker, now);
            driving_tells(judged, judged.driven(), master, now, trace, end2, mac);
            let change = change_in(s, Turn::Pass { master, now, clock, trace, at }, mac);
            if let Some((driven, end3)) = judged.drive_run(
                judged.driven(),
                master,
                now,
                trace,
                end2,
            ) {
                telling_adds_up(s, judged, driven, mac, None, change, now);
                recovering_is_silent(driven, now, trace, end3, mac);
                if let Some((recovered, _)) = driven.recover_run(now, trace, end3) {
                    silence_tells_nothing(driven, recovered, mac, now);
                    telling_adds_up(s, driven, recovered, mac, change, None, now);
                    let flushed_changes = recovered.changes_flushed(now);
                    flushing_tells(recovered, now, mac);
                    prefix_goes_on(s.events, recovered.events, flushed_changes.events);
                    repeating_failures_is_silent(flushed_changes, now, mac);
                    let flushed_all = flushed_changes.failures_flushed(now);
                    prefix_goes_on(s.events, flushed_changes.events, flushed_all.events);
                    assert(after == flushed_all.published(now));
                    let (first, lines) = noted(entry_for(s.change_log, mac), mac, change, now);
                    let more = flushed(first, now).1;
                    assert(about(s.events, mac) + lines + more =~= about(s.events, mac) + (lines
                        + more));
                }
            }
        }
    }
}

/// Whether the log of changes holds of a group what was not said of it.
spec fn is_kept_right(
    e: Option<ChangeState>,
    changes: Seq<Seq<char>>,
    last: Option<u128>,
) -> bool {
    match e {
        None => changes.len() == 0 && last is None,
        Some(e) => {
            &&& last == Some(e.logged_at)
            &&& e.held == changes.len()
            &&& e.pending == if changes.len() == 0 {
                None
            } else {
                Some(changes.last())
            }
        },
    }
}

/// What a pass says of a group whose entry holds what was not said is right,
/// and so is the entry it leaves.
proof fn a_pass_tells_right(
    e: Option<ChangeState>,
    mac: [u8; 6],
    change: Line,
    now: u128,
    changes: Seq<Seq<char>>,
    last: Option<u128>,
)
    requires
        is_kept_right(e, changes, last),
        e matches Some(e) ==> e.held < u32::MAX,
    ensures
        ({
            let (after, lines) = passed(e, mac, change, now);
            let all = with_change(changes, change);
            &&& are_told_right(lines, all, last, now)
            &&& if lines.len() > 0 {
                is_kept_right(after, Seq::empty(), Some(now))
            } else {
                is_kept_right(after, all, last)
            }
        }),
{
    let (first, lines) = noted(e, mac, change, now);
    let more = flushed(first, now).1;
    let all = with_change(changes, change);
    if lines.len() == 0 {
        assert(lines + more =~= more);
    } else {
        assert(lines + more =~= lines);
    }
    if let Some(line) = change {
        assert(all.last() == line);
        assert(all.len() == changes.len() + 1);
    }
}

/// What holds in any run of what is said of a group's target, and kept of it.
proof fn a_run_keeps_right(s: CoreState, turns: Seq<Turn>, mac: [u8; 6])
    requires
        s.valid(),
        s.change_log.len() == 0,
        s.fail_log.len() == 0,
        ran(s, turns) is Some,
    ensures
        ran(s, turns)->0.valid(),
        is_orderly(ran(s, turns)->0.change_log),
        are_apart(ran(s, turns)->0.fail_log),
        is_kept_right(
            entry_for(ran(s, turns)->0.change_log, mac),
            unsaid(s, turns, mac),
            last_told(s, turns, mac),
        ),
    decreases turns.len(),
{
    if turns.len() == 0 {
        address::the_place_is_the_first(log::macs_of(s.change_log), mac);
    } else {
        let front = turns.drop_last();
        let mid = ran(s, front)->0;
        a_run_keeps_right(s, front, mac);
        a_turn_keeps_right(
            mid,
            turns.last(),
            mac,
            unsaid(s, front, mac),
            last_told(s, front, mac),
        );
    }
}

/// What a turn says of a group's target, and keeps of it.
proof fn a_turn_keeps_right(
    s: CoreState,
    turn: Turn,
    mac: [u8; 6],
    changes: Seq<Seq<char>>,
    last: Option<u128>,
)
    requires
        s.valid(),
        is_orderly(s.change_log),
        are_apart(s.fail_log),
        is_kept_right(entry_for(s.change_log, mac), changes, last),
        turned(s, turn) is Some,
    ensures
        ({
            let after = turned(s, turn)->0;
            let all = with_change(changes, change_in(s, turn, mac));
            let lines = lines_in(s, turn, mac);
            &&& after.valid()
            &&& is_orderly(after.change_log)
            &&& are_apart(after.fail_log)
            &&& match turn {
                Turn::Pass { now, .. } => {
                    &&& are_told_right(lines, all, last, now)
                    &&& if lines.len() > 0 {
                        is_kept_right(entry_for(after.change_log, mac), Seq::empty(), Some(now))
                    } else {
                        is_kept_right(entry_for(after.change_log, mac), all, last)
                    }
                },
                _ => lines.len() == 0 && is_kept_right(entry_for(after.change_log, mac), all, last),
            }
        }),
{
    let after = turned(s, turn)->0;
    history::a_turn_keeps_the_loop_valid(s, turn);
    match turn {
        Turn::Take => {},
        Turn::Ask(request) => {
            a_request_is_silent(s, request, mac);
            new_lines(s.events, after.events, mac, Seq::empty());
        },
        Turn::Pass { master, now, clock, trace, at } => {
            let end = trace.len() as int;
            a_pass_tells(s, master, now, clock, trace, at, after, end, mac);
            let change = change_in(s, turn, mac);
            let (e, lines) = passed(entry_for(s.change_log, mac), mac, change, now);
            address::the_place_is_the_first(log::macs_of(s.change_log), mac);
            a_pass_tells_right(entry_for(s.change_log, mac), mac, change, now, changes, last);
            new_lines(s.events, after.events, mac, lines);
        },
    }
}

/// The new lines about a target, where the lines have grown.
proof fn new_lines(
    earlier: Seq<Seq<char>>,
    later: Seq<Seq<char>>,
    mac: [u8; 6],
    lines: Seq<Seq<char>>,
)
    requires
        earlier.is_prefix_of(later),
        about(later, mac) == about(earlier, mac) + lines,
    ensures
        about(later.skip(earlier.len() as int), mac) == lines,
{
    let new = later.skip(earlier.len() as int);
    assert(later =~= earlier + new);
    about_both(earlier, new, mac);
    let n = about(earlier, mac).len() as int;
    assert(about(new, mac) =~= about(later, mac).skip(n));
    assert(lines =~= about(later, mac).skip(n));
}

/// Target changes are said in any run as they should: from the start on, a
/// pass says a line about a group's target if and only if the target changed,
/// in it or since the last such line, and no line about it was said in the
/// ten seconds before. The line shows the newest change and counts exactly the
/// other changes since the last line, which no line shows. Other groups have
/// no part in it, and nothing but a pass says such a line.
pub proof fn every_run_tells_targets_right(
    master: [u8; 6],
    channel: u8,
    turns: Seq<Turn>,
    i: int,
    mac: [u8; 6],
)
    requires
        ran(CoreState::start(master, channel), turns) is Some,
        0 <= i < turns.len(),
    ensures
        ({
            let start = CoreState::start(master, channel);
            let s = before(start, turns, i);
            let lines = lines_in(s, turns[i], mac);
            match turns[i] {
                Turn::Pass { now, .. } => are_told_right(
                    lines,
                    with_change(unsaid(start, turns.take(i), mac), change_in(s, turns[i], mac)),
                    last_told(start, turns.take(i), mac),
                    now,
                ),
                _ => lines.len() == 0,
            }
        }),
{
    let start = CoreState::start(master, channel);
    history::a_run_goes_turn_by_turn(start, turns, i);
    a_run_keeps_right(start, turns.take(i), mac);
    a_turn_keeps_right(
        before(start, turns, i),
        turns[i],
        mac,
        unsaid(start, turns.take(i), mac),
        last_told(start, turns.take(i), mac),
    );
}

/// Whether a turn is a pass at `now` that speaks of a group's target.
#[verifier::opaque]
pub open spec fn speaks_at(s: CoreState, turn: Turn, mac: [u8; 6], now: u128) -> bool {
    turn matches Turn::Pass { now: time, .. } && time == now && lines_in(s, turn, mac).len() > 0
}

/// A line about a group's target comes ten seconds after the last.
proof fn a_line_waits(
    master: [u8; 6],
    channel: u8,
    turns: Seq<Turn>,
    i: int,
    mac: [u8; 6],
    now: u128,
)
    requires
        ran(CoreState::start(master, channel), turns) is Some,
        0 <= i < turns.len(),
        speaks_at(before(CoreState::start(master, channel), turns, i), turns[i], mac, now),
    ensures
        last_told(CoreState::start(master, channel), turns.take(i), mac) matches Some(last) ==> now
            >= last + log::CHANGE_LOG_EVERY,
{
    reveal(speaks_at);
    every_run_tells_targets_right(master, channel, turns, i, mac);
}

/// When a group's target was last spoken of, once a turn more has passed.
proof fn the_last_line_is_the_new_one(s: CoreState, turns: Seq<Turn>, i: int, mac: [u8; 6])
    requires
        0 <= i < turns.len(),
    ensures
        last_told(s, turns.take(i + 1), mac) == match turns[i] {
            Turn::Pass { now, .. } => if speaks_at(before(s, turns, i), turns[i], mac, now) {
                Some(now)
            } else {
                last_told(s, turns.take(i), mac)
            },
            _ => last_told(s, turns.take(i), mac),
        },
{
    reveal(speaks_at);
    assert(turns.take(i + 1).drop_last() =~= turns.take(i));
    assert(turns.take(i + 1).last() == turns[i]);
}

/// Once a group's target was spoken of, it was last spoken of then or later.
proof fn the_last_line_is_no_earlier(
    master: [u8; 6],
    channel: u8,
    turns: Seq<Turn>,
    i: int,
    j: int,
    mac: [u8; 6],
    earlier: u128,
)
    requires
        ran(CoreState::start(master, channel), turns) is Some,
        0 <= i < j <= turns.len(),
        speaks_at(before(CoreState::start(master, channel), turns, i), turns[i], mac, earlier),
    ensures
        last_told(CoreState::start(master, channel), turns.take(j), mac) matches Some(last) && last
            >= earlier,
    decreases j,
{
    let start = CoreState::start(master, channel);
    the_last_line_is_the_new_one(start, turns, j - 1, mac);
    if j == i + 1 {
        reveal(speaks_at);
    } else {
        the_last_line_is_no_earlier(master, channel, turns, i, j - 1, mac, earlier);
        if let Turn::Pass { now, .. } = turns[j - 1] {
            if speaks_at(before(start, turns, j - 1), turns[j - 1], mac, now) {
                a_line_waits(master, channel, turns, j - 1, mac, now);
            }
        }
    }
}

/// Two lines about one group's target are ten seconds apart, in any run.
pub proof fn target_lines_are_ten_seconds_apart(
    master: [u8; 6],
    channel: u8,
    turns: Seq<Turn>,
    i: int,
    j: int,
    mac: [u8; 6],
    earlier: u128,
    later: u128,
)
    requires
        ran(CoreState::start(master, channel), turns) is Some,
        0 <= i < j < turns.len(),
        speaks_at(before(CoreState::start(master, channel), turns, i), turns[i], mac, earlier),
        speaks_at(before(CoreState::start(master, channel), turns, j), turns[j], mac, later),
    ensures
        later >= earlier + log::CHANGE_LOG_EVERY,
{
    the_last_line_is_no_earlier(master, channel, turns, i, j, mac, earlier);
    a_line_waits(master, channel, turns, j, mac, later);
}

} // verus!
