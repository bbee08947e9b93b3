//! The fan loop as a function: what one pass makes of the loop's state, of
//! the calls made on the dongle, and of what came back.
//!
//! A link keeps, for proofs only, a trace of the calls made on it. Each phase
//! of a pass is stated as a reading of that trace: from where it stood before
//! the phase, the calls are the ones the phase makes, each decided by the
//! state and the outcomes before it, and the state afterwards is the one
//! those outcomes give. A trace that shows anything else has no reading.

use crate::address;
use crate::discovery::{ReplyState, FANS_PER_GROUP};
use crate::dongle;
use crate::frame::BROADCAST;
use crate::groups;
use crate::groups::{Group, TrackerState};
use crate::heartbeat;
use crate::heartbeat::Clock;
use crate::log;
use crate::log::{ChangeState, FailState, Line};
use crate::speed;
use crate::text;
use crate::time;
use crate::wanted;
use vstd::prelude::*;

verus! {

/// Lowest percentage a host can ask for. Anything lower is raised to it.
pub const FLOOR_PERCENT: u8 = 30;

/// What every reachable group is set to when something is lost.
pub const FAILSAFE_PERCENT: u8 = 100;

/// Polls that must fail in a row before the dongle counts as lost.
pub const POLL_FAILURES: u32 = 3;

/// Wait before the second reconnect attempt; each later one waits twice
/// as long, up to [`RECONNECT_MAX_WAIT`]. The first attempt is immediate.
pub const RECONNECT_FIRST_WAIT: u128 = 2_000_000_000;

/// Longest wait between reconnect attempts.
pub const RECONNECT_MAX_WAIT: u128 = 60_000_000_000;

/// How often a poll that skipped records is mentioned in the log.
pub const SKIP_LOG_EVERY: u128 = 60_000_000_000;

/// Why every reachable group is being held at full speed.
#[derive(Debug, Clone, Copy, PartialEq, Eq, Structural)]
pub enum Alarm {
    /// Polls have failed [`POLL_FAILURES`] times in a row and the dongle
    /// has not been reconnected yet.
    Dongle,
}

impl Alarm {
    /// The alarm as text.
    pub open spec fn text_of(self) -> Seq<char> {
        text::decimal_of(POLL_FAILURES as nat) + " polls failed in a row"@
    }

    /// The alarm as text.
    pub fn text(&self) -> (r: String)
        ensures
            r@ == self.text_of(),
    {
        text::decimal(POLL_FAILURES as u64).concat(" polls failed in a row")
    }
}

/// One group as the host sees it.
#[derive(Debug, Clone, Copy, PartialEq, Eq)]
pub struct GroupState {
    /// Address of the group's receiver.
    pub mac: [u8; 6],
    /// Receiver type.
    pub receiver: u8,
    /// Fans attached.
    pub fan_count: u8,
    /// Model byte of the first fan.
    pub model: u8,
    /// Whether the group has been heard recently.
    pub online: bool,
    /// Speed of each fan.
    pub rpm: [u16; FANS_PER_GROUP],
    /// Duty the receiver reports for each fan.
    pub duty: [u8; FANS_PER_GROUP],
    /// Duties last sent, if any.
    pub target: Option<[u8; FANS_PER_GROUP]>,
    /// Whether the receiver reports the target applied.
    pub acknowledged: bool,
    /// Sends of the target since it was last seen applied.
    pub unacknowledged: u32,
}

/// What the host is told, as a value.
#[verifier::ext_equal]
pub struct SnapshotState {
    pub master_mac: [u8; 6],
    pub channel: u8,
    pub ticks: u64,
    pub polls: u64,
    pub poll_failures: u64,
    pub reconnects: u64,
    pub skipped_records: u64,
    pub alarm: Option<Alarm>,
    pub last_error: Line,
    pub groups: Seq<GroupState>,
}

/// A call made on a link, and what came back.
pub enum LinkCall {
    /// A discovery poll.
    Poll { result: Result<ReplyState, dongle::Error> },
    /// A radio payload sent.
    Send { channel: u8, receiver: u8, payload: Seq<u8>, result: Result<(), dongle::Error> },
    /// A reconnect, after which the link's address and channel were these.
    Reconnect {
        every_channel: bool,
        result: Result<(), dongle::Error>,
        master: [u8; 6],
        channel: u8,
    },
    /// The system's words for an error code.
    Message { code: u32, text: Seq<char> },
}

/// The loop's state between passes, as a value.
#[verifier::ext_equal]
pub struct CoreState {
    /// What is known of the groups.
    pub tracker: TrackerState,
    /// The dongle's channel.
    pub channel: u8,
    /// The percentage asked of each group, by key.
    pub wanted: Map<u64, u8>,
    /// Whether a heartbeat went out since the dongle was connected.
    pub heartbeat_sent: bool,
    /// When the last heartbeat went out.
    pub last_heartbeat: Option<u128>,
    /// Polls that failed in a row.
    pub failures_in_a_row: u32,
    /// When the next reconnect attempt is due.
    pub reconnect_at: Option<u128>,
    /// How long to wait after the next attempt that fails.
    pub reconnect_wait: u128,
    /// When unreadable records were last mentioned.
    pub last_skip_log: Option<u128>,
    /// The slot order after the last sweep.
    pub last_online: Seq<[u8; 6]>,
    /// What was said of each group's target.
    pub change_log: Seq<ChangeState>,
    /// What was said of each failure.
    pub fail_log: Seq<FailState>,
    /// Whether the failsafe is in force, and why.
    pub alarm: Option<Alarm>,
    /// What the host was last told.
    pub snapshot: SnapshotState,
    /// The lines said since they were last taken.
    pub events: Seq<Seq<char>>,
}

/// Where a reading of the trace has come to: the state, and how far.
pub type Step = Option<(CoreState, int)>;

/// Whether `later` begins with `earlier`.
pub open spec fn continues(later: Seq<LinkCall>, earlier: Seq<LinkCall>) -> bool {
    earlier.len() <= later.len() && forall|i: int|
        0 <= i < earlier.len() ==> #[trigger] later[i] == earlier[i]
}

/// A percentage held to what a host can ask for.
pub open spec fn held_percent(percent: u8) -> u8 {
    if percent < FLOOR_PERCENT {
        FLOOR_PERCENT
    } else if percent > 100 {
        100
    } else {
        percent
    }
}

/// Whether every percentage asked for lies between the floor and a hundred.
pub open spec fn asks_within_bounds(wanted: Map<u64, u8>) -> bool {
    forall|key: u64| #[trigger]
        wanted.contains_key(key) ==> FLOOR_PERCENT <= wanted[key] <= 100
}

/// The text of an error, for which the link is asked for the system's words
/// where there is an error code.
pub open spec fn error_run(t: Seq<LinkCall>, at: int, error: dongle::Error) -> Option<
    (Seq<char>, int),
> {
    match error.code_of() {
        None => Some((error.text_of(Seq::empty()), at)),
        Some(code) => if at >= t.len() {
            None
        } else {
            match t[at] {
                LinkCall::Message { code: asked, text } => if asked == code {
                    Some((error.text_of(text), at + 1))
                } else {
                    None
                },
                _ => None,
            }
        },
    }
}

/// The line for a group that came online.
pub open spec fn online_line(group: Group, master: [u8; 6]) -> Seq<char> {
    text::mac_of(group.device.mac) + " online: "@ + text::decimal_of(group.device.fan_count as nat)
        + " fans, receiver "@ + text::decimal_of(group.device.receiver as nat)
        + if group.is_bound(master) {
        ""@
    } else {
        ", bound to another dongle"@
    }
}

/// The line for a fan group that went quiet.
pub open spec fn quiet_line(mac: [u8; 6]) -> Seq<char> {
    text::mac_of(mac) + " unheard for "@ + text::decimal_of(
        (groups::OFFLINE_AFTER / time::SECOND) as nat,
    ) + " s; its fans keep their last duty"@
}

/// The line for a group that was forgotten.
pub open spec fn forgotten_line(group: Group, master: [u8; 6], wanted: Map<u64, u8>) -> Seq<char> {
    if !group.is_bound(master) {
        text::mac_of(group.device.mac) + " gone; it was bound to another dongle"@
    } else {
        text::mac_of(group.device.mac) + " forgotten after "@ + text::decimal_of(
            (groups::FORGET_AFTER / time::SECOND) as nat,
        ) + " s unheard"@ + if wanted.contains_key(wanted::key_of(group.device.mac)) {
            "; driven at its last asked percentage if it returns"@
        } else {
            ""@
        }
    }
}

/// The line for a target change.
pub open spec fn target_line(mac: [u8; 6], percent: u8, duties: Seq<u8>) -> Seq<char> {
    text::mac_of(mac) + " target "@ + text::decimal_of(percent as nat) + "% "@ + text::list_of(
        duties,
    )
}

/// The line for unreadable records.
pub open spec fn skipped_line(skipped: u8, total: u64) -> Seq<char> {
    text::decimal_of(skipped as nat) + " unreadable record(s) in a reply, "@ + text::decimal_of(
        total as nat,
    ) + " so far"@
}

/// The duty of a percentage on every slot that has a fan.
pub open spec fn spread(percent: u8, fan_count: u8) -> [u8; FANS_PER_GROUP] {
    let duty = speed::percent_duty(percent);
    [
        if fan_count > 0 {
            duty
        } else {
            0
        },
        if fan_count > 1 {
            duty
        } else {
            0
        },
        if fan_count > 2 {
            duty
        } else {
            0
        },
        if fan_count > 3 {
            duty
        } else {
            0
        },
    ]
}

/// How many duties of a target are said: one for each fan, one at least.
pub open spec fn said_count(fan_count: u8) -> int {
    if fan_count < 1 {
        1
    } else if fan_count > 4 {
        4
    } else {
        fan_count as int
    }
}

/// An online group as the host sees it.
pub open spec fn online_state(group: Group, now: u128) -> GroupState {
    GroupState {
        mac: group.device.mac,
        receiver: group.device.receiver,
        fan_count: group.device.fan_count,
        model: group.device.fan_types[0],
        online: true,
        rpm: group.device.rpm,
        duty: group.device.duty,
        target: group.target,
        acknowledged: group.is_acknowledged(now),
        unacknowledged: group.unacknowledged,
    }
}

/// An offline group as the host sees it: nothing is known to turn.
pub open spec fn offline_state(group: Group) -> GroupState {
    GroupState {
        mac: group.device.mac,
        receiver: group.device.receiver,
        fan_count: group.device.fan_count,
        model: group.device.fan_types[0],
        online: false,
        rpm: [0u16; FANS_PER_GROUP],
        duty: group.device.duty,
        target: group.target,
        acknowledged: false,
        unacknowledged: group.unacknowledged,
    }
}

/// Whether a fan group of the dongle is offline.
pub open spec fn is_away(group: Group, master: [u8; 6], now: u128) -> bool {
    group.is_bound(master) && group.is_fans() && !group.is_online(now)
}

/// The groups as the host sees them: the online fan groups of the dongle in
/// slot order, then the offline ones in the order first heard.
pub open spec fn published_groups(tracker: TrackerState, now: u128) -> Seq<GroupState> {
    tracker.fans().map_values(|g: Group| online_state(g, now)) + tracker.groups.filter(
        |g: Group| is_away(g, tracker.master, now),
    ).map_values(|g: Group| offline_state(g))
}

impl CoreState {
    /// A loop that has not run yet.
    pub open spec fn start(master: [u8; 6], channel: u8) -> CoreState {
        CoreState {
            tracker: TrackerState::start(master),
            channel,
            wanted: Map::empty(),
            heartbeat_sent: false,
            last_heartbeat: None,
            failures_in_a_row: 0,
            reconnect_at: None,
            reconnect_wait: RECONNECT_FIRST_WAIT,
            last_skip_log: None,
            last_online: Seq::empty(),
            change_log: Seq::empty(),
            fail_log: Seq::empty(),
            alarm: None,
            snapshot: SnapshotState {
                master_mac: master,
                channel,
                ticks: 0,
                polls: 0,
                poll_failures: 0,
                reconnects: 0,
                skipped_records: 0,
                alarm: None,
                last_error: None,
                groups: Seq::empty(),
            },
            events: Seq::empty(),
        }
    }

    /// The tracker is valid, the wait lies between its bounds, and so does
    /// every percentage asked for.
    pub open spec fn valid(self) -> bool {
        &&& self.tracker.valid()
        &&& RECONNECT_FIRST_WAIT <= self.reconnect_wait <= RECONNECT_MAX_WAIT
        &&& asks_within_bounds(self.wanted)
    }

    /// Whether the sends of every group can be counted once more.
    pub open spec fn can_stop(self) -> bool {
        forall|i: int|
            0 <= i < self.tracker.groups.len() ==> (
            #[trigger] self.tracker.groups[i]).unacknowledged < u32::MAX
    }

    /// Whether a pass at `now` overflows no count and no time: it adds one to
    /// each count at most, but to the unreadable records what a reply can
    /// skip, and it looks ahead by the wait.
    pub open spec fn has_room(self, now: u128) -> bool {
        &&& self.can_stop()
        &&& self.failures_in_a_row < u32::MAX
        &&& forall|i: int|
            0 <= i < self.change_log.len() ==> (#[trigger] self.change_log[i]).held < u32::MAX
        &&& forall|i: int|
            0 <= i < self.fail_log.len() ==> (#[trigger] self.fail_log[i]).held < u32::MAX
        &&& self.snapshot.ticks < u64::MAX
        &&& self.snapshot.polls < u64::MAX
        &&& self.snapshot.poll_failures < u64::MAX
        &&& self.snapshot.reconnects < u64::MAX
        &&& self.snapshot.skipped_records + u8::MAX <= u64::MAX
        &&& now + self.reconnect_wait <= u128::MAX
    }

    /// The state with one more line said.
    pub open spec fn said(self, line: Seq<char>) -> CoreState {
        CoreState { events: self.events.push(line), ..self }
    }

    /// The state with a line said, or none.
    pub open spec fn said_if(self, line: Line) -> CoreState {
        match line {
            Some(line) => self.said(line),
            None => self,
        }
    }

    /// The state with lines said.
    pub open spec fn said_all(self, lines: Seq<Seq<char>>) -> CoreState {
        CoreState { events: self.events + lines, ..self }
    }

    /// The state after a failure.
    pub open spec fn failed(self, message: Seq<char>, now: u128) -> CoreState {
        let (fail_log, line) = log::failed(self.fail_log, message, now);
        CoreState {
            fail_log,
            snapshot: SnapshotState { last_error: Some(message), ..self.snapshot },
            ..self
        }.said_if(line)
    }

    /// The state after a percentage was asked of a group.
    pub open spec fn wanting(self, mac: [u8; 6], percent: u8) -> CoreState {
        CoreState {
            wanted: self.wanted.insert(wanted::key_of(mac), held_percent(percent)),
            ..self
        }
    }

    /// Whether anything is asked of a group, or was set on it.
    pub open spec fn is_driving(self, mac: [u8; 6]) -> bool {
        self.wanted.contains_key(wanted::key_of(mac)) || (self.tracker.group(mac) matches Some(
            group,
        ) && group.target is Some)
    }

    /// The state after a group was released.
    pub open spec fn released(self, mac: [u8; 6]) -> CoreState {
        let after = CoreState {
            wanted: self.wanted.remove(wanted::key_of(mac)),
            tracker: self.tracker.changed(mac, |g: Group| groups::cleared(g)),
            ..self
        };
        if self.is_driving(mac) {
            after.said(text::mac_of(mac) + " released; its fans keep their last duty"@)
        } else {
            after
        }
    }

    /// Whether the heartbeat went out less than [`heartbeat::INTERVAL`] ago.
    pub open spec fn is_beating(self, now: u128) -> bool {
        self.last_heartbeat matches Some(last) && time::passed(now, last) < heartbeat::INTERVAL
    }

    /// The heartbeat's payload.
    pub open spec fn beat(self, master: [u8; 6], clock: Clock) -> Seq<u8> {
        heartbeat::payload_bytes(
            master@,
            heartbeat::block_bytes(heartbeat::no_readings(), clock),
            !self.heartbeat_sent,
        )
    }

    /// Reads the heartbeat out of a trace.
    pub open spec fn heartbeat_run(
        self,
        master: [u8; 6],
        now: u128,
        clock: Clock,
        t: Seq<LinkCall>,
        at: int,
    ) -> Step {
        if self.is_beating(now) {
            Some((self, at))
        } else if at >= t.len() {
            None
        } else {
            match t[at] {
                LinkCall::Send { channel, receiver, payload, result } => if channel != self.channel
                    || receiver != BROADCAST || payload != self.beat(master, clock) {
                    None
                } else {
                    match result {
                        Ok(()) => Some(
                            (
                                CoreState {
                                    heartbeat_sent: true,
                                    last_heartbeat: Some(now),
                                    ..self
                                },
                                at + 1,
                            ),
                        ),
                        Err(error) => match error_run(t, at + 1, error) {
                            Some((words, end)) => Some(
                                (self.failed("heartbeat: "@ + words, now), end),
                            ),
                            None => None,
                        },
                    }
                },
                _ => None,
            }
        }
    }

    /// The state after records could not be read.
    pub open spec fn skipped(self, skipped: u8, now: u128) -> CoreState {
        if skipped == 0 {
            self
        } else {
            let total = (self.snapshot.skipped_records + skipped) as u64;
            let counted = CoreState {
                snapshot: SnapshotState { skipped_records: total, ..self.snapshot },
                ..self
            };
            if self.last_skip_log matches Some(last) && time::passed(now, last) < SKIP_LOG_EVERY {
                counted
            } else {
                CoreState { last_skip_log: Some(now), ..counted }.said(skipped_line(skipped, total))
            }
        }
    }

    /// The lines for the groups that came online since the order was
    /// `before`.
    pub open spec fn arrivals(self, before: Seq<[u8; 6]>) -> Seq<Seq<char>> {
        self.tracker.listed().filter(|g: Group| !before.contains(g.device.mac)).map_values(
            |g: Group| online_line(g, self.tracker.master),
        )
    }

    /// The state after a poll that succeeded.
    pub open spec fn polled(self, reply: ReplyState, now: u128) -> CoreState {
        let counted = CoreState {
            snapshot: SnapshotState {
                polls: (self.snapshot.polls + 1) as u64,
                ..self.snapshot
            },
            failures_in_a_row: 0,
            reconnect_at: None,
            reconnect_wait: RECONNECT_FIRST_WAIT,
            ..self
        }.skipped(reply.skipped, now);
        let observed = CoreState {
            tracker: counted.tracker.observed(reply.devices, now),
            ..counted
        };
        observed.said_all(observed.arrivals(self.tracker.order))
    }

    /// The state once a poll that failed is counted.
    pub open spec fn poll_missed(self) -> CoreState {
        CoreState {
            snapshot: SnapshotState {
                poll_failures: (self.snapshot.poll_failures + 1) as u64,
                ..self.snapshot
            },
            failures_in_a_row: (self.failures_in_a_row + 1) as u32,
            ..self
        }
    }

    /// Reads the poll out of a trace.
    pub open spec fn poll_run(self, now: u128, t: Seq<LinkCall>, at: int) -> Step {
        if at >= t.len() {
            None
        } else {
            match t[at] {
                LinkCall::Poll { result } => match result {
                    Ok(reply) => Some((self.polled(reply, now), at + 1)),
                    Err(error) => match error_run(t, at + 1, error) {
                        Some((words, end)) => Some(
                            (self.poll_missed().failed("poll: "@ + words, now), end),
                        ),
                        None => None,
                    },
                },
                _ => None,
            }
        }
    }

    /// Whether an address that was in the slot order has gone quiet: it is a
    /// fan group of the dongle, is known still, and is not in the order.
    pub open spec fn is_quiet(tracker: TrackerState, mac: [u8; 6], forgotten: Seq<[u8; 6]>) -> bool {
        &&& !tracker.order.contains(mac)
        &&& !forgotten.contains(mac)
        &&& tracker.group(mac) matches Some(group) && group.is_bound(tracker.master)
            && group.is_fans()
    }

    /// The state after a sweep.
    pub open spec fn swept(self, now: u128) -> CoreState {
        let forgotten = self.tracker.forgotten(now);
        let tracker = self.tracker.swept(now);
        let quiet = self.last_online.filter(
            |mac: [u8; 6]| CoreState::is_quiet(tracker, mac, forgotten),
        ).map_values(|mac: [u8; 6]| quiet_line(mac));
        let gone = self.tracker.groups.filter(
            |g: Group| !groups::is_kept(g, self.tracker.master, now),
        ).map_values(|g: Group| forgotten_line(g, self.tracker.master, self.wanted));
        CoreState { tracker, last_online: tracker.order, ..self }.said_all(quiet).said_all(gone)
    }

    /// The alarm that the failures in a row call for.
    pub open spec fn due_alarm(self) -> Option<Alarm> {
        if self.failures_in_a_row >= POLL_FAILURES {
            Some(Alarm::Dongle)
        } else {
            None
        }
    }

    /// The state once the alarm is brought up to date.
    pub open spec fn judged(self) -> CoreState {
        let alarm = self.due_alarm();
        if alarm == self.alarm {
            self
        } else {
            CoreState { alarm, ..self }.said(
                match alarm {
                    Some(why) => "failsafe: "@ + why.text_of() + "; every reachable group to "@
                        + text::decimal_of(FAILSAFE_PERCENT as nat) + "%"@,
                    None => "failsafe cleared; targets resume"@,
                },
            )
        }
    }

    /// The percentage a group is driven at: the failsafe while there is an
    /// alarm, else what is asked of it.
    pub open spec fn percent_for(self, mac: [u8; 6]) -> Option<u8> {
        if self.alarm is Some {
            Some(FAILSAFE_PERCENT)
        } else if self.wanted.contains_key(wanted::key_of(mac)) {
            Some(self.wanted[wanted::key_of(mac)])
        } else {
            None
        }
    }

    /// The state once a group's target is set.
    pub open spec fn aimed(self, mac: [u8; 6], group: Group, percent: u8, now: u128) -> CoreState {
        let wanted = spread(percent, group.device.fan_count);
        let target = speed::prepared(group.device, wanted);
        let set = CoreState {
            tracker: self.tracker.changed(
                mac,
                |g: Group| groups::aimed(g, speed::prepared(g.device, wanted)),
            ),
            ..self
        };
        if group.target == Some(target) {
            set
        } else {
            let line = target_line(
                mac,
                percent,
                target@.take(said_count(group.device.fan_count)),
            );
            let (change_log, said) = log::changed(self.change_log, mac, line, now);
            CoreState { change_log, ..set }.said_if(said)
        }
    }

    /// The payload of a group's speed command. It names the dongle's channel;
    /// the frames around it go out on the device's own.
    pub open spec fn command(self, master: [u8; 6], group: Group) -> Seq<u8> {
        speed::payload_bytes(
            group.device,
            master,
            self.channel,
            self.tracker.slot(group.device.mac),
            group.target->0,
        )
    }

    /// The state once a group's target went out.
    pub open spec fn resent(self, mac: [u8; 6], now: u128) -> CoreState {
        CoreState {
            tracker: self.tracker.changed(mac, |g: Group| groups::resent(g, now)),
            ..self
        }
    }

    /// Reads the sending of a group's target, where it is due, out of a
    /// trace.
    pub open spec fn send_run(
        self,
        mac: [u8; 6],
        master: [u8; 6],
        now: u128,
        t: Seq<LinkCall>,
        at: int,
    ) -> Step {
        match self.tracker.group(mac) {
            None => Some((self, at)),
            Some(group) => if !group.is_due(now) {
                Some((self, at))
            } else if at >= t.len() {
                None
            } else {
                match t[at] {
                    LinkCall::Send { channel, receiver, payload, result } => if channel
                        != group.device.channel || receiver != group.device.receiver || payload
                        != self.command(master, group) {
                        None
                    } else {
                        match result {
                            Ok(()) => Some((self.resent(mac, now), at + 1)),
                            Err(error) => match error_run(t, at + 1, error) {
                                Some((words, end)) => Some(
                                    (self.failed(text::mac_of(mac) + ": "@ + words, now), end),
                                ),
                                None => None,
                            },
                        }
                    },
                    _ => None,
                }
            },
        }
    }

    /// Reads the driving of one group out of a trace.
    pub open spec fn drive_one_run(
        self,
        mac: [u8; 6],
        master: [u8; 6],
        now: u128,
        t: Seq<LinkCall>,
        at: int,
    ) -> Step {
        match self.percent_for(mac) {
            None => Some((self, at)),
            Some(percent) => match self.tracker.group(mac) {
                None => Some((self, at)),
                Some(group) => self.aimed(mac, group, percent, now).send_run(mac, master, now, t, at),
            },
        }
    }

    /// Reads the driving of groups, one after the other, out of a trace.
    pub open spec fn drive_run(
        self,
        macs: Seq<[u8; 6]>,
        master: [u8; 6],
        now: u128,
        t: Seq<LinkCall>,
        at: int,
    ) -> Step
        decreases macs.len(),
    {
        if macs.len() == 0 {
            Some((self, at))
        } else {
            match self.drive_run(macs.drop_last(), master, now, t, at) {
                None => None,
                Some((s, end)) => s.drive_one_run(macs.last(), master, now, t, end),
            }
        }
    }

    /// Whether a reconnect attempt is due.
    pub open spec fn is_recovering(self, now: u128) -> bool {
        self.failures_in_a_row >= POLL_FAILURES && !(self.reconnect_at matches Some(at) && now < at)
    }

    /// Whether the next attempt tries every channel: once the wait has
    /// reached its cap.
    pub open spec fn tries_every_channel(self) -> bool {
        self.reconnect_wait >= RECONNECT_MAX_WAIT
    }

    /// The state after a reconnect to a dongle.
    pub open spec fn reconnected(self, master: [u8; 6], channel: u8) -> CoreState {
        CoreState {
            channel,
            snapshot: SnapshotState {
                master_mac: master,
                channel,
                reconnects: (self.snapshot.reconnects + 1) as u64,
                ..self.snapshot
            },
            failures_in_a_row: 0,
            reconnect_at: None,
            reconnect_wait: RECONNECT_FIRST_WAIT,
            heartbeat_sent: false,
            last_heartbeat: None,
            ..self
        }.said(
            "reconnected: master "@ + text::mac_of(master) + " channel "@ + text::decimal_of(
                channel as nat,
            ),
        ).judged()
    }

    /// The wait after one that was waited in vain: twice as long, up to the
    /// cap.
    pub open spec fn longer_wait(self) -> u128 {
        if self.reconnect_wait * 2 < RECONNECT_MAX_WAIT {
            (self.reconnect_wait * 2) as u128
        } else {
            RECONNECT_MAX_WAIT
        }
    }

    /// The state after a reconnect that failed.
    pub open spec fn still_lost(self, words: Seq<char>, now: u128) -> CoreState {
        let scope = if self.tries_every_channel() {
            "reconnect on every channel"@
        } else {
            "reconnect"@
        };
        let message = scope + ": "@ + words + "; next try in "@ + text::decimal_of(
            (self.reconnect_wait / time::SECOND) as nat,
        ) + " s"@;
        CoreState {
            reconnect_at: Some((now + self.reconnect_wait) as u128),
            reconnect_wait: self.longer_wait(),
            ..self.failed(message, now)
        }
    }

    /// Reads the reconnect attempt, where one is due, out of a trace.
    pub open spec fn recover_run(self, now: u128, t: Seq<LinkCall>, at: int) -> Step {
        if !self.is_recovering(now) {
            Some((self, at))
        } else if at >= t.len() {
            None
        } else {
            match t[at] {
                LinkCall::Reconnect { every_channel, result, master, channel } => if every_channel
                    != self.tries_every_channel() {
                    None
                } else {
                    match result {
                        Ok(()) => Some((self.reconnected(master, channel), at + 1)),
                        Err(error) => match error_run(t, at + 1, error) {
                            Some((words, end)) => Some((self.still_lost(words, now), end)),
                            None => None,
                        },
                    }
                },
                _ => None,
            }
        }
    }

    /// The state once held-back target changes that are due are said.
    pub open spec fn changes_flushed(self, now: u128) -> CoreState {
        CoreState { change_log: log::flushed(self.change_log, now), ..self }.said_all(
            log::last_lines(self.change_log, now),
        )
    }

    /// The state once held-back failures that are due are said.
    pub open spec fn failures_flushed(self, now: u128) -> CoreState {
        CoreState { fail_log: log::still_held(self.fail_log, now), ..self }.said_all(
            log::overdue(self.fail_log, now),
        )
    }

    /// The state once the host is told.
    pub open spec fn published(self, now: u128) -> CoreState {
        CoreState {
            snapshot: SnapshotState {
                alarm: self.alarm,
                groups: published_groups(self.tracker, now),
                ..self.snapshot
            },
            ..self
        }
    }

    /// The state once a pass is counted.
    pub open spec fn counted(self) -> CoreState {
        CoreState {
            snapshot: SnapshotState {
                ticks: (self.snapshot.ticks + 1) as u64,
                ..self.snapshot
            },
            ..self
        }
    }

    /// The addresses of the groups that a pass drives.
    pub open spec fn driven(self) -> Seq<[u8; 6]> {
        groups::macs_of(self.tracker.fans())
    }

    /// Reads one pass of the loop out of a trace: the heartbeat, the poll,
    /// the sweep, the alarm, the groups in slot order, the reconnect; then
    /// what was held back is said and the host told.
    pub open spec fn tick_run(
        self,
        master: [u8; 6],
        now: u128,
        clock: Clock,
        t: Seq<LinkCall>,
        at: int,
    ) -> Step {
        match self.counted().heartbeat_run(master, now, clock, t, at) {
            None => None,
            Some((beaten, at)) => match beaten.poll_run(now, t, at) {
                None => None,
                Some((polled, at)) => {
                    let judged = polled.swept(now).judged();
                    match judged.drive_run(judged.driven(), master, now, t, at) {
                        None => None,
                        Some((driven, at)) => match driven.recover_run(now, t, at) {
                            None => None,
                            Some((recovered, at)) => Some(
                                (
                                    recovered.changes_flushed(now).failures_flushed(now).published(
                                        now,
                                    ),
                                    at,
                                ),
                            ),
                        },
                    }
                },
            },
        }
    }

    /// Reads the last sending of one group's target out of a trace: it goes
    /// out once more, unless there is none or it is seen applied. A failure
    /// is passed over.
    pub open spec fn last_send_run(
        self,
        mac: [u8; 6],
        master: [u8; 6],
        now: u128,
        t: Seq<LinkCall>,
        at: int,
    ) -> Step {
        match self.tracker.group(mac) {
            None => Some((self, at)),
            Some(group) => if group.target is None || group.is_acknowledged(now) {
                Some((self, at))
            } else if at >= t.len() {
                None
            } else {
                match t[at] {
                    LinkCall::Send { channel, receiver, payload, result } => if channel
                        != group.device.channel || receiver != group.device.receiver || payload
                        != self.command(master, group) {
                        None
                    } else {
                        match result {
                            Ok(()) => Some((self.resent(mac, now), at + 1)),
                            Err(_) => Some((self, at + 1)),
                        }
                    },
                    _ => None,
                }
            },
        }
    }

    /// Reads the last sending of groups' targets out of a trace.
    pub open spec fn last_sends_run(
        self,
        macs: Seq<[u8; 6]>,
        master: [u8; 6],
        now: u128,
        t: Seq<LinkCall>,
        at: int,
    ) -> Step
        decreases macs.len(),
    {
        if macs.len() == 0 {
            Some((self, at))
        } else {
            match self.last_sends_run(macs.drop_last(), master, now, t, at) {
                None => None,
                Some((s, end)) => s.last_send_run(macs.last(), master, now, t, end),
            }
        }
    }

    /// Reads the stop of the loop out of a trace.
    pub open spec fn shutdown_run(
        self,
        master: [u8; 6],
        now: u128,
        t: Seq<LinkCall>,
        at: int,
    ) -> Step {
        match self.last_sends_run(self.driven(), master, now, t, at) {
            None => None,
            Some((s, end)) => Some(
                (s.said("stopping; the groups keep their last duty"@).published(now), end),
            ),
        }
    }
}

/// What continues a trace with one more call continues the trace.
pub proof fn one_more(before: Seq<LinkCall>, after: Seq<LinkCall>)
    requires
        after.len() == before.len() + 1,
        after.drop_last() == before,
    ensures
        continues(after, before),
{
    assert forall|i: int| 0 <= i < before.len() implies #[trigger] after[i] == before[i] by {
        assert(after.drop_last()[i] == before[i]);
    }
}

impl CoreState {
    /// A reading of a trace is the same in every continuation of it.
    pub proof fn heartbeat_steady(
        self,
        master: [u8; 6],
        now: u128,
        clock: Clock,
        t: Seq<LinkCall>,
        u: Seq<LinkCall>,
        at: int,
    )
        requires
            continues(u, t),
            0 <= at,
            self.heartbeat_run(master, now, clock, t, at) is Some,
        ensures
            self.heartbeat_run(master, now, clock, u, at) == self.heartbeat_run(
                master,
                now,
                clock,
                t,
                at,
            ),
            self.heartbeat_run(master, now, clock, t, at) matches Some((_, end)) ==> at <= end,
    {
    }

    /// A reading of a trace is the same in every continuation of it.
    pub proof fn poll_steady(self, now: u128, t: Seq<LinkCall>, u: Seq<LinkCall>, at: int)
        requires
            continues(u, t),
            0 <= at,
            self.poll_run(now, t, at) is Some,
        ensures
            self.poll_run(now, u, at) == self.poll_run(now, t, at),
            self.poll_run(now, t, at) matches Some((_, end)) ==> at <= end,
    {
    }

    /// A reading of a trace is the same in every continuation of it.
    pub proof fn drive_one_steady(
        self,
        mac: [u8; 6],
        master: [u8; 6],
        now: u128,
        t: Seq<LinkCall>,
        u: Seq<LinkCall>,
        at: int,
    )
        requires
            continues(u, t),
            0 <= at,
            self.drive_one_run(mac, master, now, t, at) is Some,
        ensures
            self.drive_one_run(mac, master, now, u, at) == self.drive_one_run(
                mac,
                master,
                now,
                t,
                at,
            ),
            self.drive_one_run(mac, master, now, t, at) matches Some((_, end)) ==> at <= end,
    {
    }

    /// A reading of a trace is the same in every continuation of it.
    pub proof fn drive_steady(
        self,
        macs: Seq<[u8; 6]>,
        master: [u8; 6],
        now: u128,
        t: Seq<LinkCall>,
        u: Seq<LinkCall>,
        at: int,
    )
        requires
            continues(u, t),
            0 <= at,
            self.drive_run(macs, master, now, t, at) is Some,
        ensures
            self.drive_run(macs, master, now, u, at) == self.drive_run(macs, master, now, t, at),
            self.drive_run(macs, master, now, t, at) matches Some((_, end)) ==> at <= end,
        decreases macs.len(),
    {
        if macs.len() > 0 {
            self.drive_steady(macs.drop_last(), master, now, t, u, at);
            if let Some((s, end)) = self.drive_run(macs.drop_last(), master, now, t, at) {
                s.drive_one_steady(macs.last(), master, now, t, u, end);
            }
        }
    }

    /// A reading of a trace is the same in every continuation of it.
    pub proof fn last_sends_steady(
        self,
        macs: Seq<[u8; 6]>,
        master: [u8; 6],
        now: u128,
        t: Seq<LinkCall>,
        u: Seq<LinkCall>,
        at: int,
    )
        requires
            continues(u, t),
            0 <= at,
            self.last_sends_run(macs, master, now, t, at) is Some,
        ensures
            self.last_sends_run(macs, master, now, u, at) == self.last_sends_run(
                macs,
                master,
                now,
                t,
                at,
            ),
            self.last_sends_run(macs, master, now, t, at) matches Some((_, end)) ==> at <= end,
        decreases macs.len(),
    {
        if macs.len() > 0 {
            self.last_sends_steady(macs.drop_last(), master, now, t, u, at);
        }
    }
}

impl CoreState {
    /// Whether two states differ in nothing but what was asked of the groups,
    /// and what was said of it.
    pub open spec fn differs_in_targets(self, after: CoreState) -> bool {
        &&& after.channel == self.channel
        &&& after.wanted == self.wanted
        &&& after.heartbeat_sent == self.heartbeat_sent
        &&& after.last_heartbeat == self.last_heartbeat
        &&& after.failures_in_a_row == self.failures_in_a_row
        &&& after.reconnect_at == self.reconnect_at
        &&& after.reconnect_wait == self.reconnect_wait
        &&& after.last_skip_log == self.last_skip_log
        &&& after.last_online == self.last_online
        &&& after.alarm == self.alarm
        &&& after.snapshot == (SnapshotState {
            last_error: after.snapshot.last_error,
            ..self.snapshot
        })
        &&& after.tracker.master == self.tracker.master
        &&& after.tracker.order == self.tracker.order
        &&& after.tracker.groups.len() == self.tracker.groups.len()
        &&& forall|i: int|
            0 <= i < self.tracker.groups.len() ==> {
                &&& (#[trigger] after.tracker.groups[i]).device == self.tracker.groups[i].device
                &&& after.tracker.groups[i].last_seen == self.tracker.groups[i].last_seen
            }
    }

    /// Groups that differ in nothing but their targets have the same
    /// addresses.
    pub proof fn same_places(self, after: CoreState)
        requires
            self.differs_in_targets(after),
        ensures
            groups::macs_of(after.tracker.groups) == groups::macs_of(self.tracker.groups),
    {
        assert(groups::macs_of(after.tracker.groups) =~= groups::macs_of(self.tracker.groups));
    }

    /// Driving one group changes nothing but targets.
    pub proof fn drive_one_keeps(
        self,
        mac: [u8; 6],
        master: [u8; 6],
        now: u128,
        t: Seq<LinkCall>,
        at: int,
    )
        ensures
            self.drive_one_run(mac, master, now, t, at) matches Some((after, _))
                ==> self.differs_in_targets(after),
    {
        address::the_place_is_the_first(groups::macs_of(self.tracker.groups), mac);
        if let Some(percent) = self.percent_for(mac) {
            if let Some(group) = self.tracker.group(mac) {
                let aimed = self.aimed(mac, group, percent, now);
                assert(self.differs_in_targets(aimed));
                self.same_places(aimed);
            }
        }
    }

    /// Driving groups changes nothing but targets.
    pub proof fn drive_keeps(
        self,
        macs: Seq<[u8; 6]>,
        master: [u8; 6],
        now: u128,
        t: Seq<LinkCall>,
        at: int,
    )
        ensures
            self.drive_run(macs, master, now, t, at) matches Some((after, _))
                ==> self.differs_in_targets(after),
        decreases macs.len(),
    {
        if macs.len() > 0 {
            self.drive_keeps(macs.drop_last(), master, now, t, at);
            if let Some((s, end)) = self.drive_run(macs.drop_last(), master, now, t, at) {
                s.drive_one_keeps(macs.last(), master, now, t, end);
            }
        }
    }
}

} // verus!
