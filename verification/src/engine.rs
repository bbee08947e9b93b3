//! The fan loop: once a second, poll the receiver, send the heartbeat,
//! and send every group's duty when it is due.
//!
//! The engine owns the dongle for as long as it runs. Hosts hand it a
//! percentage per group and read a snapshot of what the groups report.
//! Safety lives here: no fan below the floor, and every reachable fan at
//! full speed while the dongle is lost and not yet back. A group that
//! goes quiet keeps its last duty, which the firmware holds on its own,
//! and is forgotten after a long silence. A stop leaves every group at
//! its last duty too.

use crate::address;
use crate::discovery::{Reply, FANS_PER_GROUP};
use crate::dongle;
use crate::frame::{RfPayload, BROADCAST};
use crate::groups;
use crate::groups::{kept_on, Group, Tracker, FORGET_AFTER, OFFLINE_AFTER};
use crate::heartbeat;
use crate::heartbeat::{Clock, Readings};
use crate::log;
use crate::log::{ChangeLog, FailLog};
use crate::model;
use crate::model::{CoreState, LinkCall, SnapshotState};
use crate::room;
use crate::speed;
use crate::text;
use crate::time::{since, SECOND};
use crate::wanted::Wanted;
use vstd::prelude::*;

pub use crate::log::{CHANGE_LOG_EVERY, REPEAT_LOG_EVERY};
pub use crate::model::{
    Alarm, GroupState, FAILSAFE_PERCENT, FLOOR_PERCENT, POLL_FAILURES, RECONNECT_FIRST_WAIT,
    RECONNECT_MAX_WAIT, SKIP_LOG_EVERY,
};

verus! {

/// How often the loop runs.
pub const TICK: u128 = 1_000_000_000;

/// Calls made on a link, oldest first.
pub type Trace = Seq<LinkCall>;

/// The dongle as the engine needs it.
pub trait Link {
    /// The calls made so far. They are kept for proofs only.
    spec fn trace(&self) -> Trace;

    /// The dongle's own address.
    spec fn master(&self) -> [u8; 6];

    /// The channel the dongle is on.
    spec fn on_channel(&self) -> u8;

    /// The dongle's own address.
    fn master_mac(&self) -> (r: [u8; 6])
        ensures
            r == self.master(),
    ;

    /// The channel the dongle is on.
    fn channel(&self) -> (r: u8)
        ensures
            r == self.on_channel(),
    ;

    /// One discovery poll.
    fn poll(&mut self) -> (r: Result<Reply, dongle::Error>)
        ensures
            final(self).trace() == old(self).trace().push(
                LinkCall::Poll { result: dongle::as_state(r) },
            ),
            final(self).master() == old(self).master(),
            final(self).on_channel() == old(self).on_channel(),
    ;

    /// One radio payload to a receiver type on a channel.
    fn send(&mut self, channel: u8, receiver: u8, payload: &RfPayload) -> (r: Result<
        (),
        dongle::Error,
    >)
        ensures
            final(self).trace() == old(self).trace().push(
                LinkCall::Send { channel, receiver, payload: payload@, result: r },
            ),
            final(self).master() == old(self).master(),
            final(self).on_channel() == old(self).on_channel(),
    ;

    /// Closes the dongle and opens and connects it again. Without
    /// `every_channel` only the channel it was on is tried.
    fn reconnect(&mut self, every_channel: bool) -> (r: Result<(), dongle::Error>)
        ensures
            final(self).trace() == old(self).trace().push(
                LinkCall::Reconnect {
                    every_channel,
                    result: r,
                    master: final(self).master(),
                    channel: final(self).on_channel(),
                },
            ),
    ;

    /// The system's description of an error code, or empty if it has none.
    fn message(&mut self, code: u32) -> (r: String)
        ensures
            final(self).trace() == old(self).trace().push(
                LinkCall::Message { code, text: r@ },
            ),
            final(self).master() == old(self).master(),
            final(self).on_channel() == old(self).on_channel(),
    ;
}

/// What the engine knows, as of its last tick.
#[derive(Debug, Clone, PartialEq, Eq)]
pub struct Snapshot {
    /// The dongle's address.
    pub master_mac: [u8; 6],
    /// The dongle's channel.
    pub channel: u8,
    /// Ticks run so far.
    pub ticks: u64,
    /// Polls that succeeded.
    pub polls: u64,
    /// Polls that failed.
    pub poll_failures: u64,
    /// Times the dongle was reconnected after being lost.
    pub reconnects: u64,
    /// Records in discovery replies that could not be read.
    pub skipped_records: u64,
    /// Whether the failsafe is in force, and why.
    pub alarm: Option<Alarm>,
    /// Text of the last error, if any.
    pub last_error: Option<String>,
    /// Fan groups bound to the dongle, in slot order.
    pub groups: Vec<GroupState>,
}

impl View for Snapshot {
    type V = SnapshotState;

    open spec fn view(&self) -> SnapshotState {
        SnapshotState {
            master_mac: self.master_mac,
            channel: self.channel,
            ticks: self.ticks,
            polls: self.polls,
            poll_failures: self.poll_failures,
            reconnects: self.reconnects,
            skipped_records: self.skipped_records,
            alarm: self.alarm,
            last_error: match self.last_error {
                Some(text) => Some(text@),
                None => None,
            },
            groups: self.groups@,
        }
    }
}

impl Snapshot {
    /// What is known of a dongle before the first tick.
    pub fn before_the_first_tick(master_mac: [u8; 6], channel: u8) -> (r: Self)
        ensures
            r@ == CoreState::start(master_mac, channel).snapshot,
    {
        let r = Snapshot {
            master_mac,
            channel,
            ticks: 0,
            polls: 0,
            poll_failures: 0,
            reconnects: 0,
            skipped_records: 0,
            alarm: None,
            last_error: None,
            groups: Vec::new(),
        };
        assert(r@ =~= CoreState::start(master_mac, channel).snapshot);
        r
    }
}

impl Default for Snapshot {
    fn default() -> (r: Self)
        ensures
            r@ == CoreState::start([0u8, 0u8, 0u8, 0u8, 0u8, 0u8], 0).snapshot,
    {
        Snapshot::before_the_first_tick([0u8, 0u8, 0u8, 0u8, 0u8, 0u8], 0)
    }
}

/// The loop's state between ticks.
pub struct Core {
    tracker: Tracker,
    channel: u8,
    wanted: Wanted,
    heartbeat_sent: bool,
    last_heartbeat: Option<u128>,
    failures_in_a_row: u32,
    reconnect_at: Option<u128>,
    reconnect_wait: u128,
    last_skip_log: Option<u128>,
    last_online: Vec<[u8; 6]>,
    change_log: ChangeLog,
    fail_log: FailLog,
    alarm: Option<Alarm>,
    snapshot: Snapshot,
    events: Vec<String>,
}

impl View for Core {
    type V = CoreState;

    closed spec fn view(&self) -> CoreState {
        CoreState {
            tracker: self.tracker@,
            channel: self.channel,
            wanted: self.wanted@,
            heartbeat_sent: self.heartbeat_sent,
            last_heartbeat: self.last_heartbeat,
            failures_in_a_row: self.failures_in_a_row,
            reconnect_at: self.reconnect_at,
            reconnect_wait: self.reconnect_wait,
            last_skip_log: self.last_skip_log,
            last_online: self.last_online@,
            change_log: self.change_log@,
            fail_log: self.fail_log@,
            alarm: self.alarm,
            snapshot: self.snapshot@,
            events: text::texts(self.events@),
        }
    }
}

/// What an error is called, in the system's words where it has a code.
fn describe<L: Link>(link: &mut L, error: &dongle::Error) -> (r: String)
    ensures
        model::continues(final(link).trace(), old(link).trace()),
        model::error_run(final(link).trace(), old(link).trace().len() as int, *error) == Some(
            (r@, final(link).trace().len() as int),
        ),
        final(link).master() == old(link).master(),
        final(link).on_channel() == old(link).on_channel(),
{
    match error.code() {
        Some(code) => {
            let ghost before = link.trace();
            let message = link.message(code);
            proof {
                assert(link.trace().drop_last() =~= before);
                model::one_more(before, link.trace());
            }
            error.text(message.as_str())
        },
        None => {
            let message = String::new();
            assert(message@ =~= Seq::<char>::empty());
            error.text(message.as_str())
        },
    }
}

/// Two lists of texts one behind the other.
proof fn texts_join(a: Seq<String>, b: Seq<String>)
    ensures
        text::texts(a + b) == text::texts(a) + text::texts(b),
{
    assert(text::texts(a + b) =~= text::texts(a) + text::texts(b));
}

impl Core {
    /// A core for a dongle with this address and channel.
    pub fn new(master_mac: [u8; 6], channel: u8) -> (core: Self)
        ensures
            core@ == CoreState::start(master_mac, channel),
            core@.valid(),
    {
        let core = Core {
            tracker: Tracker::new(master_mac),
            channel,
            wanted: Wanted::new(),
            heartbeat_sent: false,
            last_heartbeat: None,
            failures_in_a_row: 0,
            reconnect_at: None,
            reconnect_wait: RECONNECT_FIRST_WAIT,
            last_skip_log: None,
            last_online: Vec::new(),
            change_log: ChangeLog::new(),
            fail_log: FailLog::new(),
            alarm: None,
            snapshot: Snapshot::before_the_first_tick(master_mac, channel),
            events: Vec::new(),
        };
        assert(core@ =~= CoreState::start(master_mac, channel));
        core
    }

    /// Asks for a percentage on a group. Takes effect on the next tick.
    pub fn want(&mut self, mac: [u8; 6], percent: u8)
        ensures
            final(self)@ == old(self)@.wanting(mac, percent),
    {
        let held: u8 = if percent < FLOOR_PERCENT {
            FLOOR_PERCENT
        } else if percent > 100 {
            100
        } else {
            percent
        };
        self.wanted.set(&mac, held);
        assert(self@ =~= old(self)@.wanting(mac, percent));
    }

    /// Stops driving a group. Nothing more is sent to it and its fans keep
    /// the duty they have.
    pub fn release(&mut self, mac: [u8; 6])
        requires
            old(self)@.valid(),
        ensures
            final(self)@ == old(self)@.released(mac),
            final(self)@.valid(),
    {
        let asked = self.wanted.remove(&mac);
        let driven = self.tracker.clear_target(&mac);
        if asked || driven {
            self.say(text::mac(&mac).concat(" released; its fans keep their last duty"));
        }
        assert(self@ =~= old(self)@.released(mac));
    }

    /// What the engine knows, as of the last tick.
    pub fn snapshot(&self) -> (r: &Snapshot)
        ensures
            r@ == self@.snapshot,
    {
        &self.snapshot
    }

    /// Takes the messages logged since the last call.
    pub fn take_events(&mut self) -> (r: Vec<String>)
        ensures
            text::texts(r@) == old(self)@.events,
            final(self)@ == (CoreState { events: Seq::empty(), ..old(self)@ }),
    {
        let mut taken: Vec<String> = Vec::new();
        std::mem::swap(&mut taken, &mut self.events);
        assert(self@ =~= (CoreState { events: Seq::empty(), ..old(self)@ }));
        taken
    }

    fn say(&mut self, line: String)
        ensures
            final(self)@ == old(self)@.said(line@),
    {
        self.events.push(line);
        assert(self@ =~= old(self)@.said(line@));
    }

    fn say_if(&mut self, line: Option<String>)
        ensures
            final(self)@ == old(self)@.said_if(
                match line {
                    Some(line) => Some(line@),
                    None => None,
                },
            ),
    {
        if let Some(line) = line {
            self.say(line);
        }
    }

    fn say_all(&mut self, lines: Vec<String>)
        ensures
            final(self)@ == old(self)@.said_all(text::texts(lines@)),
    {
        let mut lines = lines;
        proof {
            texts_join(self.events@, lines@);
        }
        let ghost said = text::texts(lines@);
        self.events.append(&mut lines);
        assert(self@ =~= old(self)@.said_all(said));
    }

    /// Records a failure. The first of a kind is logged at once; the same
    /// text again within [`REPEAT_LOG_EVERY`] is counted and mentioned
    /// with its count once that time is up, so a dongle that stays lost
    /// costs one line a minute per kind of failure, not one a second.
    fn fail(&mut self, message: String, now: u128)
        requires
            log::entry_of(old(self)@.fail_log, message@) matches Some(i) ==> old(
                self,
            )@.fail_log[i].held < u32::MAX,
        ensures
            final(self)@ == old(self)@.failed(message@, now),
    {
        let line = self.fail_log.note(message.as_str(), now);
        self.snapshot.last_error = Some(message.clone());
        let ghost noted = self@;
        self.say_if(line);
        assert(noted =~= (CoreState {
            fail_log: log::failed(old(self)@.fail_log, message@, now).0,
            snapshot: SnapshotState { last_error: Some(message@), ..old(self)@.snapshot },
            ..old(self)@
        }));
    }

    fn heartbeat<L: Link>(&mut self, link: &mut L, now: u128, clock: Clock)
        requires
            room::has_fail_room(old(self)@.fail_log, "heartbeat: "@),
        ensures
            model::continues(final(link).trace(), old(link).trace()),
            final(link).master() == old(link).master(),
            final(link).on_channel() == old(link).on_channel(),
            old(self)@.heartbeat_run(
                old(link).master(),
                now,
                clock,
                final(link).trace(),
                old(link).trace().len() as int,
            ) == Some((final(self)@, final(link).trace().len() as int)),
    {
        let ghost start = link.trace();
        if let Some(last) = self.last_heartbeat {
            if since(now, last) < heartbeat::INTERVAL {
                return;
            }
        }
        let block = heartbeat::block(&Readings::default(), &clock);
        let payload = heartbeat::payload(&link.master_mac(), &block, !self.heartbeat_sent);
        let outcome = link.send(self.channel, BROADCAST, &payload);
        let ghost sent = link.trace();
        proof {
            assert(sent.drop_last() =~= start);
            model::one_more(start, sent);
            assert(sent.last() == sent[start.len() as int]);
        }
        match outcome {
            Ok(()) => {
                self.heartbeat_sent = true;
                self.last_heartbeat = Some(now);
                assert(self@ =~= (CoreState {
                    heartbeat_sent: true,
                    last_heartbeat: Some(now),
                    ..old(self)@
                }));
            },
            Err(error) => {
                let words = describe(link, &error);
                proof {
                    room::room_for_one(self@.fail_log, "heartbeat: "@, words@);
                }
                self.fail(text::owned("heartbeat: ").concat(words.as_str()), now);
            },
        }
    }

    /// The lines for the groups that came online since the order was
    /// `before`.
    fn arrivals(&self, before: &[[u8; 6]]) -> (lines: Vec<String>)
        requires
            self@.tracker.valid(),
        ensures
            text::texts(lines@) == self@.arrivals(before@),
    {
        let master = self.tracker.master_mac();
        let listed = self.tracker.online();
        let ghost news = |g: Group| !before@.contains(g.device.mac);
        let ghost line_of = |g: Group| model::online_line(g, self@.tracker.master);
        let mut lines: Vec<String> = Vec::new();
        let mut i: usize = 0;
        proof {
            reveal(Seq::filter);
            assert(listed@.take(0) =~= Seq::<Group>::empty());
        }
        while i < listed.len()
            invariant
                0 <= i <= listed.len(),
                master == self@.tracker.master,
                news == (|g: Group| !before@.contains(g.device.mac)),
                line_of == (|g: Group| model::online_line(g, self@.tracker.master)),
                text::texts(lines@) =~= listed@.take(i as int).filter(news).map_values(line_of),
            decreases listed.len() - i,
        {
            proof {
                assert(listed@.take(i + 1).drop_last() =~= listed@.take(i as int));
                reveal(Seq::filter);
            }
            let group = listed[i];
            if !address::holds(before, &group.device.mac) {
                let whose = if group.bound_to(&master) {
                    ""
                } else {
                    ", bound to another dongle"
                };
                let ghost said = text::texts(lines@);
                lines.push(
                    text::mac(&group.device.mac).concat(" online: ").concat(
                        text::decimal(group.device.fan_count as u64).as_str(),
                    ).concat(" fans, receiver ").concat(
                        text::decimal(group.device.receiver as u64).as_str(),
                    ).concat(whose),
                );
                proof {
                    let front = listed@.take(i as int).filter(news);
                    assert(news(group));
                    assert(listed@.take(i + 1).filter(news) =~= front.push(group));
                    assert(line_of(group) == lines@.last()@);
                    assert(text::texts(lines@) =~= said.push(line_of(group)));
                }
            }
            i += 1;
        }
        assert(listed@.take(i as int) =~= listed@);
        lines
    }

    fn poll<L: Link>(&mut self, link: &mut L, now: u128)
        requires
            old(self)@.valid(),
            old(self)@.failures_in_a_row < u32::MAX,
            old(self)@.snapshot.polls < u64::MAX,
            old(self)@.snapshot.poll_failures < u64::MAX,
            old(self)@.snapshot.skipped_records + u8::MAX <= u64::MAX,
            room::has_fail_room(old(self)@.fail_log, "poll: "@),
        ensures
            model::continues(final(link).trace(), old(link).trace()),
            final(link).master() == old(link).master(),
            final(link).on_channel() == old(link).on_channel(),
            final(self)@.valid(),
            old(self)@.poll_run(now, final(link).trace(), old(link).trace().len() as int) == Some(
                (final(self)@, final(link).trace().len() as int),
            ),
    {
        let ghost start = link.trace();
        let outcome = link.poll();
        let ghost polled = link.trace();
        proof {
            assert(polled.drop_last() =~= start);
            model::one_more(start, polled);
            assert(polled.last() == polled[start.len() as int]);
        }
        match outcome {
            Ok(reply) => {
                self.snapshot.polls = self.snapshot.polls + 1;
                self.failures_in_a_row = 0;
                self.reconnect_at = None;
                self.reconnect_wait = RECONNECT_FIRST_WAIT;
                let ghost reached = self@;
                assert(reached =~= (CoreState {
                    snapshot: SnapshotState {
                        polls: (old(self)@.snapshot.polls + 1) as u64,
                        ..old(self)@.snapshot
                    },
                    failures_in_a_row: 0,
                    reconnect_at: None,
                    reconnect_wait: RECONNECT_FIRST_WAIT,
                    ..old(self)@
                }));
                if reply.skipped > 0 {
                    self.snapshot.skipped_records = self.snapshot.skipped_records
                        + reply.skipped as u64;
                    let mention = match self.last_skip_log {
                        Some(last) => since(now, last) >= SKIP_LOG_EVERY,
                        None => true,
                    };
                    if mention {
                        self.last_skip_log = Some(now);
                        let line = text::decimal(reply.skipped as u64).concat(
                            " unreadable record(s) in a reply, ",
                        ).concat(text::decimal(self.snapshot.skipped_records).as_str()).concat(
                            " so far",
                        );
                        self.say(line);
                    }
                }
                let ghost counted = self@;
                assert(counted =~= reached.skipped(reply.skipped, now));
                let before = order_of(&self.tracker.online());
                proof {
                    assert(before@ =~= old(self)@.tracker.order) by {
                        self@.tracker.listed_addresses();
                    }
                }
                self.tracker.observe(&reply, now);
                let ghost observed = self@;
                assert(observed =~= (CoreState {
                    tracker: counted.tracker.observed(reply.devices@, now),
                    ..counted
                }));
                let lines = self.arrivals(&before);
                self.say_all(lines);
                assert(self@ == old(self)@.polled(reply@, now));
            },
            Err(error) => {
                self.snapshot.poll_failures = self.snapshot.poll_failures + 1;
                self.failures_in_a_row = self.failures_in_a_row + 1;
                assert(self@ =~= old(self)@.poll_missed());
                let words = describe(link, &error);
                proof {
                    room::room_for_one(self@.fail_log, "poll: "@, words@);
                }
                self.fail(text::owned("poll: ").concat(words.as_str()), now);
            },
        }
    }
}

impl Core {
    /// The lines for the fan groups that were in the slot order and have
    /// gone quiet.
    fn quiet_lines(&self, before: &[[u8; 6]], forgotten: &[[u8; 6]]) -> (lines: Vec<String>)
        requires
            self@.tracker.valid(),
        ensures
            text::texts(lines@) == before@.filter(
                |mac: [u8; 6]| CoreState::is_quiet(self@.tracker, mac, forgotten@),
            ).map_values(|mac: [u8; 6]| model::quiet_line(mac)),
    {
        let master = self.tracker.master_mac();
        let after = order_of(&self.tracker.online());
        let ghost quiet = |mac: [u8; 6]| CoreState::is_quiet(self@.tracker, mac, forgotten@);
        let ghost line_of = |mac: [u8; 6]| model::quiet_line(mac);
        let mut lines: Vec<String> = Vec::new();
        let mut i: usize = 0;
        proof {
            self@.tracker.listed_addresses();
            reveal(Seq::filter);
            assert(before@.take(0) =~= Seq::<[u8; 6]>::empty());
        }
        while i < before.len()
            invariant
                0 <= i <= before.len(),
                master == self@.tracker.master,
                after@ == self@.tracker.order,
                quiet == (|mac: [u8; 6]| CoreState::is_quiet(self@.tracker, mac, forgotten@)),
                line_of == (|mac: [u8; 6]| model::quiet_line(mac)),
                text::texts(lines@) =~= before@.take(i as int).filter(quiet).map_values(line_of),
            decreases before.len() - i,
        {
            proof {
                assert(before@.take(i + 1).drop_last() =~= before@.take(i as int));
                reveal(Seq::filter);
            }
            let mac = before[i];
            let fans = match self.tracker.group(&mac) {
                Some(group) => group.bound_to(&master) && group.has_fans(),
                None => false,
            };
            if !address::holds(&after, &mac) && !address::holds(forgotten, &mac) && fans {
                let ghost said = text::texts(lines@);
                lines.push(
                    text::mac(&mac).concat(" unheard for ").concat(
                        text::decimal((OFFLINE_AFTER / SECOND) as u64).as_str(),
                    ).concat(" s; its fans keep their last duty"),
                );
                proof {
                    let front = before@.take(i as int).filter(quiet);
                    assert(quiet(mac));
                    assert(before@.take(i + 1).filter(quiet) =~= front.push(mac));
                    assert(line_of(mac) == lines@.last()@);
                    assert(text::texts(lines@) =~= said.push(line_of(mac)));
                }
            }
            i += 1;
        }
        assert(before@.take(i as int) =~= before@);
        lines
    }

    /// The lines for the groups that a sweep at `now` forgets.
    fn gone_lines(&self, now: u128) -> (lines: Vec<String>)
        ensures
            text::texts(lines@) == self@.tracker.groups.filter(
                |g: Group| !groups::is_kept(g, self@.tracker.master, now),
            ).map_values(
                |g: Group| model::forgotten_line(g, self@.tracker.master, self@.wanted),
            ),
    {
        let master = self.tracker.master_mac();
        let known = self.tracker.groups();
        let ghost gone = |g: Group| !groups::is_kept(g, self@.tracker.master, now);
        let ghost line_of = |g: Group|
            model::forgotten_line(g, self@.tracker.master, self@.wanted);
        let mut lines: Vec<String> = Vec::new();
        let mut i: usize = 0;
        proof {
            reveal(Seq::filter);
            assert(known@.take(0) =~= Seq::<Group>::empty());
        }
        while i < known.len()
            invariant
                0 <= i <= known.len(),
                master == self@.tracker.master,
                gone == (|g: Group| !groups::is_kept(g, self@.tracker.master, now)),
                line_of == (|g: Group|
                    model::forgotten_line(g, self@.tracker.master, self@.wanted)),
                text::texts(lines@) =~= known@.take(i as int).filter(gone).map_values(line_of),
            decreases known.len() - i,
        {
            proof {
                assert(known@.take(i + 1).drop_last() =~= known@.take(i as int));
                reveal(Seq::filter);
            }
            let group = known[i];
            if !kept_on(&group, &master, now) {
                let mac = group.device.mac;
                let ghost said = text::texts(lines@);
                if !group.bound_to(&master) {
                    lines.push(text::mac(&mac).concat(" gone; it was bound to another dongle"));
                } else {
                    let again = if self.wanted.get(&mac).is_some() {
                        "; driven at its last asked percentage if it returns"
                    } else {
                        ""
                    };
                    lines.push(
                        text::mac(&mac).concat(" forgotten after ").concat(
                            text::decimal((FORGET_AFTER / SECOND) as u64).as_str(),
                        ).concat(" s unheard").concat(again),
                    );
                }
                proof {
                    let front = known@.take(i as int).filter(gone);
                    assert(gone(group));
                    assert(known@.take(i + 1).filter(gone) =~= front.push(group));
                    assert(line_of(group) == lines@.last()@);
                    assert(text::texts(lines@) =~= said.push(line_of(group)));
                }
            }
            i += 1;
        }
        assert(known@.take(i as int) =~= known@);
        lines
    }

    /// Drops groups that have gone quiet from the slot order, logging
    /// each one the first time, and forgets those quiet for too long.
    fn sweep(&mut self, now: u128)
        requires
            old(self)@.valid(),
        ensures
            final(self)@ == old(self)@.swept(now),
            final(self)@.valid(),
    {
        let gone = self.gone_lines(now);
        let mut before: Vec<[u8; 6]> = Vec::new();
        std::mem::swap(&mut before, &mut self.last_online);
        let forgotten = self.tracker.sweep(now);
        self.last_online = order_of(&self.tracker.online());
        proof {
            self@.tracker.listed_addresses();
        }
        let ghost moved = self@;
        assert(moved =~= (CoreState {
            tracker: old(self)@.tracker.swept(now),
            last_online: old(self)@.tracker.swept(now).order,
            ..old(self)@
        }));
        let quiet = self.quiet_lines(&before, &forgotten);
        self.say_all(quiet);
        self.say_all(gone);
    }

    fn judge(&mut self)
        ensures
            final(self)@ == old(self)@.judged(),
    {
        let alarm = if self.failures_in_a_row >= POLL_FAILURES {
            Some(Alarm::Dongle)
        } else {
            None
        };
        if alarm.is_some() != self.alarm.is_some() {
            self.alarm = alarm;
            let ghost set = self@;
            assert(set =~= (CoreState { alarm, ..old(self)@ }));
            match alarm {
                Some(why) => {
                    self.say(
                        text::owned("failsafe: ").concat(why.text().as_str()).concat(
                            "; every reachable group to ",
                        ).concat(text::decimal(FAILSAFE_PERCENT as u64).as_str()).concat("%"),
                    );
                },
                None => {
                    self.say(text::owned("failsafe cleared; targets resume"));
                },
            }
        }
    }

    /// Sends the group's target if the tracker says it is due. With the
    /// keepalive at one second and the tick at one second, that is every
    /// tick: the firmware wants each group's duty repeated that often.
    fn send_if_due<L: Link>(&mut self, link: &mut L, mac: &[u8; 6], now: u128)
        requires
            old(self)@.valid(),
            room::has_send_room(old(self)@, *mac),
            room::has_fail_room(old(self)@.fail_log, room::start_of(*mac)),
        ensures
            model::continues(final(link).trace(), old(link).trace()),
            final(link).master() == old(link).master(),
            final(link).on_channel() == old(link).on_channel(),
            final(self)@.valid(),
            old(self)@.send_run(
                *mac,
                old(link).master(),
                now,
                final(link).trace(),
                old(link).trace().len() as int,
            ) == Some((final(self)@, final(link).trace().len() as int)),
    {
        let ghost start = link.trace();
        proof {
            address::the_place_is_the_first(groups::macs_of(self@.tracker.groups), *mac);
        }
        let group = match self.tracker.group(mac) {
            Some(group) => *group,
            None => {
                return;
            },
        };
        if !group.due(now) {
            return;
        }
        let target = match group.target {
            Some(target) => target,
            None => {
                return;
            },
        };
        let device = group.device;
        let slot: u8 = self.tracker.slot(mac);
        let payload = speed::payload(&device, &link.master_mac(), self.channel, slot, target);
        let outcome = link.send(device.channel, device.receiver, &payload);
        let ghost sent = link.trace();
        proof {
            assert(group.device.mac == *mac);
            assert(payload@ == old(self)@.command(old(link).master(), group));
            assert(sent.drop_last() =~= start);
            model::one_more(start, sent);
            assert(sent.last() == sent[start.len() as int]);
        }
        match outcome {
            Ok(()) => {
                self.tracker.sent(mac, now);
                assert(self@ =~= old(self)@.resent(*mac, now));
            },
            Err(error) => {
                let words = describe(link, &error);
                proof {
                    room::room_for_one(self@.fail_log, room::start_of(*mac), words@);
                }
                self.fail(text::mac(mac).concat(": ").concat(words.as_str()), now);
            },
        }
    }

    /// Logs a target change, at most one line per group per
    /// [`CHANGE_LOG_EVERY`]. A change inside that time is held; the next
    /// line says how many were held, and [`Self::flush_change_log`] writes
    /// the last held change once the time is up.
    fn log_change(&mut self, mac: &[u8; 6], percent: u8, target: &[u8], now: u128)
        requires
            room::has_change_room(old(self)@, *mac),
        ensures
            ({
                let line = model::target_line(*mac, percent, target@);
                let (change_log, said) = log::changed(old(self)@.change_log, *mac, line, now);
                final(self)@ == (CoreState { change_log, ..old(self)@ }).said_if(said)
            }),
    {
        let line = text::mac(mac).concat(" target ").concat(
            text::decimal(percent as u64).as_str(),
        ).concat("% ").concat(text::list(target).as_str());
        let ghost told = line@;
        let said = self.change_log.note(mac, line, now);
        let ghost noted = self@;
        assert(noted =~= (CoreState {
            change_log: log::changed(old(self)@.change_log, *mac, told, now).0,
            ..old(self)@
        }));
        self.say_if(said);
    }

    /// Sets one group's target and sends it where it is due.
    fn drive_one<L: Link>(&mut self, link: &mut L, mac: &[u8; 6], now: u128)
        requires
            old(self)@.valid(),
            room::has_driving_room(old(self)@, *mac),
        ensures
            model::continues(final(link).trace(), old(link).trace()),
            final(link).master() == old(link).master(),
            final(link).on_channel() == old(link).on_channel(),
            final(self)@.valid(),
            old(self)@.drive_one_run(
                *mac,
                old(link).master(),
                now,
                final(link).trace(),
                old(link).trace().len() as int,
            ) == Some((final(self)@, final(link).trace().len() as int)),
    {
        let percent: u8 = if self.alarm.is_some() {
            FAILSAFE_PERCENT
        } else {
            match self.wanted.get(mac) {
                Some(percent) => percent,
                None => {
                    return;
                },
            }
        };
        let (fan_count, previous) = match self.tracker.group(mac) {
            Some(group) => (group.device.fan_count, group.target),
            None => {
                return;
            },
        };
        let ghost group = old(self)@.tracker.group(*mac)->0;
        let wanted = spread(percent, fan_count);
        let target = match self.tracker.set_target(mac, wanted) {
            Some(target) => target,
            None => {
                return;
            },
        };
        let ghost set = self@;
        assert(set =~= (CoreState {
            tracker: old(self)@.tracker.changed(
                *mac,
                |g: Group| groups::aimed(g, speed::prepared(g.device, wanted)),
            ),
            ..old(self)@
        }));
        let unchanged = match &previous {
            Some(previous) => crate::bytes::same(previous, &target),
            None => false,
        };
        if !unchanged {
            let count: usize = if fan_count < 1 {
                1
            } else if fan_count as usize > FANS_PER_GROUP {
                FANS_PER_GROUP
            } else {
                fan_count as usize
            };
            let shown = vstd::slice::slice_subrange(&target, 0, count);
            assert(shown@ =~= target@.take(model::said_count(fan_count)));
            self.log_change(mac, percent, shown, now);
        }
        let ghost aimed = self@;
        proof {
            assert(aimed == old(self)@.aimed(*mac, group, percent, now));
            groups::placed(old(self)@.tracker.groups, *mac);
            assert(groups::macs_of(aimed.tracker.groups) =~= groups::macs_of(
                old(self)@.tracker.groups,
            ));
        }
        self.send_if_due(link, mac, now);
    }

    fn drive<L: Link>(&mut self, link: &mut L, now: u128)
        requires
            old(self)@.valid(),
            forall|mac: [u8; 6]| #[trigger] room::has_driving_room(old(self)@, mac),
            room::has_fail_room(old(self)@.fail_log, "reconnect"@),
        ensures
            model::continues(final(link).trace(), old(link).trace()),
            final(link).master() == old(link).master(),
            final(link).on_channel() == old(link).on_channel(),
            final(self)@.valid(),
            room::has_fail_room(final(self)@.fail_log, "reconnect"@),
            old(self)@.drive_run(
                old(self)@.driven(),
                old(link).master(),
                now,
                final(link).trace(),
                old(link).trace().len() as int,
            ) == Some((final(self)@, final(link).trace().len() as int)),
    {
        let macs = order_of(&self.tracker.fans());
        let ghost start = link.trace();
        let mut i: usize = 0;
        proof {
            self@.tracker.fans_are_apart();
            assert(macs@.take(0) =~= Seq::<[u8; 6]>::empty());
        }
        while i < macs.len()
            invariant
                0 <= i <= macs.len(),
                macs@ == old(self)@.driven(),
                macs@.no_duplicates(),
                start == old(link).trace(),
                self@.valid(),
                forall|k: int|
                    i <= k < macs.len() ==> room::has_driving_room(self@, #[trigger] macs@[k]),
                room::has_fail_room(self@.fail_log, "reconnect"@),
                model::continues(link.trace(), start),
                link.master() == old(link).master(),
                link.on_channel() == old(link).on_channel(),
                old(self)@.drive_run(
                    macs@.take(i as int),
                    link.master(),
                    now,
                    link.trace(),
                    start.len() as int,
                ) == Some((self@, link.trace().len() as int)),
            decreases macs.len() - i,
        {
            let ghost before = link.trace();
            let ghost s = self@;
            let mac = macs[i];
            self.drive_one(link, &mac, now);
            proof {
                room::driving_one_leaves_room(
                    s,
                    mac,
                    link.master(),
                    now,
                    link.trace(),
                    before.len() as int,
                    mac,
                );
                assert forall|k: int| i < k < macs.len() implies room::has_driving_room(
                    self@,
                    #[trigger] macs@[k],
                ) by {
                    room::driving_one_leaves_room(
                        s,
                        mac,
                        link.master(),
                        now,
                        link.trace(),
                        before.len() as int,
                        macs@[k],
                    );
                }
                assert(model::continues(link.trace(), start)) by {
                    assert forall|k: int| 0 <= k < start.len() implies #[trigger] link.trace()[k]
                        == start[k] by {
                        assert(before[k] == start[k]);
                    }
                }
                old(self)@.drive_steady(
                    macs@.take(i as int),
                    link.master(),
                    now,
                    before,
                    link.trace(),
                    start.len() as int,
                );
                assert(macs@.take(i + 1).drop_last() =~= macs@.take(i as int));
                assert(macs@.take(i + 1).last() == mac);
            }
            i += 1;
        }
        assert(macs@.take(i as int) =~= macs@);
    }
}

impl Core {
    /// Once polls have failed [`POLL_FAILURES`] times in a row, tries to
    /// reconnect the dongle: at once the first time, then after a wait
    /// that doubles up to [`RECONNECT_MAX_WAIT`]. Runs after the groups
    /// have been driven, so the tick that trips the failsafe sends full
    /// speed on the handles it still has before giving them up. Attempts
    /// try the dongle's last channel only; once the wait has reached its
    /// cap they scan every channel, in case the dongle was swapped or
    /// paired anew while the engine ran.
    fn recover<L: Link>(&mut self, link: &mut L, now: u128)
        requires
            old(self)@.valid(),
            old(self)@.snapshot.reconnects < u64::MAX,
            now + old(self)@.reconnect_wait <= u128::MAX,
            room::has_fail_room(old(self)@.fail_log, "reconnect"@),
        ensures
            model::continues(final(link).trace(), old(link).trace()),
            final(self)@.valid(),
            old(self)@.recover_run(now, final(link).trace(), old(link).trace().len() as int)
                == Some((final(self)@, final(link).trace().len() as int)),
    {
        let ghost start = link.trace();
        if self.failures_in_a_row < POLL_FAILURES {
            return;
        }
        if let Some(at) = self.reconnect_at {
            if now < at {
                return;
            }
        }
        let every_channel = self.reconnect_wait >= RECONNECT_MAX_WAIT;
        let outcome = link.reconnect(every_channel);
        let ghost tried = link.trace();
        proof {
            assert(tried.drop_last() =~= start);
            model::one_more(start, tried);
            assert(tried.last() == tried[start.len() as int]);
        }
        match outcome {
            Ok(()) => {
                let channel: u8 = link.channel();
                let master = link.master_mac();
                self.channel = channel;
                self.snapshot.master_mac = master;
                self.snapshot.channel = channel;
                self.snapshot.reconnects = self.snapshot.reconnects + 1;
                self.failures_in_a_row = 0;
                self.reconnect_at = None;
                self.reconnect_wait = RECONNECT_FIRST_WAIT;
                self.heartbeat_sent = false;
                self.last_heartbeat = None;
                let ghost back = self@;
                assert(back =~= (CoreState {
                    channel,
                    snapshot: SnapshotState {
                        master_mac: master,
                        channel,
                        reconnects: (old(self)@.snapshot.reconnects + 1) as u64,
                        ..old(self)@.snapshot
                    },
                    failures_in_a_row: 0,
                    reconnect_at: None,
                    reconnect_wait: RECONNECT_FIRST_WAIT,
                    heartbeat_sent: false,
                    last_heartbeat: None,
                    ..old(self)@
                }));
                self.say(
                    text::owned("reconnected: master ").concat(text::mac(&master).as_str()).concat(
                        " channel ",
                    ).concat(text::decimal(channel as u64).as_str()),
                );
                self.judge();
            },
            Err(error) => {
                let scope = if every_channel {
                    "reconnect on every channel"
                } else {
                    "reconnect"
                };
                let words = describe(link, &error);
                let wait: u128 = self.reconnect_wait;
                let message = text::owned(scope).concat(": ").concat(words.as_str()).concat(
                    "; next try in ",
                ).concat(text::decimal((wait / SECOND) as u64).as_str()).concat(" s");
                proof {
                    reveal_strlit("reconnect");
                    reveal_strlit("reconnect on every channel");
                    let rest = message@.skip(9);
                    assert(message@ =~= "reconnect"@ + rest);
                    room::room_for_one(self@.fail_log, "reconnect"@, rest);
                }
                self.fail(message, now);
                let ghost told = self@;
                self.reconnect_at = Some(now + wait);
                self.reconnect_wait = if wait * 2 < RECONNECT_MAX_WAIT {
                    wait * 2
                } else {
                    RECONNECT_MAX_WAIT
                };
                assert(self@ =~= old(self)@.still_lost(words@, now));
            },
        }
    }

    /// Writes the last target change held back on each group by
    /// [`Self::log_change`] whose time is up.
    fn flush_change_log(&mut self, now: u128)
        ensures
            final(self)@ == old(self)@.changes_flushed(now),
    {
        let lines = self.change_log.flush(now);
        let ghost emptied = self@;
        assert(emptied =~= (CoreState {
            change_log: log::flushed(old(self)@.change_log, now),
            ..old(self)@
        }));
        self.say_all(lines);
    }

    /// Writes the counts of failures held back by [`Self::fail`] whose
    /// time is up, and drops the kinds not seen for that long.
    fn flush_fail_log(&mut self, now: u128)
        ensures
            final(self)@ == old(self)@.failures_flushed(now),
    {
        let lines = self.fail_log.flush(now);
        let ghost emptied = self@;
        assert(emptied =~= (CoreState {
            fail_log: log::still_held(old(self)@.fail_log, now),
            ..old(self)@
        }));
        self.say_all(lines);
    }

    fn publish(&mut self, now: u128)
        requires
            old(self)@.tracker.valid(),
        ensures
            final(self)@ == old(self)@.published(now),
    {
        let master = self.tracker.master_mac();
        let fans = self.tracker.fans();
        let mut states: Vec<GroupState> = Vec::new();
        let mut i: usize = 0;
        while i < fans.len()
            invariant
                0 <= i <= fans.len(),
                states@ =~= fans@.map_values(|g: Group| model::online_state(g, now)).take(i as int),
            decreases fans.len() - i,
        {
            let g = fans[i];
            states.push(
                GroupState {
                    mac: g.device.mac,
                    receiver: g.device.receiver,
                    fan_count: g.device.fan_count,
                    model: g.device.fan_types[0],
                    online: true,
                    rpm: g.device.rpm,
                    duty: g.device.duty,
                    target: g.target,
                    acknowledged: g.acknowledged(now),
                    unacknowledged: g.unacknowledged,
                },
            );
            i += 1;
        }
        let ghost present = fans@.map_values(|g: Group| model::online_state(g, now));
        assert(states@ =~= present);
        let known = self.tracker.groups();
        let ghost away = |g: Group| model::is_away(g, self@.tracker.master, now);
        let ghost state_of = |g: Group| model::offline_state(g);
        i = 0;
        proof {
            reveal(Seq::filter);
            assert(known@.take(0) =~= Seq::<Group>::empty());
        }
        while i < known.len()
            invariant
                0 <= i <= known.len(),
                master == self@.tracker.master,
                away == (|g: Group| model::is_away(g, self@.tracker.master, now)),
                state_of == (|g: Group| model::offline_state(g)),
                states@ =~= present + known@.take(i as int).filter(away).map_values(state_of),
            decreases known.len() - i,
        {
            proof {
                assert(known@.take(i + 1).drop_last() =~= known@.take(i as int));
                reveal(Seq::filter);
            }
            let g = known[i];
            if g.bound_to(&master) && g.has_fans() && !g.online(now) {
                let state = GroupState {
                    mac: g.device.mac,
                    receiver: g.device.receiver,
                    fan_count: g.device.fan_count,
                    model: g.device.fan_types[0],
                    online: false,
                    rpm: [0u16; FANS_PER_GROUP],
                    duty: g.device.duty,
                    target: g.target,
                    acknowledged: false,
                    unacknowledged: g.unacknowledged,
                };
                assert(state.rpm =~= model::offline_state(g).rpm);
                states.push(state);
                proof {
                    let front = known@.take(i as int).filter(away);
                    assert(away(g));
                    assert(known@.take(i + 1).filter(away) =~= front.push(g));
                    assert(state_of(g) == state);
                }
            }
            i += 1;
        }
        assert(known@.take(i as int) =~= known@);
        self.snapshot.alarm = self.alarm;
        self.snapshot.groups = states;
        assert(self@ =~= old(self)@.published(now));
    }

    /// Whether a stop overflows no count: it does after billions of sends in a
    /// row only.
    pub fn can_stop(&self) -> (r: bool)
        ensures
            r == self@.can_stop(),
    {
        let known = self.tracker.groups();
        let mut i: usize = 0;
        while i < known.len()
            invariant
                0 <= i <= known.len(),
                known@ == self@.tracker.groups,
                forall|k: int| 0 <= k < i ==> (#[trigger] known@[k]).unacknowledged < u32::MAX,
            decreases known.len() - i,
        {
            if known[i].unacknowledged == u32::MAX {
                assert(self@.tracker.groups[i as int].unacknowledged == u32::MAX);
                return false;
            }
            i += 1;
        }
        true
    }

    /// Whether a tick at `now` overflows no count and no time: it does after
    /// billions of failures or sends in a row only.
    pub fn has_room(&self, now: u128) -> (r: bool)
        ensures
            r == self@.has_room(now),
    {
        let changes = self.change_log.held_within(u32::MAX - 1);
        let failures = self.fail_log.held_within(u32::MAX - 1);
        proof {
            let s = self@;
            assert(s.change_log == self.change_log@);
            assert(s.fail_log == self.fail_log@);
            assert(changes == forall|k: int|
                0 <= k < s.change_log.len() ==> (#[trigger] s.change_log[k]).held < u32::MAX);
            assert(failures == forall|k: int|
                0 <= k < s.fail_log.len() ==> (#[trigger] s.fail_log[k]).held < u32::MAX);
        }
        self.can_stop() && self.failures_in_a_row < u32::MAX && changes && failures
            && self.snapshot.ticks < u64::MAX && self.snapshot.polls < u64::MAX
            && self.snapshot.poll_failures < u64::MAX && self.snapshot.reconnects < u64::MAX
            && self.snapshot.skipped_records <= u64::MAX - u8::MAX as u64 && now <= u128::MAX
            - self.reconnect_wait
    }

    /// One pass of the loop, at `now`.
    pub fn tick<L: Link>(&mut self, link: &mut L, now: u128, clock: Clock)
        requires
            old(self)@.valid(),
            old(self)@.has_room(now),
        ensures
            final(self)@.valid(),
            model::continues(final(link).trace(), old(link).trace()),
            old(self)@.tick_run(
                old(link).master(),
                now,
                clock,
                final(link).trace(),
                old(link).trace().len() as int,
            ) == Some((final(self)@, final(link).trace().len() as int)),
    {
        let ghost master = link.master();
        let ghost t0 = link.trace();
        self.snapshot.ticks = self.snapshot.ticks + 1;
        let ghost counted = self@;
        assert(counted =~= old(self)@.counted());
        proof {
            room::room_for_all(old(self)@, now, "heartbeat: "@, master);
            room::room_for_all(old(self)@, now, "poll: "@, master);
            room::room_for_all(old(self)@, now, "reconnect"@, master);
            reveal_strlit("poll: ");
            reveal_strlit("reconnect");
        }
        self.heartbeat(link, now, clock);
        let ghost beaten = self@;
        let ghost t1 = link.trace();
        let ghost at = t0.len() as int;
        proof {
            room::the_heartbeat_leaves_room(counted, master, now, clock, t1, at, "poll: "@);
            room::the_heartbeat_leaves_room(counted, master, now, clock, t1, at, "reconnect"@);
        }
        self.poll(link, now);
        let ghost polled = self@;
        let ghost t2 = link.trace();
        proof {
            room::the_poll_leaves_room(beaten, now, t2, t1.len() as int, "reconnect"@);
            counted.heartbeat_steady(master, now, clock, t1, t2, at);
        }
        self.sweep(now);
        self.judge();
        let ghost judged = self@;
        proof {
            room::judging_leaves_room(polled, now, master);
            assert forall|mac: [u8; 6]| #[trigger] room::has_driving_room(judged, mac) by {
                let start = room::start_of(mac);
                text::an_address_has_its_colon(mac);
                room::room_for_all(old(self)@, now, start, mac);
                room::the_heartbeat_leaves_room(counted, master, now, clock, t1, at, start);
                room::the_poll_leaves_room(beaten, now, t2, t1.len() as int, start);
                room::judging_leaves_room(polled, now, mac);
            }
        }
        self.drive(link, now);
        let ghost driven = self@;
        let ghost t3 = link.trace();
        proof {
            chain(t3, t2, t0);
            counted.heartbeat_steady(master, now, clock, t2, t3, t0.len() as int);
            beaten.poll_steady(now, t2, t3, t1.len() as int);
            judged.drive_keeps(judged.driven(), master, now, t3, t2.len() as int);
        }
        self.recover(link, now);
        let ghost recovered = self@;
        let ghost t4 = link.trace();
        proof {
            chain(t4, t3, t0);
            counted.heartbeat_steady(master, now, clock, t3, t4, t0.len() as int);
            beaten.poll_steady(now, t3, t4, t1.len() as int);
            judged.drive_steady(judged.driven(), master, now, t3, t4, t2.len() as int);
        }
        self.flush_change_log(now);
        self.flush_fail_log(now);
        self.publish(now);
    }

    /// Sends every group's current target one last time, so a target that
    /// arrived just before the stop is not lost, and records the stop. The
    /// groups keep whatever duty they have; the firmware holds it.
    pub fn shutdown<L: Link>(&mut self, link: &mut L, now: u128)
        requires
            old(self)@.valid(),
            old(self)@.can_stop(),
        ensures
            final(self)@.valid(),
            model::continues(final(link).trace(), old(link).trace()),
            old(self)@.shutdown_run(
                old(link).master(),
                now,
                final(link).trace(),
                old(link).trace().len() as int,
            ) == Some((final(self)@, final(link).trace().len() as int)),
    {
        let macs = order_of(&self.tracker.fans());
        let ghost start = link.trace();
        let mut i: usize = 0;
        proof {
            self@.tracker.fans_are_apart();
            assert(macs@.take(0) =~= Seq::<[u8; 6]>::empty());
            assert forall|k: int| 0 <= k < macs.len() implies room::has_send_room(
                self@,
                #[trigger] macs@[k],
            ) by {
                groups::placed(self@.tracker.groups, macs@[k]);
            }
        }
        while i < macs.len()
            invariant
                0 <= i <= macs.len(),
                macs@ == old(self)@.driven(),
                macs@.no_duplicates(),
                start == old(link).trace(),
                self@.valid(),
                forall|k: int|
                    i <= k < macs.len() ==> room::has_send_room(self@, #[trigger] macs@[k]),
                model::continues(link.trace(), start),
                link.master() == old(link).master(),
                old(self)@.last_sends_run(
                    macs@.take(i as int),
                    link.master(),
                    now,
                    link.trace(),
                    start.len() as int,
                ) == Some((self@, link.trace().len() as int)),
            decreases macs.len() - i,
        {
            let ghost before = link.trace();
            let ghost s = self@;
            let mac = macs[i];
            self.send_last(link, &mac, now);
            proof {
                assert forall|k: int| i < k < macs.len() implies room::has_send_room(
                    self@,
                    #[trigger] macs@[k],
                ) by {
                    assert(macs@[k] != macs@[i as int]);
                    room::last_sending_leaves_room(
                        s,
                        mac,
                        link.master(),
                        now,
                        link.trace(),
                        before.len() as int,
                        macs@[k],
                    );
                }
                chain(link.trace(), before, start);
                old(self)@.last_sends_steady(
                    macs@.take(i as int),
                    link.master(),
                    now,
                    before,
                    link.trace(),
                    start.len() as int,
                );
                assert(macs@.take(i + 1).drop_last() =~= macs@.take(i as int));
                assert(macs@.take(i + 1).last() == mac);
            }
            i += 1;
        }
        assert(macs@.take(i as int) =~= macs@);
        self.say(text::owned("stopping; the groups keep their last duty"));
        self.publish(now);
    }

    /// Sends one group's target once more, unless it is seen applied.
    fn send_last<L: Link>(&mut self, link: &mut L, mac: &[u8; 6], now: u128)
        requires
            old(self)@.valid(),
            room::has_send_room(old(self)@, *mac),
        ensures
            model::continues(final(link).trace(), old(link).trace()),
            final(link).master() == old(link).master(),
            final(self)@.valid(),
            old(self)@.last_send_run(
                *mac,
                old(link).master(),
                now,
                final(link).trace(),
                old(link).trace().len() as int,
            ) == Some((final(self)@, final(link).trace().len() as int)),
    {
        let ghost start = link.trace();
        proof {
            address::the_place_is_the_first(groups::macs_of(self@.tracker.groups), *mac);
        }
        let group = match self.tracker.group(mac) {
            Some(group) => *group,
            None => {
                return;
            },
        };
        let target = match group.target {
            Some(target) => target,
            None => {
                return;
            },
        };
        if group.acknowledged(now) {
            return;
        }
        let device = group.device;
        let slot: u8 = self.tracker.slot(mac);
        let payload = speed::payload(&device, &link.master_mac(), self.channel, slot, target);
        let outcome = link.send(device.channel, device.receiver, &payload);
        let ghost sent = link.trace();
        proof {
            assert(payload@ == old(self)@.command(old(link).master(), group));
            assert(sent.drop_last() =~= start);
            model::one_more(start, sent);
            assert(sent.last() == sent[start.len() as int]);
        }
        if outcome.is_ok() {
            self.tracker.sent(mac, now);
            assert(self@ =~= old(self)@.resent(*mac, now));
        }
    }
}

/// What continues a continuation of a trace continues the trace.
proof fn chain(last: Seq<LinkCall>, middle: Seq<LinkCall>, first: Seq<LinkCall>)
    requires
        model::continues(last, middle),
        model::continues(middle, first),
    ensures
        model::continues(last, first),
{
    assert forall|i: int| 0 <= i < first.len() implies #[trigger] last[i] == first[i] by {
        assert(middle[i] == first[i]);
    }
}

/// The duty of a percentage on every slot that has a fan.
pub fn spread(percent: u8, fan_count: u8) -> (wanted: [u8; FANS_PER_GROUP])
    ensures
        wanted == model::spread(percent, fan_count),
{
    let duty: u8 = speed::duty_from_percent(percent);
    let mut wanted = [0u8; FANS_PER_GROUP];
    let mut slot: usize = 0;
    while slot < FANS_PER_GROUP && slot < fan_count as usize
        invariant
            0 <= slot <= FANS_PER_GROUP,
            slot <= fan_count,
            duty == speed::percent_duty(percent),
            forall|k: int|
                0 <= k < FANS_PER_GROUP ==> #[trigger] wanted[k] == if k < slot {
                    duty
                } else {
                    0
                },
        decreases FANS_PER_GROUP - slot,
    {
        wanted[slot] = duty;
        slot += 1;
    }
    assert(wanted =~= model::spread(percent, fan_count));
    wanted
}

/// The addresses of groups.
fn order_of(listed: &[Group]) -> (macs: Vec<[u8; 6]>)
    ensures
        macs@ == groups::macs_of(listed@),
{
    let mut macs: Vec<[u8; 6]> = Vec::new();
    let mut i: usize = 0;
    while i < listed.len()
        invariant
            0 <= i <= listed.len(),
            macs@ =~= groups::macs_of(listed@).take(i as int),
        decreases listed.len() - i,
    {
        macs.push(listed[i].device.mac);
        i += 1;
    }
    assert(macs@ =~= groups::macs_of(listed@));
    macs
}

/// What a host asks of the loop between ticks.
#[derive(Debug, Clone, Copy, PartialEq, Eq)]
pub enum Request {
    /// A percentage on a group.
    Want([u8; 6], u8),
    /// No more driving of a group.
    Release([u8; 6]),
}

/// The state after one request.
pub open spec fn asked(s: CoreState, request: Request) -> CoreState {
    match request {
        Request::Want(mac, percent) => s.wanting(mac, percent),
        Request::Release(mac) => s.released(mac),
    }
}

/// The state after requests, one after the other.
pub open spec fn asked_all(s: CoreState, requests: Seq<Request>) -> CoreState
    decreases requests.len(),
{
    if requests.len() == 0 {
        s
    } else {
        asked(asked_all(s, requests.drop_last()), requests.last())
    }
}

impl Core {
    /// Takes in what the host asked since the last tick, in its order.
    pub fn take_requests(&mut self, requests: &[Request])
        requires
            old(self)@.valid(),
        ensures
            final(self)@ == asked_all(old(self)@, requests@),
            final(self)@.valid(),
    {
        let mut i: usize = 0;
        assert(requests@.take(0) =~= Seq::<Request>::empty());
        while i < requests.len()
            invariant
                0 <= i <= requests.len(),
                self@.valid(),
                self@ == asked_all(old(self)@, requests@.take(i as int)),
            decreases requests.len() - i,
        {
            assert(requests@.take(i + 1).drop_last() =~= requests@.take(i as int));
            match requests[i] {
                Request::Want(mac, percent) => self.want(mac, percent),
                Request::Release(mac) => self.release(mac),
            }
            i += 1;
        }
        assert(requests@.take(i as int) =~= requests@);
    }
}

/// The line the loop starts with.
pub fn started_line(master_mac: &[u8; 6], channel: u8) -> (r: String)
    ensures
        r@ == "engine started: master "@ + text::mac_of(*master_mac) + " channel "@
            + text::decimal_of(channel as nat),
{
    text::owned("engine started: master ").concat(text::mac(master_mac).as_str()).concat(
        " channel ",
    ).concat(text::decimal(channel as u64).as_str())
}

/// The line the loop ends with.
pub const STOPPED_LINE: &'static str = "engine stopped";

/// The line for a tick that panicked.
pub fn tick_failed_line(panic: &str) -> (r: String)
    ensures
        r@ == "tick failed: "@ + panic@,
{
    text::owned("tick failed: ").concat(panic)
}

/// The text a panic carried: a literal, a text made for it, or neither.
pub fn panic_text(literal: Option<&str>, made: Option<&str>) -> (r: String)
    ensures
        r@ == match (literal, made) {
            (Some(text), _) => text@,
            (None, Some(text)) => text@,
            (None, None) => "unknown panic"@,
        },
{
    match literal {
        Some(text) => text::owned(text),
        None => match made {
            Some(text) => text::owned(text),
            None => text::owned("unknown panic"),
        },
    }
}

} // verus!
