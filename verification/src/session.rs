//! The dongle with the tracker and heartbeat that go with it, for setting
//! one group at a time and waiting for it to report the duty applied.

use crate::discovery::{ReplyState, FANS_PER_GROUP};
use crate::dongle;
use crate::dongle::{Dongle, Port};
use crate::frame::BROADCAST;
use crate::groups;
use crate::groups::{Group, Tracker};
use crate::heartbeat;
use crate::heartbeat::{Clock, Readings};
use crate::model;
use crate::probe::{fans, ACK_LIMIT};
use crate::speed;
use crate::text;
use crate::time;
use crate::time::{since, SECOND};
use vstd::prelude::*;

verus! {

/// The dongle with the tracker and heartbeat that go with it.
pub struct Session<P: Port> {
    pub dongle: Dongle<P>,
    pub tracker: Tracker,
    /// Whether a heartbeat went out.
    pub heartbeat_sent: bool,
    /// When the last one did.
    pub last_heartbeat: Option<u128>,
}

/// Why a group's target did not go out.
#[derive(Debug, Clone, Copy, PartialEq, Eq)]
pub enum SendError {
    /// The group is not known any more.
    Vanished,
    /// The dongle could not send it.
    Dongle(dongle::Error),
}

impl SendError {
    /// The error as text, where a dongle's reads `words`.
    pub open spec fn text_of(self, mac: [u8; 6], words: Seq<char>) -> Seq<char> {
        match self {
            SendError::Vanished => "group "@ + text::mac_of(mac) + " vanished"@,
            SendError::Dongle(_) => words,
        }
    }

    /// The error as text, where a dongle's reads `words`.
    pub fn text(&self, mac: &[u8; 6], words: &str) -> (r: String)
        ensures
            r@ == self.text_of(*mac, words@),
    {
        match self {
            SendError::Vanished => text::owned("group ").concat(text::mac(mac).as_str()).concat(
                " vanished",
            ),
            SendError::Dongle(_) => text::owned(words),
        }
    }
}

/// What is said of a heartbeat that did not go out.
pub fn heartbeat_failed(words: &str) -> (r: String)
    ensures
        r@ == "heartbeat: "@ + words@,
{
    text::owned("heartbeat: ").concat(words)
}

/// What is done next in the rounds that keep a group at its target and look
/// how it does.
#[derive(Debug, Clone, Copy, PartialEq, Eq, Structural)]
pub enum Chore {
    /// The heartbeat, where it is due.
    Beat,
    /// The group's target, where it is due.
    Send,
    /// A pause, in which the group can answer.
    Rest,
    /// A poll.
    Poll,
    /// A look at what the group reports.
    Look,
}

impl Chore {
    /// What a round begins with.
    pub fn first() -> (r: Chore)
        ensures
            r == Chore::Beat,
    {
        Chore::Beat
    }

    /// What comes next: a round goes from the heartbeat through the send, the
    /// pause and the poll to the look, and then begins anew.
    pub open spec fn followed(self) -> Chore {
        match self {
            Chore::Beat => Chore::Send,
            Chore::Send => Chore::Rest,
            Chore::Rest => Chore::Poll,
            Chore::Poll => Chore::Look,
            Chore::Look => Chore::Beat,
        }
    }

    /// What comes next.
    pub fn next(self) -> (r: Chore)
        ensures
            r == self.followed(),
    {
        match self {
            Chore::Beat => Chore::Send,
            Chore::Send => Chore::Rest,
            Chore::Rest => Chore::Poll,
            Chore::Poll => Chore::Look,
            Chore::Look => Chore::Beat,
        }
    }
}

impl<P: Port> Session<P> {
    /// Whether the heartbeat went out less than [`heartbeat::INTERVAL`] ago.
    pub open spec fn is_beating(&self, now: u128) -> bool {
        self.last_heartbeat matches Some(last) && time::passed(now, last) < heartbeat::INTERVAL
    }

    /// A session on a connected pair.
    pub fn new(dongle: Dongle<P>) -> (session: Self)
        ensures
            session.dongle == dongle,
            session.tracker@ == groups::TrackerState::start(dongle.master.master_mac),
            session.tracker@.valid(),
            !session.heartbeat_sent,
            session.last_heartbeat is None,
    {
        let tracker = Tracker::new(dongle.master.master_mac);
        Session { dongle, tracker, heartbeat_sent: false, last_heartbeat: None }
    }

    /// Sends the heartbeat if a second has passed since the last one.
    pub fn heartbeat(&mut self, now: u128, clock: &Clock) -> (r: Result<(), dongle::Error>)
        ensures
            old(self).is_beating(now) ==> r is Ok && *final(self) == *old(self),
            !old(self).is_beating(now) ==> {
                &&& old(self).dongle.sent(
                    &final(self).dongle,
                    old(self).dongle.channel,
                    BROADCAST,
                    heartbeat::payload_bytes(
                        old(self).dongle.master.master_mac@,
                        heartbeat::block_bytes(heartbeat::no_readings(), *clock),
                        !old(self).heartbeat_sent,
                    ),
                    r,
                )
                &&& final(self).tracker == old(self).tracker
                &&& final(self).heartbeat_sent == (old(self).heartbeat_sent || r is Ok)
                &&& final(self).last_heartbeat == if r is Ok {
                    Some(now)
                } else {
                    old(self).last_heartbeat
                }
            },
    {
        if let Some(last) = self.last_heartbeat {
            if since(now, last) < heartbeat::INTERVAL {
                return Ok(());
            }
        }
        let block = heartbeat::block(&Readings::default(), clock);
        let payload = heartbeat::payload(
            &self.dongle.master.master_mac,
            &block,
            !self.heartbeat_sent,
        );
        let r = self.dongle.send(BROADCAST, &payload);
        if r.is_ok() {
            self.heartbeat_sent = true;
            self.last_heartbeat = Some(now);
        }
        r
    }

    /// Polls the receiver and takes in what it reports.
    pub fn poll(&mut self, now: u128) -> (r: Result<(), dongle::Error>)
        requires
            old(self).tracker@.valid(),
        ensures
            final(self).tracker@.valid(),
            final(self).heartbeat_sent == old(self).heartbeat_sent,
            final(self).last_heartbeat == old(self).last_heartbeat,
            exists|result: Result<ReplyState, dongle::Error>| #[trigger]
                old(self).dongle.polled(&final(self).dongle, result) && match result {
                    Ok(reply) => r is Ok && final(self).tracker@ == old(self).tracker@.observed(
                        reply.devices,
                        now,
                    ),
                    Err(error) => r == Err::<(), dongle::Error>(error) && final(self).tracker@
                        == old(self).tracker@,
                },
    {
        let ghost before = *self;
        let polled = self.dongle.poll();
        assert(before.dongle.polled(&self.dongle, dongle::as_state(polled)));
        match polled {
            Ok(reply) => {
                self.tracker.observe(&reply, now);
                Ok(())
            },
            Err(error) => Err(error),
        }
    }

    /// Sends the group's target if it is due, returning the duties sent.
    pub fn send_if_due(&mut self, mac: &[u8; 6], now: u128) -> (r: Result<
        Option<[u8; FANS_PER_GROUP]>,
        SendError,
    >)
        requires
            old(self).tracker@.valid(),
            old(self).tracker@.group(*mac) matches Some(group) ==> group.unacknowledged < u32::MAX,
        ensures
            final(self).tracker@.valid(),
            final(self).heartbeat_sent == old(self).heartbeat_sent,
            final(self).last_heartbeat == old(self).last_heartbeat,
            match old(self).tracker@.group(*mac) {
                None => r == Err::<Option<[u8; FANS_PER_GROUP]>, SendError>(SendError::Vanished)
                    && *final(self) == *old(self),
                Some(group) => if !group.is_due(now) {
                    r == Ok::<Option<[u8; FANS_PER_GROUP]>, SendError>(None) && *final(self)
                        == *old(self)
                } else {
                    let payload = speed::payload_bytes(
                        group.device,
                        old(self).dongle.master.master_mac,
                        old(self).dongle.channel,
                        old(self).tracker@.slot(*mac),
                        group.target->0,
                    );
                    match r {
                        Ok(sent) => {
                            &&& sent == group.target
                            &&& old(self).dongle.sent(
                                &final(self).dongle,
                                old(self).dongle.channel,
                                group.device.receiver,
                                payload,
                                Ok(()),
                            )
                            &&& final(self).tracker@ == old(self).tracker@.changed(
                                *mac,
                                |g: Group| groups::resent(g, now),
                            )
                        },
                        Err(SendError::Dongle(error)) => {
                            &&& old(self).dongle.sent(
                                &final(self).dongle,
                                old(self).dongle.channel,
                                group.device.receiver,
                                payload,
                                Err(error),
                            )
                            &&& final(self).tracker@ == old(self).tracker@
                        },
                        Err(SendError::Vanished) => false,
                    }
                },
            },
    {
        let group = match self.tracker.group(mac) {
            Some(group) => *group,
            None => {
                return Err(SendError::Vanished);
            },
        };
        if !group.due(now) {
            return Ok(None);
        }
        let target = match group.target {
            Some(target) => target,
            None => {
                return Ok(None);
            },
        };
        let device = group.device;
        let slot: u8 = self.tracker.slot(mac);
        let payload = speed::payload(
            &device,
            &self.dongle.master.master_mac,
            self.dongle.channel,
            slot,
            target,
        );
        let outcome = self.dongle.send(device.receiver, &payload);
        match outcome {
            Ok(unit) => {
                self.tracker.sent(mac, now);
                assert(unit == ());
                Ok(Some(target))
            },
            Err(error) => Err(SendError::Dongle(error)),
        }
    }

    /// Sets a target on a group and says what is about to be sent.
    pub fn aim(&mut self, mac: &[u8; 6], wanted: [u8; FANS_PER_GROUP], what: &str) -> (r: Result<
        String,
        String,
    >)
        requires
            old(self).tracker@.valid(),
        ensures
            final(self).tracker@.valid(),
            final(self).dongle == old(self).dongle,
            final(self).heartbeat_sent == old(self).heartbeat_sent,
            final(self).last_heartbeat == old(self).last_heartbeat,
            final(self).tracker@ == old(self).tracker@.changed(
                *mac,
                |g: Group| groups::aimed(g, speed::prepared(g.device, wanted)),
            ),
            match old(self).tracker@.group(*mac) {
                Some(group) => r matches Ok(line) && line@ == what@ + ": sending "@ + text::list_of(
                    speed::prepared(group.device, wanted)@,
                ) + " to slot "@ + text::decimal_of(final(self).tracker@.slot(*mac) as nat),
                None => r matches Err(message) && message@ == "group "@ + text::mac_of(*mac)
                    + " unknown"@,
            },
    {
        match self.tracker.set_target(mac, wanted) {
            None => Err(
                text::owned("group ").concat(text::mac(mac).as_str()).concat(" unknown"),
            ),
            Some(prepared) => {
                let slot: u8 = self.tracker.slot(mac);
                Ok(
                    text::owned(what).concat(": sending ").concat(
                        text::list(&prepared).as_str(),
                    ).concat(" to slot ").concat(text::decimal(slot as u64).as_str()),
                )
            },
        }
    }
}

/// What a poll came to while an acknowledgement is awaited.
#[derive(Debug, Clone, PartialEq, Eq)]
pub enum Awaited {
    /// The group reports the target applied; this is said of it.
    Applied(String),
    /// It does not yet.
    Again,
}

/// What is said of a target that is seen applied after some polls.
pub open spec fn applied_of(group: Group, what: Seq<char>, polls: u32) -> Seq<char> {
    let n = model::said_count(group.device.fan_count);
    what + ": acknowledged after "@ + text::decimal_of(polls as nat) + " polls, duty "@
        + text::list_of(group.device.duty@.take(n)) + " rpm "@ + text::speeds_of(
        group.device.rpm@.take(n),
    )
}

/// What is said of a target that is not seen applied in time.
pub open spec fn unapplied_of(group: Group, what: Seq<char>) -> Seq<char> {
    what + ": not acknowledged within "@ + text::decimal_of((ACK_LIMIT / SECOND) as nat)
        + " s; group reports duty "@ + text::list_of(
        group.device.duty@.take(model::said_count(group.device.fan_count)),
    )
}

/// Whether this is what a poll came to, `elapsed` after the target was set:
/// the target is seen applied, or the time is up, or it is awaited further.
pub open spec fn is_awaited(
    r: Result<Awaited, String>,
    group: Option<Group>,
    what: Seq<char>,
    polls: u32,
    now: u128,
    elapsed: u128,
) -> bool {
    match group {
        None => r matches Err(message) && message@ == "group vanished"@,
        Some(group) => if group.is_acknowledged(now) {
            r matches Ok(Awaited::Applied(line)) && line@ == applied_of(group, what, polls)
        } else if elapsed >= ACK_LIMIT {
            r matches Err(message) && message@ == unapplied_of(group, what)
        } else {
            r == Ok::<Awaited, String>(Awaited::Again)
        },
    }
}

/// A group that may be known, as a value.
pub open spec fn known(group: Option<&Group>) -> Option<Group> {
    match group {
        Some(group) => Some(*group),
        None => None,
    }
}

/// What a poll came to, `elapsed` after the target was set, while an
/// acknowledgement is awaited.
pub fn awaited(group: Option<&Group>, what: &str, polls: u32, now: u128, elapsed: u128) -> (r:
    Result<Awaited, String>)
    ensures
        is_awaited(r, known(group), what@, polls, now, elapsed),
{
    let group = match group {
        Some(group) => group,
        None => {
            return Err(text::owned("group vanished"));
        },
    };
    let count: u8 = group.device.fan_count;
    if group.acknowledged(now) {
        return Ok(
            Awaited::Applied(
                text::owned(what).concat(": acknowledged after ").concat(
                    text::decimal(polls as u64).as_str(),
                ).concat(" polls, duty ").concat(
                    text::list(&fans(&group.device.duty, count)).as_str(),
                ).concat(" rpm ").concat(text::speeds(&fans(&group.device.rpm, count)).as_str()),
            ),
        );
    }
    if elapsed >= ACK_LIMIT {
        return Err(
            text::owned(what).concat(": not acknowledged within ").concat(
                text::decimal((ACK_LIMIT / SECOND) as u64).as_str(),
            ).concat(" s; group reports duty ").concat(
                text::list(&fans(&group.device.duty, count)).as_str(),
            ),
        );
    }
    Ok(Awaited::Again)
}

/// What is printed each second while a target is held.
pub open spec fn held_of(group: Group, now: u128, elapsed: u128) -> Seq<char> {
    let n = model::said_count(group.device.fan_count);
    "  +"@ + text::padded_of(text::decimal_of((elapsed / SECOND) as nat), 2) + "s duty "@
        + text::list_of(group.device.duty@.take(n)) + " rpm "@ + text::speeds_of(
        group.device.rpm@.take(n),
    ) + (if group.is_acknowledged(now) {
        ""@
    } else {
        " (not acknowledged)"@
    })
}

/// What is printed each second while a target is held, `elapsed` after the
/// hold began.
pub fn held_line(group: Option<&Group>, now: u128, elapsed: u128) -> (r: Result<String, String>)
    requires
        elapsed / SECOND <= u64::MAX,
    ensures
        match known(group) {
            None => r matches Err(message) && message@ == "group vanished"@,
            Some(group) => r matches Ok(line) && line@ == held_of(group, now, elapsed),
        },
{
    let group = match group {
        Some(group) => group,
        None => {
            return Err(text::owned("group vanished"));
        },
    };
    let count: u8 = group.device.fan_count;
    let note = if group.acknowledged(now) {
        ""
    } else {
        " (not acknowledged)"
    };
    Ok(
        text::owned("  +").concat(
            text::padded((elapsed / SECOND) as u64, 2).as_str(),
        ).concat("s duty ").concat(text::list(&fans(&group.device.duty, count)).as_str()).concat(
            " rpm ",
        ).concat(text::speeds(&fans(&group.device.rpm, count)).as_str()).concat(note),
    )
}

/// A target that is set on a group until the group reports it applied, or the
/// limit passes.
pub struct Applying {
    /// What it is called.
    pub what: String,
    /// When it was set.
    pub started: u128,
    /// Polls made since.
    pub polls: u32,
}

impl Applying {
    /// A target that is set at `now`.
    pub fn new(what: &str, now: u128) -> (applying: Self)
        ensures
            applying.what@ == what@,
            applying.started == now,
            applying.polls == 0,
    {
        Applying { what: text::owned(what), started: now, polls: 0 }
    }

    /// What one more poll came to, after which the group is known as `group`.
    pub fn polled(&mut self, group: Option<&Group>, now: u128) -> (r: Result<Awaited, String>)
        requires
            old(self).polls < u32::MAX,
        ensures
            final(self).what@ == old(self).what@,
            final(self).started == old(self).started,
            final(self).polls == old(self).polls + 1,
            is_awaited(
                r,
                known(group),
                old(self).what@,
                final(self).polls,
                now,
                time::passed(now, old(self).started) as u128,
            ),
    {
        self.polls = self.polls + 1;
        awaited(group, self.what.as_str(), self.polls, now, since(now, self.started))
    }
}

/// A target that is held for a while.
#[derive(Debug, Clone, Copy, PartialEq, Eq)]
pub struct Holding {
    /// Since when.
    pub started: u128,
    /// How long.
    pub hold: u128,
}

impl Holding {
    /// What one more poll came to: what is said of the group, and whether the
    /// target was held long enough.
    pub fn polled(&self, group: Option<&Group>, now: u128) -> (r: Result<(String, bool), String>)
        requires
            time::passed(now, self.started) / (SECOND as int) <= u64::MAX,
        ensures
            match known(group) {
                None => r matches Err(message) && message@ == "group vanished"@,
                Some(group) => r matches Ok((line, over)) && line@ == held_of(
                    group,
                    now,
                    time::passed(now, self.started) as u128,
                ) && over == (time::passed(now, self.started) >= self.hold),
            },
    {
        let elapsed: u128 = since(now, self.started);
        match held_line(group, now, elapsed) {
            Ok(line) => Ok((line, elapsed >= self.hold)),
            Err(message) => Err(message),
        }
    }
}

/// What a set comes to: what went wrong while the duty was held, or else what
/// restoring the previous one came to.
pub fn set_outcome(held: Result<(), String>, restored: Result<(), String>) -> (r: Result<
    (),
    String,
>)
    ensures
        r == match held {
            Ok(_) => restored,
            Err(_) => held,
        },
{
    match held {
        Ok(_) => restored,
        Err(message) => Err(message),
    }
}

/// An acknowledgement is not awaited for ever: once the limit has passed,
/// every poll ends the wait.
pub proof fn a_wait_ends(
    r: Result<Awaited, String>,
    group: Option<Group>,
    what: Seq<char>,
    polls: u32,
    now: u128,
    elapsed: u128,
)
    requires
        is_awaited(r, group, what, polls, now, elapsed),
        elapsed >= ACK_LIMIT,
    ensures
        r != Ok::<Awaited, String>(Awaited::Again),
{
}

} // verus!
