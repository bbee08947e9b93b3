//! What the loop says and what it holds back: the same failure is said once
//! and then counted, a group's target changes are said at most so often.

use crate::address;
use crate::text;
use crate::time;
use crate::time::since;
use vstd::prelude::*;

verus! {

/// Least time between two logged target changes on one group. Changes in
/// between are counted and mentioned on the next line.
pub const CHANGE_LOG_EVERY: u128 = 10_000_000_000;

/// Least time between two logged lines for the same failure text.
pub const REPEAT_LOG_EVERY: u128 = 60_000_000_000;

/// One kind of failure: when it was last said, and how often it came since.
#[verifier::ext_equal]
pub struct FailState {
    pub message: Seq<char>,
    pub logged_at: u128,
    pub held: u32,
}

/// A line, or none.
pub type Line = Option<Seq<char>>;

/// A failure said again, with the times it was held back.
pub open spec fn repeated_of(message: Seq<char>, count: u32) -> Seq<char> {
    message + " (repeated "@ + text::decimal_of(count as nat) + " times)"@
}

/// Where a failure's entry stands.
pub open spec fn entry_of(log: Seq<FailState>, message: Seq<char>) -> Option<int>
    decreases log.len(),
{
    if log.len() == 0 {
        None
    } else if log[0].message == message {
        Some(0)
    } else {
        match entry_of(log.skip(1), message) {
            Some(i) => Some(i + 1),
            None => None,
        }
    }
}

/// Whether a failure that was last said at `logged_at` may be said again.
pub open spec fn is_time(now: u128, logged_at: u128, every: u128) -> bool {
    time::passed(now, logged_at) >= every
}

/// The log after a failure, and what is said: the first of a kind is said at
/// once, the same again is counted and said with its count once the time is
/// up.
pub open spec fn failed(log: Seq<FailState>, message: Seq<char>, now: u128) -> (
    Seq<FailState>,
    Line,
) {
    match entry_of(log, message) {
        None => (log.push(FailState { message, logged_at: now, held: 0 }), Some(message)),
        Some(i) => {
            let held = (log[i].held + 1) as u32;
            if is_time(now, log[i].logged_at, REPEAT_LOG_EVERY) {
                (
                    log.update(i, FailState { logged_at: now, held: 0, ..log[i] }),
                    Some(repeated_of(log[i].message, held)),
                )
            } else {
                (log.update(i, FailState { held, ..log[i] }), None)
            }
        },
    }
}

/// The entries whose time is not up.
pub open spec fn still_held(log: Seq<FailState>, now: u128) -> Seq<FailState> {
    log.filter(|e: FailState| !is_time(now, e.logged_at, REPEAT_LOG_EVERY))
}

/// The lines for the entries whose time is up and that hold something back.
pub open spec fn overdue(log: Seq<FailState>, now: u128) -> Seq<Seq<char>> {
    log.filter(|e: FailState| is_time(now, e.logged_at, REPEAT_LOG_EVERY) && e.held > 0).map_values(
        |e: FailState| repeated_of(e.message, e.held),
    )
}

struct FailEntry {
    message: String,
    logged_at: u128,
    held: u32,
}

impl FailEntry {
    spec fn state(self) -> FailState {
        FailState { message: self.message@, logged_at: self.logged_at, held: self.held }
    }
}

/// The failures said lately.
pub struct FailLog {
    entries: Vec<FailEntry>,
}

impl View for FailLog {
    type V = Seq<FailState>;

    closed spec fn view(&self) -> Seq<FailState> {
        self.entries@.map_values(|e: FailEntry| e.state())
    }
}

/// An entry's place: the first with its message.
pub proof fn the_entry_is_the_first(log: Seq<FailState>, message: Seq<char>)
    ensures
        match entry_of(log, message) {
            Some(i) => 0 <= i < log.len() && log[i].message == message && (forall|k: int|
                0 <= k < i ==> log[k].message != message),
            None => forall|k: int| 0 <= k < log.len() ==> log[k].message != message,
        },
    decreases log.len(),
{
    if log.len() > 0 && log[0].message != message {
        let rest = log.skip(1);
        the_entry_is_the_first(rest, message);
        assert forall|k: int| 1 <= k < log.len() implies log[k] == rest[k - 1] by {}
    }
}

impl FailLog {
    /// A log that has said nothing.
    pub fn new() -> (log: Self)
        ensures
            log@ == Seq::<FailState>::empty(),
    {
        let log = FailLog { entries: Vec::new() };
        assert(log@ =~= Seq::<FailState>::empty());
        log
    }

    fn place(&self, message: &str) -> (r: Option<usize>)
        ensures
            match r {
                Some(i) => entry_of(self@, message@) == Some(i as int) && i < self.entries.len(),
                None => entry_of(self@, message@) is None,
            },
    {
        let owned = text::owned(message);
        let mut i: usize = 0;
        while i < self.entries.len()
            invariant
                0 <= i <= self.entries.len(),
                owned@ == message@,
                forall|k: int| 0 <= k < i ==> (#[trigger] self@[k]).message != message@,
            decreases self.entries.len() - i,
        {
            if self.entries[i].message == owned {
                proof {
                    the_entry_is_the_first(self@, message@);
                    assert(self@[i as int].message == message@);
                }
                return Some(i);
            }
            i += 1;
        }
        proof {
            the_entry_is_the_first(self@, message@);
        }
        None
    }

    /// Whether no failure is held back more often than `bound` times.
    pub fn held_within(&self, bound: u32) -> (r: bool)
        ensures
            r == forall|i: int| 0 <= i < self@.len() ==> (#[trigger] self@[i]).held <= bound,
    {
        let mut i: usize = 0;
        while i < self.entries.len()
            invariant
                0 <= i <= self.entries.len(),
                forall|k: int| 0 <= k < i ==> (#[trigger] self@[k]).held <= bound,
            decreases self.entries.len() - i,
        {
            assert(self@[i as int] == self.entries@[i as int].state());
            if self.entries[i].held > bound {
                return false;
            }
            i += 1;
        }
        true
    }

    /// Takes in a failure and says what to log of it.
    pub fn note(&mut self, message: &str, now: u128) -> (line: Option<String>)
        requires
            entry_of(old(self)@, message@) matches Some(i) ==> old(self)@[i].held < u32::MAX,
        ensures
            final(self)@ == failed(old(self)@, message@, now).0,
            match line {
                Some(line) => failed(old(self)@, message@, now).1 == Some(line@),
                None => failed(old(self)@, message@, now).1 is None,
            },
    {
        match self.place(message) {
            None => {
                self.entries.push(
                    FailEntry { message: text::owned(message), logged_at: now, held: 0 },
                );
                assert(self@ =~= failed(old(self)@, message@, now).0);
                Some(text::owned(message))
            },
            Some(i) => {
                proof {
                    the_entry_is_the_first(self@, message@);
                }
                let held: u32 = self.entries[i].held + 1;
                let logged_at: u128 = self.entries[i].logged_at;
                if since(now, logged_at) >= REPEAT_LOG_EVERY {
                    self.entries.set(
                        i,
                        FailEntry { message: text::owned(message), logged_at: now, held: 0 },
                    );
                    assert(self@ =~= failed(old(self)@, message@, now).0);
                    Some(repeated(message, held))
                } else {
                    self.entries.set(
                        i,
                        FailEntry { message: text::owned(message), logged_at, held },
                    );
                    assert(self@ =~= failed(old(self)@, message@, now).0);
                    None
                }
            },
        }
    }

    /// Gives the counts of failures held back whose time is up, and drops
    /// the kinds not seen for that long.
    pub fn flush(&mut self, now: u128) -> (lines: Vec<String>)
        ensures
            final(self)@ == still_held(old(self)@, now),
            text::texts(lines@) == overdue(old(self)@, now),
    {
        let ghost all = self@;
        let ghost stays = |e: FailState| !is_time(now, e.logged_at, REPEAT_LOG_EVERY);
        let ghost speaks = |e: FailState|
            is_time(now, e.logged_at, REPEAT_LOG_EVERY) && e.held > 0;
        let ghost line_of = |e: FailState| repeated_of(e.message, e.held);
        let mut kept: Vec<FailEntry> = Vec::new();
        let mut lines: Vec<String> = Vec::new();
        let mut i: usize = 0;
        proof {
            reveal(Seq::filter);
            assert(all.take(0) =~= Seq::<FailState>::empty());
        }
        while i < self.entries.len()
            invariant
                0 <= i <= self.entries.len(),
                self@ == all,
                all == old(self)@,
                stays == (|e: FailState| !is_time(now, e.logged_at, REPEAT_LOG_EVERY)),
                speaks == (|e: FailState|
                    is_time(now, e.logged_at, REPEAT_LOG_EVERY) && e.held > 0),
                line_of == (|e: FailState| repeated_of(e.message, e.held)),
                kept@.map_values(|e: FailEntry| e.state()) =~= all.take(i as int).filter(stays),
                text::texts(lines@) =~= all.take(i as int).filter(speaks).map_values(line_of),
            decreases self.entries.len() - i,
        {
            proof {
                assert(all.take(i + 1).drop_last() =~= all.take(i as int));
                assert(all[i as int] == self.entries@[i as int].state());
                reveal(Seq::filter);
            }
            let entry = &self.entries[i];
            if since(now, entry.logged_at) < REPEAT_LOG_EVERY {
                kept.push(
                    FailEntry {
                        message: entry.message.clone(),
                        logged_at: entry.logged_at,
                        held: entry.held,
                    },
                );
            } else if entry.held > 0 {
                let ghost said = text::texts(lines@);
                lines.push(repeated(entry.message.as_str(), entry.held));
                proof {
                    let speaking = all.take(i as int).filter(speaks);
                    assert(speaks(all[i as int]));
                    assert(all.take(i + 1).filter(speaks) =~= speaking.push(all[i as int]));
                    assert(line_of(all[i as int]) == lines@.last()@);
                    assert(text::texts(lines@) =~= said.push(line_of(all[i as int])));
                }
            }
            i += 1;
        }
        assert(all.take(i as int) =~= all);
        self.entries = kept;
        lines
    }
}

fn repeated(message: &str, count: u32) -> (r: String)
    ensures
        r@ == repeated_of(message@, count),
{
    text::owned(message).concat(" (repeated ").concat(text::decimal(count as u64).as_str()).concat(
        " times)",
    )
}

/// What the log has said about one group's target, and what it has not
/// said yet.
#[verifier::ext_equal]
pub struct ChangeState {
    pub mac: [u8; 6],
    pub logged_at: u128,
    pub held: u32,
    pub pending: Line,
}

/// The addresses that have entries.
pub open spec fn macs_of(log: Seq<ChangeState>) -> Seq<[u8; 6]> {
    log.map_values(|e: ChangeState| e.mac)
}

/// A group's entry.
pub open spec fn entry_for(log: Seq<ChangeState>, mac: [u8; 6]) -> Option<ChangeState> {
    match address::place_of(macs_of(log), mac) {
        Some(i) => Some(log[i]),
        None => None,
    }
}

/// How many changes were left out before a line.
pub open spec fn suffix_of(held: u32) -> Seq<char> {
    if held == 0 {
        Seq::empty()
    } else if held == 1 {
        " (1 earlier change not logged)"@
    } else {
        " ("@ + text::decimal_of(held as nat) + " earlier changes not logged)"@
    }
}

/// The log after a target change, and what is said of it: at most one line
/// per group per [`CHANGE_LOG_EVERY`]. A change inside that time is held; the
/// next line says how many were held.
pub open spec fn changed(log: Seq<ChangeState>, mac: [u8; 6], line: Seq<char>, now: u128) -> (
    Seq<ChangeState>,
    Line,
) {
    match address::place_of(macs_of(log), mac) {
        None => (
            log.push(ChangeState { mac, logged_at: now, held: 0, pending: None }),
            Some(line + suffix_of(0)),
        ),
        Some(i) => if is_time(now, log[i].logged_at, CHANGE_LOG_EVERY) {
            (
                log.update(i, ChangeState { logged_at: now, held: 0, pending: None, ..log[i] }),
                Some(line + suffix_of(log[i].held)),
            )
        } else {
            (
                log.update(
                    i,
                    ChangeState {
                        held: (log[i].held + 1) as u32,
                        pending: Some(line),
                        ..log[i]
                    },
                ),
                None,
            )
        },
    }
}

/// Whether the last change held back is due to be said.
pub open spec fn is_overdue(entry: ChangeState, now: u128) -> bool {
    entry.pending is Some && is_time(now, entry.logged_at, CHANGE_LOG_EVERY)
}

/// The last change held back, as it is said: the ones before it are counted.
pub open spec fn last_line(entry: ChangeState) -> Seq<char> {
    entry.pending->0 + suffix_of(
        if entry.held == 0 {
            0
        } else {
            (entry.held - 1) as u32
        },
    )
}

/// An entry after a flush.
pub open spec fn flushed_entry(entry: ChangeState, now: u128) -> ChangeState {
    if is_overdue(entry, now) {
        ChangeState { logged_at: now, held: 0, pending: None, ..entry }
    } else {
        entry
    }
}

/// The log after a flush.
pub open spec fn flushed(log: Seq<ChangeState>, now: u128) -> Seq<ChangeState> {
    log.map_values(|e: ChangeState| flushed_entry(e, now))
}

/// What a flush says.
pub open spec fn last_lines(log: Seq<ChangeState>, now: u128) -> Seq<Seq<char>> {
    log.filter(|e: ChangeState| is_overdue(e, now)).map_values(|e: ChangeState| last_line(e))
}

/// A change on one group leaves the entries of the others as they are.
pub proof fn a_change_leaves_the_others(
    log: Seq<ChangeState>,
    mac: [u8; 6],
    line: Seq<char>,
    now: u128,
    other: [u8; 6],
)
    requires
        other != mac,
    ensures
        entry_for(changed(log, mac, line, now).0, other) == entry_for(log, other),
{
    let macs = macs_of(log);
    let later = macs_of(changed(log, mac, line, now).0);
    address::the_place_is_the_first(macs, mac);
    address::the_place_is_the_first(macs, other);
    address::the_place_is_the_first(later, other);
    match address::place_of(macs, mac) {
        None => {
            assert(later =~= macs.push(mac));
            if let Some(k) = address::place_of(macs, other) {
                assert forall|j: int| 0 <= j < k implies later[j] != other by {
                    assert(later[j] == macs[j]);
                }
                address::place_found(later, other, k);
            } else if later.contains(other) {
                let j = choose|j: int| 0 <= j < later.len() && later[j] == other;
                assert(macs[j] == other);
            }
        },
        Some(_) => {
            assert(later =~= macs);
        },
    }
}

struct ChangeEntry {
    mac: [u8; 6],
    logged_at: u128,
    held: u32,
    pending: Option<String>,
}

impl ChangeEntry {
    spec fn state(self) -> ChangeState {
        ChangeState {
            mac: self.mac,
            logged_at: self.logged_at,
            held: self.held,
            pending: match self.pending {
                Some(line) => Some(line@),
                None => None,
            },
        }
    }
}

/// The target changes said lately, by group.
pub struct ChangeLog {
    entries: Vec<ChangeEntry>,
}

impl View for ChangeLog {
    type V = Seq<ChangeState>;

    closed spec fn view(&self) -> Seq<ChangeState> {
        self.entries@.map_values(|e: ChangeEntry| e.state())
    }
}

fn held_suffix(held: u32) -> (r: String)
    ensures
        r@ == suffix_of(held),
{
    match held {
        0 => {
            let r = String::new();
            assert(r@ =~= suffix_of(0));
            r
        },
        1 => text::owned(" (1 earlier change not logged)"),
        n => text::owned(" (").concat(text::decimal(n as u64).as_str()).concat(
            " earlier changes not logged)",
        ),
    }
}

impl ChangeLog {
    /// A log that has said nothing.
    pub fn new() -> (log: Self)
        ensures
            log@ == Seq::<ChangeState>::empty(),
    {
        let log = ChangeLog { entries: Vec::new() };
        assert(log@ =~= Seq::<ChangeState>::empty());
        log
    }

    fn place(&self, mac: &[u8; 6]) -> (r: Option<usize>)
        ensures
            match r {
                Some(i) => address::place_of(macs_of(self@), *mac) == Some(i as int) && i
                    < self.entries.len() && self.entries@[i as int].mac == *mac,
                None => address::place_of(macs_of(self@), *mac) is None,
            },
    {
        let mut i: usize = 0;
        while i < self.entries.len()
            invariant
                0 <= i <= self.entries.len(),
                forall|k: int| 0 <= k < i ==> macs_of(self@)[k] != *mac,
            decreases self.entries.len() - i,
        {
            assert(macs_of(self@)[i as int] == self.entries@[i as int].mac);
            if crate::bytes::same(&self.entries[i].mac, mac) {
                proof {
                    address::place_found(macs_of(self@), *mac, i as int);
                }
                return Some(i);
            }
            i += 1;
        }
        proof {
            address::the_place_is_the_first(macs_of(self@), *mac);
        }
        None
    }

    /// Whether no group's changes are held back more often than `bound` times.
    pub fn held_within(&self, bound: u32) -> (r: bool)
        ensures
            r == forall|i: int| 0 <= i < self@.len() ==> (#[trigger] self@[i]).held <= bound,
    {
        let mut i: usize = 0;
        while i < self.entries.len()
            invariant
                0 <= i <= self.entries.len(),
                forall|k: int| 0 <= k < i ==> (#[trigger] self@[k]).held <= bound,
            decreases self.entries.len() - i,
        {
            assert(self@[i as int] == self.entries@[i as int].state());
            if self.entries[i].held > bound {
                return false;
            }
            i += 1;
        }
        true
    }

    /// Takes in a target change and says what to log of it.
    pub fn note(&mut self, mac: &[u8; 6], line: String, now: u128) -> (said: Option<String>)
        requires
            entry_for(old(self)@, *mac) matches Some(entry) ==> entry.held < u32::MAX,
        ensures
            final(self)@ == changed(old(self)@, *mac, line@, now).0,
            match said {
                Some(said) => changed(old(self)@, *mac, line@, now).1 == Some(said@),
                None => changed(old(self)@, *mac, line@, now).1 is None,
            },
    {
        match self.place(mac) {
            None => {
                self.entries.push(ChangeEntry { mac: *mac, logged_at: now, held: 0, pending: None });
                assert(self@ =~= changed(old(self)@, *mac, line@, now).0);
                Some(line.concat(held_suffix(0).as_str()))
            },
            Some(i) => {
                let logged_at: u128 = self.entries[i].logged_at;
                let held: u32 = self.entries[i].held;
                assert(self@[i as int] == self.entries@[i as int].state());
                if since(now, logged_at) < CHANGE_LOG_EVERY {
                    let ghost said = line@;
                    self.entries.set(
                        i,
                        ChangeEntry { mac: *mac, logged_at, held: held + 1, pending: Some(line) },
                    );
                    assert(self@ =~= changed(old(self)@, *mac, said, now).0);
                    None
                } else {
                    self.entries.set(
                        i,
                        ChangeEntry { mac: *mac, logged_at: now, held: 0, pending: None },
                    );
                    assert(self@ =~= changed(old(self)@, *mac, line@, now).0);
                    Some(line.concat(held_suffix(held).as_str()))
                }
            },
        }
    }

    /// Gives the last change held back on each group whose time is up.
    pub fn flush(&mut self, now: u128) -> (lines: Vec<String>)
        ensures
            final(self)@ == flushed(old(self)@, now),
            text::texts(lines@) == last_lines(old(self)@, now),
    {
        let ghost all = self@;
        let ghost speaks = |e: ChangeState| is_overdue(e, now);
        let ghost line_of = |e: ChangeState| last_line(e);
        let mut lines: Vec<String> = Vec::new();
        let mut i: usize = 0;
        proof {
            reveal(Seq::filter);
            assert(all.take(0) =~= Seq::<ChangeState>::empty());
        }
        while i < self.entries.len()
            invariant
                0 <= i <= self.entries.len(),
                self.entries@.len() == all.len(),
                all == old(self)@,
                speaks == (|e: ChangeState| is_overdue(e, now)),
                line_of == (|e: ChangeState| last_line(e)),
                self@ =~= flushed(all, now).take(i as int) + all.skip(i as int),
                text::texts(lines@) =~= all.take(i as int).filter(speaks).map_values(line_of),
            decreases self.entries.len() - i,
        {
            let ghost before = self@;
            proof {
                assert(all.take(i + 1).drop_last() =~= all.take(i as int));
                assert(before[i as int] == self.entries@[i as int].state());
                assert(all[i as int] == before[i as int]);
                reveal(Seq::filter);
            }
            let mac = self.entries[i].mac;
            let logged_at: u128 = self.entries[i].logged_at;
            let held: u32 = self.entries[i].held;
            let due = since(now, logged_at) >= CHANGE_LOG_EVERY;
            if due {
                let pending = match &self.entries[i].pending {
                    Some(line) => Some(line.clone()),
                    None => None,
                };
                if let Some(line) = pending {
                    let left: u32 = if held == 0 {
                        0
                    } else {
                        held - 1
                    };
                    self.entries.set(i, ChangeEntry { mac, logged_at: now, held: 0, pending: None });
                    assert(self@ =~= before.update(i as int, flushed_entry(all[i as int], now)));
                    let ghost said = text::texts(lines@);
                    lines.push(line.concat(held_suffix(left).as_str()));
                    proof {
                        let speaking = all.take(i as int).filter(speaks);
                        assert(speaks(all[i as int]));
                        assert(all.take(i + 1).filter(speaks) =~= speaking.push(all[i as int]));
                        assert(line_of(all[i as int]) == lines@.last()@);
                        assert(text::texts(lines@) =~= said.push(line_of(all[i as int])));
                    }
                }
            }
            i += 1;
        }
        assert(all.take(i as int) =~= all);
        lines
    }
}

/// Once a failure is said, the same text is not said again for a minute: an
/// entry that was said at `at` stays as it is through every failure and every
/// flush until then, and nothing is said of its text.
pub proof fn a_failure_is_said_once_a_minute(
    log: Seq<FailState>,
    message: Seq<char>,
    at: u128,
    other: Seq<char>,
    now: u128,
)
    requires
        entry_of(log, message) matches Some(i) && log[i].logged_at == at,
        !is_time(now, at, REPEAT_LOG_EVERY),
    ensures
        ({
            let (after, line) = failed(log, other, now);
            &&& entry_of(after, message) matches Some(i) && after[i].logged_at == at
            &&& other == message ==> line is None
        }),
        still_held(log, now).contains(log[entry_of(log, message)->0]),
{
    let i = entry_of(log, message)->0;
    the_entry_is_the_first(log, message);
    the_entry_is_the_first(log, other);
    let (after, line) = failed(log, other, now);
    assert(after[i].message == message);
    the_entry_is_the_first(after, message);
    assert forall|k: int| 0 <= k < i implies after[k].message != message by {
        assert(log[k].message != message);
    }
    crate::lists::filtered(log, |e: FailState| !is_time(now, e.logged_at, REPEAT_LOG_EVERY));
    assert(log.contains(log[i]));
}

/// A failure that is said has an entry with the time it was said.
pub proof fn a_said_failure_is_remembered(log: Seq<FailState>, message: Seq<char>, now: u128)
    requires
        failed(log, message, now).1 is Some,
    ensures
        entry_of(failed(log, message, now).0, message) matches Some(i) && failed(
            log,
            message,
            now,
        ).0[i].logged_at == now,
{
    the_entry_is_the_first(log, message);
    let after = failed(log, message, now).0;
    the_entry_is_the_first(after, message);
    match entry_of(log, message) {
        Some(i) => {
            assert(after[i].message == message);
            assert forall|k: int| 0 <= k < i implies after[k].message != message by {
                assert(log[k].message != message);
            }
        },
        None => {
            assert(after[log.len() as int].message == message);
            assert forall|k: int| 0 <= k < log.len() implies after[k].message != message by {
                assert(log[k].message != message);
            }
        },
    }
}

/// Within ten seconds of a line on a group's target, neither a change nor a
/// flush says anything more of that group; a change is held to be said then.
pub proof fn a_target_is_said_every_ten_seconds(
    log: Seq<ChangeState>,
    mac: [u8; 6],
    line: Seq<char>,
    now: u128,
)
    requires
        address::place_of(macs_of(log), mac) matches Some(i) && !is_time(
            now,
            log[i].logged_at,
            CHANGE_LOG_EVERY,
        ),
    ensures
        changed(log, mac, line, now).1 is None,
        ({
            let i = address::place_of(macs_of(log), mac)->0;
            let after = changed(log, mac, line, now).0;
            &&& after[i].logged_at == log[i].logged_at
            &&& after[i].pending == Some(line)
            &&& flushed(log, now)[i] == log[i]
        }),
{
    address::the_place_is_the_first(macs_of(log), mac);
}

} // verus!
