//! A run of the loop from the console: how long it lasts, what is typed
//! meanwhile, and when its status is shown.

use crate::engine::Snapshot;
use crate::model::{GroupState, SnapshotState};
use crate::probe;
use crate::probe::{
    group_status_line, read_typed, resolve, status_line, RunOptions, Typed, TypedState,
};
use crate::text;
use crate::time;
use crate::time::{since, SECOND};
use vstd::prelude::*;

verus! {

/// A run that was started.
#[derive(Debug, Clone, Copy, PartialEq, Eq)]
pub struct Run {
    /// When it started.
    pub started: u128,
    /// How long it lasts.
    pub length: u128,
    /// How long between status blocks.
    pub every: u128,
    /// When the last status block was shown.
    pub last_status: Option<u128>,
    /// Whether it was told to stop.
    pub quit: bool,
}

/// The status block: a line for the run, then one for each group.
pub open spec fn block_of(snapshot: SnapshotState, elapsed: u128) -> Seq<Seq<char>> {
    seq![probe::status_of(snapshot, elapsed)] + snapshot.groups.map_values(
        |g: GroupState| probe::group_status_of(g),
    )
}

/// The status block: a line for the run, then one for each group.
pub fn status_block(snapshot: &Snapshot, elapsed: u128) -> (lines: Vec<String>)
    requires
        elapsed / SECOND <= u64::MAX,
    ensures
        text::texts(lines@) == block_of(snapshot@, elapsed),
{
    let mut lines: Vec<String> = Vec::new();
    lines.push(status_line(snapshot, elapsed));
    let ghost all = block_of(snapshot@, elapsed);
    let mut i: usize = 0;
    assert(text::texts(lines@) =~= all.take(1));
    while i < snapshot.groups.len()
        invariant
            0 <= i <= snapshot.groups.len(),
            all == block_of(snapshot@, elapsed),
            text::texts(lines@) == all.take(i + 1),
        decreases snapshot.groups.len() - i,
    {
        let ghost before = text::texts(lines@);
        lines.push(group_status_line(&snapshot.groups[i]));
        assert(text::texts(lines@) =~= before.push(all[i + 1]));
        assert(text::texts(lines@) =~= all.take(i + 2));
        i += 1;
    }
    assert(all.take(i + 1) =~= all);
    lines
}

impl Run {
    /// Whether the run goes on.
    pub open spec fn is_going(self, now: u128) -> bool {
        time::passed(now, self.started) < self.length && !self.quit
    }

    /// Whether a status block is to be shown: there was none yet, or the last
    /// was long enough ago.
    pub open spec fn is_status_due(self, now: u128) -> bool {
        self.last_status matches Some(last) ==> time::passed(now, last) >= self.every
    }

    /// A run that started at `now`.
    pub fn new(options: &RunOptions, now: u128) -> (run: Self)
        ensures
            run == (Run {
                started: now,
                length: options.length,
                every: options.every,
                last_status: None,
                quit: false,
            }),
    {
        Run {
            started: now,
            length: options.length,
            every: options.every,
            last_status: None,
            quit: false,
        }
    }

    /// Whether the run goes on.
    pub fn goes_on(&self, now: u128) -> (r: bool)
        ensures
            r == self.is_going(now),
    {
        since(now, self.started) < self.length && !self.quit
    }

    /// Takes in a line that was typed.
    pub fn typed(&mut self, snapshot: &Snapshot, line: &str) -> (r: Typed)
        ensures
            r@ == probe::typed_of(probe::macs_in(snapshot@), line@),
            *final(self) == (Run { quit: old(self).quit || r is Quit, ..*old(self) }),
    {
        let r = read_typed(snapshot, line);
        if let Typed::Quit = r {
            self.quit = true;
        }
        r
    }

    /// The status block, where one is to be shown.
    pub fn status(&mut self, snapshot: &Snapshot, now: u128) -> (lines: Option<Vec<String>>)
        requires
            time::passed(now, old(self).started) / (SECOND as int) <= u64::MAX,
        ensures
            if old(self).is_status_due(now) {
                &&& lines matches Some(lines) && text::texts(lines@) == block_of(
                    snapshot@,
                    time::passed(now, old(self).started) as u128,
                )
                &&& *final(self) == (Run { last_status: Some(now), ..*old(self) })
            } else {
                lines is None && *final(self) == *old(self)
            },
    {
        if let Some(last) = self.last_status {
            if since(now, last) < self.every {
                return None;
            }
        }
        self.last_status = Some(now);
        Some(status_block(snapshot, since(now, self.started)))
    }
}

/// What is asked of one group at the start of a run.
pub open spec fn first_ask(macs: Seq<[u8; 6]>, prefix: Seq<char>, percent: u8) -> TypedState {
    match probe::resolved(macs, prefix, "group"@) {
        Ok(mac) => TypedState::Ask(mac, percent),
        Err(message) => TypedState::Say(message),
    }
}

/// What is asked of one group at the start of a run: a percentage, or what is
/// said where its address names none.
pub fn first_asked(first: &Snapshot, prefix: &str, percent: u8) -> (r: Typed)
    ensures
        r@ == first_ask(probe::macs_in(first@), prefix@, percent),
{
    match resolve(first, prefix) {
        Ok(mac) => Typed::Ask(mac, percent),
        Err(message) => Typed::Say(message),
    }
}

/// What is said before the targets are confirmed that a run ends with.
pub fn closing_line(leave: bool) -> (r: &'static str)
    ensures
        r@ == if leave {
            "confirming the last targets"@
        } else {
            "putting the groups back"@
        },
{
    if leave {
        "confirming the last targets"
    } else {
        "putting the groups back"
    }
}

/// A run that was told to stop does not go on, and none lasts longer than
/// asked.
pub proof fn a_run_ends(run: Run, now: u128)
    ensures
        run.quit ==> !run.is_going(now),
        now >= run.started + run.length ==> !run.is_going(now),
{
}

} // verus!
