//! The C interface: the layouts and codes that a host written in another
//! language sees, and what each call answers.
//!
//! Every call returns 0 on success or a negative code and leaves a
//! description of the last failure. Handles come from opening and go back
//! through closing, after which the groups keep their last duty. The layouts
//! here are fixed.

use crate::dongle;
use crate::engine::Snapshot;
use crate::model::{GroupState, SnapshotState};
use crate::process::LCONNECT_SERVICE;
use crate::text;
use crate::win::WinError;
use std::collections::VecDeque;
use vstd::prelude::*;
use vstd::string::StringSliceAdditionalSpecFns;
use vstd::utf8::is_char_boundary;

verus! {

/// Version of this interface's layouts and codes.
pub const ABI_VERSION: u32 = 1;

/// Most groups a state can carry.
pub const MAX_GROUPS: usize = 16;

/// Most log lines kept for the host between reads.
pub const LOG_CAPACITY: usize = 1000;

/// Bytes in a [`State`] as the caller lays it out.
pub const STATE_SIZE: u32 = 560;

/// Success.
pub const OK: i32 = 0;

/// A pointer was null or a value out of range.
pub const ERR_ARGUMENT: i32 = -1;

/// The dongle could not be found, opened or connected.
pub const ERR_DONGLE: i32 = -2;

/// The L-Connect service is running and holds the dongle.
pub const ERR_LCONNECT: i32 = -3;

/// A panic was caught inside the call.
pub const ERR_PANIC: i32 = -4;

/// The caller's buffer or structure is too small.
pub const ERR_SIZE: i32 = -5;

/// The Windows call that lists processes failed.
pub const ERR_WINDOWS: i32 = -6;

/// One group in a [`State`].
#[derive(Debug, Clone, Copy, PartialEq, Eq)]
pub struct Group {
    /// Address of the group's receiver.
    pub mac: [u8; 6],
    /// Receiver type.
    pub receiver: u8,
    /// Fans attached.
    pub fan_count: u8,
    /// Model byte of the first fan.
    pub model: u8,
    /// 1 when the group has been heard recently.
    pub online: u8,
    /// 1 when the receiver reports the target applied.
    pub acknowledged: u8,
    /// 1 when a target has been set.
    pub has_target: u8,
    /// Sends of the target since it was last seen applied.
    pub unacknowledged: u32,
    /// Speed of each fan.
    pub rpm: [u16; 4],
    /// Duty the receiver reports for each fan.
    pub duty: [u8; 4],
    /// Duties last sent.
    pub target: [u8; 4],
}

/// A group that is not there.
pub open spec fn no_group() -> Group {
    Group {
        mac: [0u8, 0u8, 0u8, 0u8, 0u8, 0u8],
        receiver: 0,
        fan_count: 0,
        model: 0,
        online: 0,
        acknowledged: 0,
        has_target: 0,
        unacknowledged: 0,
        rpm: [0u16, 0u16, 0u16, 0u16],
        duty: [0u8, 0u8, 0u8, 0u8],
        target: [0u8, 0u8, 0u8, 0u8],
    }
}

impl Default for Group {
    fn default() -> (r: Self)
        ensures
            r == no_group(),
    {
        Group {
            mac: [0u8, 0u8, 0u8, 0u8, 0u8, 0u8],
            receiver: 0,
            fan_count: 0,
            model: 0,
            online: 0,
            acknowledged: 0,
            has_target: 0,
            unacknowledged: 0,
            rpm: [0u16, 0u16, 0u16, 0u16],
            duty: [0u8, 0u8, 0u8, 0u8],
            target: [0u8, 0u8, 0u8, 0u8],
        }
    }
}

/// What the engine knows, laid out for a foreign caller.
#[derive(Debug, Clone, Copy, PartialEq, Eq)]
pub struct State {
    /// Bytes in this structure, set by the caller before reading.
    pub size: u32,
    /// [`ABI_VERSION`] of the library that filled it.
    pub version: u32,
    /// The dongle's address.
    pub master_mac: [u8; 6],
    /// The dongle's channel.
    pub channel: u8,
    /// 1 while the failsafe is in force.
    pub alarm: u8,
    /// Ticks run so far.
    pub ticks: u64,
    /// Polls that succeeded.
    pub polls: u64,
    /// Polls that failed.
    pub poll_failures: u64,
    /// Groups filled in below.
    pub group_count: u32,
    /// Fan groups bound to the dongle, in slot order.
    pub groups: [Group; MAX_GROUPS],
}

/// A yes as 1, a no as 0.
pub open spec fn flag_of(yes: bool) -> u8 {
    if yes {
        1
    } else {
        0
    }
}

fn flag(yes: bool) -> (r: u8)
    ensures
        r == flag_of(yes),
{
    if yes {
        1
    } else {
        0
    }
}

/// A group of a snapshot, laid out for the caller.
pub open spec fn group_of(g: GroupState) -> Group {
    Group {
        mac: g.mac,
        receiver: g.receiver,
        fan_count: g.fan_count,
        model: g.model,
        online: flag_of(g.online),
        acknowledged: flag_of(g.acknowledged),
        has_target: flag_of(g.target is Some),
        unacknowledged: g.unacknowledged,
        rpm: g.rpm,
        duty: g.duty,
        target: match g.target {
            Some(target) => target,
            None => [0u8, 0u8, 0u8, 0u8],
        },
    }
}

/// Whether a state says what a snapshot does, of its first [`MAX_GROUPS`]
/// groups; the places behind them are empty.
pub open spec fn tells(state: State, snapshot: SnapshotState) -> bool {
    let count: int = if snapshot.groups.len() < MAX_GROUPS {
        snapshot.groups.len() as int
    } else {
        MAX_GROUPS as int
    };
    &&& state.size == STATE_SIZE
    &&& state.version == ABI_VERSION
    &&& state.master_mac == snapshot.master_mac
    &&& state.channel == snapshot.channel
    &&& state.alarm == flag_of(snapshot.alarm is Some)
    &&& state.ticks == snapshot.ticks
    &&& state.polls == snapshot.polls
    &&& state.poll_failures == snapshot.poll_failures
    &&& state.group_count == count
    &&& forall|i: int|
        0 <= i < MAX_GROUPS ==> #[trigger] state.groups[i] == if i < count {
            group_of(snapshot.groups[i])
        } else {
            no_group()
        }
}

impl State {
    /// What a snapshot says, laid out for the caller.
    pub fn from(snapshot: &Snapshot) -> (state: Self)
        ensures
            tells(state, snapshot@),
    {
        let mut groups = [Group::default(); MAX_GROUPS];
        let count: usize = if snapshot.groups.len() < MAX_GROUPS {
            snapshot.groups.len()
        } else {
            MAX_GROUPS
        };
        let mut i: usize = 0;
        while i < count
            invariant
                0 <= i <= count <= MAX_GROUPS,
                count <= snapshot.groups.len(),
                forall|k: int|
                    0 <= k < MAX_GROUPS ==> #[trigger] groups[k] == if k < i {
                        group_of(snapshot.groups@[k])
                    } else {
                        no_group()
                    },
            decreases count - i,
        {
            let g = snapshot.groups[i];
            groups[i] =
            Group {
                mac: g.mac,
                receiver: g.receiver,
                fan_count: g.fan_count,
                model: g.model,
                online: flag(g.online),
                acknowledged: flag(g.acknowledged),
                has_target: flag(g.target.is_some()),
                unacknowledged: g.unacknowledged,
                rpm: g.rpm,
                duty: g.duty,
                target: match g.target {
                    Some(target) => target,
                    None => [0u8, 0u8, 0u8, 0u8],
                },
            };
            i += 1;
        }
        State {
            size: STATE_SIZE,
            version: ABI_VERSION,
            master_mac: snapshot.master_mac,
            channel: snapshot.channel,
            alarm: flag(snapshot.alarm.is_some()),
            ticks: snapshot.ticks,
            polls: snapshot.polls,
            poll_failures: snapshot.poll_failures,
            group_count: count as u32,
            groups,
        }
    }
}

/// The version of this interface.
pub fn lianli_version() -> (r: u32)
    ensures
        r == ABI_VERSION,
{
    ABI_VERSION
}

/// The log lines kept for the host.
pub struct HostLog {
    lines: VecDeque<String>,
}

/// A log with one more line: the oldest goes where the log is full.
pub open spec fn kept_with(lines: Seq<Seq<char>>, line: Seq<char>) -> Seq<Seq<char>> {
    if lines.len() >= LOG_CAPACITY {
        lines.skip(1).push(line)
    } else {
        lines.push(line)
    }
}

impl View for HostLog {
    type V = Seq<Seq<char>>;

    closed spec fn view(&self) -> Seq<Seq<char>> {
        text::texts(self.lines@)
    }
}

impl HostLog {
    /// A log without lines.
    pub fn new() -> (log: Self)
        ensures
            log@ == Seq::<Seq<char>>::empty(),
    {
        let log = HostLog { lines: VecDeque::new() };
        assert(log@ =~= Seq::<Seq<char>>::empty());
        log
    }

    /// Keeps a line, dropping the oldest where the log is full.
    pub fn push(&mut self, line: &str)
        ensures
            final(self)@ == kept_with(old(self)@, line@),
    {
        let ghost before = self.lines@;
        if self.lines.len() >= LOG_CAPACITY {
            self.lines.pop_front();
            assert(self.lines@ =~= before.skip(1));
        }
        self.lines.push_back(text::owned(line));
        assert(self@ =~= kept_with(old(self)@, line@));
    }

    /// Takes the oldest line.
    pub fn take(&mut self) -> (line: Option<String>)
        ensures
            old(self)@.len() == 0 ==> line is None && final(self)@ == old(self)@,
            old(self)@.len() > 0 ==> {
                &&& line matches Some(line) && line@ == old(self)@[0]
                &&& final(self)@ == old(self)@.skip(1)
            },
    {
        let ghost before = self.lines@;
        let line = self.lines.pop_front();
        proof {
            if before.len() > 0 {
                assert(self.lines@ =~= before.skip(1));
                assert(self@ =~= old(self)@.skip(1));
            }
        }
        line
    }
}

/// The last character boundary at or before `n`.
pub open spec fn boundary_before(bytes: Seq<u8>, n: int) -> int
    decreases n,
{
    if n <= 0 || is_char_boundary(bytes, n) {
        n
    } else {
        boundary_before(bytes, n - 1)
    }
}

/// The bytes of a text that go into a buffer of `length` bytes with a NUL
/// behind them: all, or as many as fit up to a character boundary.
pub open spec fn cut(bytes: Seq<u8>, length: nat) -> Seq<u8> {
    bytes.take(
        boundary_before(
            bytes,
            if bytes.len() < length {
                bytes.len() as int
            } else {
                length - 1
            },
        ),
    )
}

/// The bytes of a text that go into a buffer of `length` bytes with a NUL
/// behind them.
pub fn fitting(text: &str, length: usize) -> (bytes: Vec<u8>)
    requires
        length > 0,
    ensures
        bytes@ == cut(text.spec_bytes(), length as nat),
        bytes.len() < length,
{
    let all = text.as_bytes();
    let mut end: usize = if all.len() < length {
        all.len()
    } else {
        length - 1
    };
    let ghost start = end as int;
    while end > 0 && !text.is_char_boundary(end)
        invariant
            0 <= end <= start < length,
            end <= all@.len(),
            all@ == text.spec_bytes(),
            boundary_before(text.spec_bytes(), start) == boundary_before(
                text.spec_bytes(),
                end as int,
            ),
        decreases end,
    {
        end -= 1;
    }
    let part = vstd::slice::slice_subrange(all, 0, end);
    assert(part@ =~= text.spec_bytes().take(end as int));
    vstd::slice::slice_to_vec(part)
}

/// A call that is refused: its code, and what is said of it.
pub struct Refusal {
    pub code: i32,
    pub message: String,
}

impl Refusal {
    /// Whether this is the refusal with a code and a message.
    pub open spec fn says(&self, code: i32, message: Seq<char>) -> bool {
        self.code == code && self.message@ == message
    }
}

fn refuse(code: i32, message: &str) -> (r: Refusal)
    ensures
        r.says(code, message@),
{
    Refusal { code, message: text::owned(message) }
}

/// What opening answers to its argument.
pub fn open_argument(out_is_null: bool) -> (r: Result<(), Refusal>)
    ensures
        r is Ok <==> !out_is_null,
        r matches Err(refusal) ==> refusal.says(ERR_ARGUMENT, "open: out is null"@),
{
    if out_is_null {
        Err(refuse(ERR_ARGUMENT, "open: out is null"))
    } else {
        Ok(())
    }
}

/// What opening answers to whether the L-Connect service runs; `message` is
/// the system's description of an error code.
pub fn open_service(running: Result<bool, WinError>, message: &str) -> (r: Result<(), Refusal>)
    ensures
        match running {
            Ok(true) => r matches Err(refusal) && refusal.says(
                ERR_LCONNECT,
                LCONNECT_SERVICE@ + " is running and owns the dongle"@,
            ),
            Ok(false) => r is Ok,
            Err(error) => r matches Err(refusal) && refusal.says(
                ERR_WINDOWS,
                error.text_of(message@),
            ),
        },
{
    match running {
        Ok(true) => Err(
            Refusal {
                code: ERR_LCONNECT,
                message: text::owned(LCONNECT_SERVICE).concat(" is running and owns the dongle"),
            },
        ),
        Ok(false) => Ok(()),
        Err(error) => Err(Refusal { code: ERR_WINDOWS, message: error.text(message) }),
    }
}

/// What opening answers where the dongle could not be opened.
pub fn open_failed(error: &dongle::Error, message: &str) -> (r: Refusal)
    ensures
        r.says(ERR_DONGLE, error.text_of(message@)),
{
    Refusal { code: ERR_DONGLE, message: error.text(message) }
}

/// What closing answers to its argument.
pub fn close_argument(handle_is_null: bool) -> (r: Result<(), Refusal>)
    ensures
        r is Ok <==> !handle_is_null,
        r matches Err(refusal) ==> refusal.says(ERR_ARGUMENT, "close: handle is null"@),
{
    if handle_is_null {
        Err(refuse(ERR_ARGUMENT, "close: handle is null"))
    } else {
        Ok(())
    }
}

/// What setting a percentage answers to its arguments.
pub fn set_percent_arguments(any_is_null: bool, percent: u8) -> (r: Result<(), Refusal>)
    ensures
        r is Ok <==> !any_is_null && percent <= 100,
        r matches Err(refusal) ==> refusal.says(
            ERR_ARGUMENT,
            if any_is_null {
                "set_percent: handle or mac is null"@
            } else {
                "set_percent: "@ + text::decimal_of(percent as nat) + " is over 100"@
            },
        ),
{
    if any_is_null {
        Err(refuse(ERR_ARGUMENT, "set_percent: handle or mac is null"))
    } else if percent > 100 {
        Err(
            Refusal {
                code: ERR_ARGUMENT,
                message: text::owned("set_percent: ").concat(
                    text::decimal(percent as u64).as_str(),
                ).concat(" is over 100"),
            },
        )
    } else {
        Ok(())
    }
}

/// What clearing a group answers to its arguments.
pub fn clear_arguments(any_is_null: bool) -> (r: Result<(), Refusal>)
    ensures
        r is Ok <==> !any_is_null,
        r matches Err(refusal) ==> refusal.says(ERR_ARGUMENT, "clear: handle or mac is null"@),
{
    if any_is_null {
        Err(refuse(ERR_ARGUMENT, "clear: handle or mac is null"))
    } else {
        Ok(())
    }
}

/// What reading the state answers to its pointers.
pub fn read_state_arguments(any_is_null: bool) -> (r: Result<(), Refusal>)
    ensures
        r is Ok <==> !any_is_null,
        r matches Err(refusal) ==> refusal.says(
            ERR_ARGUMENT,
            "read_state: handle or state is null"@,
        ),
{
    if any_is_null {
        Err(refuse(ERR_ARGUMENT, "read_state: handle or state is null"))
    } else {
        Ok(())
    }
}

/// What reading the state answers to the size the caller set: a structure
/// from an older layout is refused.
pub fn read_state_size(given: u32) -> (r: Result<(), Refusal>)
    ensures
        r is Ok <==> given >= STATE_SIZE,
        r matches Err(refusal) ==> refusal.says(
            ERR_SIZE,
            "read_state: state is "@ + text::decimal_of(given as nat)
                + " bytes, this library needs "@ + text::decimal_of(STATE_SIZE as nat),
        ),
{
    if given < STATE_SIZE {
        Err(
            Refusal {
                code: ERR_SIZE,
                message: text::owned("read_state: state is ").concat(
                    text::decimal(given as u64).as_str(),
                ).concat(" bytes, this library needs ").concat(
                    text::decimal(STATE_SIZE as u64).as_str(),
                ),
            },
        )
    } else {
        Ok(())
    }
}

/// What taking a log line answers to its arguments.
pub fn take_log_arguments(any_is_null: bool, length: usize) -> (r: Result<(), Refusal>)
    ensures
        r is Ok <==> !any_is_null && length > 0,
        r matches Err(refusal) ==> refusal.says(
            ERR_ARGUMENT,
            "take_log: handle or buffer is null, or length is 0"@,
        ),
{
    if any_is_null || length == 0 {
        Err(refuse(ERR_ARGUMENT, "take_log: handle or buffer is null, or length is 0"))
    } else {
        Ok(())
    }
}

/// What a call answers once its engine is stopped.
pub fn stopped(what: &str) -> (r: Refusal)
    ensures
        r.says(ERR_ARGUMENT, what@ + ": engine stopped"@),
{
    Refusal { code: ERR_ARGUMENT, message: text::owned(what).concat(": engine stopped") }
}

/// What a call answers where it panicked.
pub fn panicked(what: &str, panic: &str) -> (r: Refusal)
    ensures
        r.says(ERR_PANIC, what@ + ": "@ + panic@),
{
    Refusal { code: ERR_PANIC, message: text::owned(what).concat(": ").concat(panic) }
}

/// The log never holds more than its capacity, and keeps the newest lines:
/// after a line is kept it is the last, and what else is there was there
/// before, in its order.
pub proof fn the_log_keeps_the_newest(lines: Seq<Seq<char>>, line: Seq<char>)
    requires
        lines.len() <= LOG_CAPACITY,
    ensures
        kept_with(lines, line).len() <= LOG_CAPACITY,
        kept_with(lines, line).last() == line,
        lines.len() < LOG_CAPACITY ==> kept_with(lines, line).drop_last() == lines,
        lines.len() == LOG_CAPACITY ==> kept_with(lines, line).drop_last() == lines.skip(1),
{
    assert(lines.push(line).drop_last() =~= lines);
    assert(lines.skip(1).push(line).drop_last() =~= lines.skip(1));
}

/// A text that is cut is still text: the front of the characters.
pub proof fn a_cut_text_is_text(chars: Seq<char>, length: nat)
    requires
        length > 0,
    ensures
        ({
            let bytes = vstd::utf8::encode_utf8(chars);
            let kept = cut(bytes, length);
            &&& vstd::utf8::valid_utf8(kept)
            &&& kept.len() < length
            &&& bytes.len() < length ==> kept == bytes
        }),
{
    let bytes = vstd::utf8::encode_utf8(chars);
    vstd::utf8::encode_utf8_valid_utf8(chars);
    let n: int = if bytes.len() < length {
        bytes.len() as int
    } else {
        length - 1
    };
    let end = boundary_before(bytes, n);
    boundary_is_boundary(bytes, n);
    vstd::utf8::valid_utf8_split(bytes, end);
    assert(bytes.take(end) =~= bytes.subrange(0, end));
    vstd::utf8::is_char_boundary_start_end_of_seq(bytes);
    if bytes.len() < length {
        assert(bytes.take(end) =~= bytes);
    }
}

/// What is looked for backwards ends at a boundary.
pub proof fn boundary_is_boundary(bytes: Seq<u8>, n: int)
    requires
        vstd::utf8::valid_utf8(bytes),
        0 <= n <= bytes.len(),
    ensures
        is_char_boundary(bytes, boundary_before(bytes, n)),
        0 <= boundary_before(bytes, n) <= n,
    decreases n,
{
    if n > 0 && !is_char_boundary(bytes, n) {
        boundary_is_boundary(bytes, n - 1);
    }
}

} // verus!
