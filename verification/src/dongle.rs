//! The dongle pair as one thing: connect to the transmitter, poll the
//! receiver, send radio payloads.
//!
//! The sequences are written over a small port trait so they can be
//! exercised against scripted devices as well as real ones. A port keeps,
//! for proofs only, a trace of the calls made on it and of what came back.
//! What a sequence does is stated as a reading of that trace: from where it
//! stood before, the calls are the ones the sequence makes, each decided by
//! the outcomes before it, and the result is the one those outcomes give.

use crate::device;
use crate::device::TIMEOUT;
use crate::discovery;
use crate::discovery::{parse_reply, Reply, ReplyState};
use crate::enumerate;
use crate::enumerate::Role;
use crate::frame;
use crate::frame::{
    channel_scan, connect_attempts, connect_request, discovery_reply_len, discovery_request,
    pages_for, parse_connect_reply, rf_frames, ConnectReply, Frame, RfPayload, FRAME_LEN,
    RF_CHUNKS,
};
use crate::text;
use crate::win::WinError;
use vstd::prelude::*;

verus! {

/// How long to wait for the transmitter's answer to a connect request.
pub const CONNECT_WAIT: u128 = 500_000_000;

/// Tries on the known channel when reconnecting.
pub const RECONNECT_ATTEMPTS: u8 = 3;

/// How long to wait for the first piece of a discovery reply.
pub const REPLY_WAIT: u128 = 100_000_000;

/// How long a discovery reply may pause before it is taken as finished.
pub const REPLY_PAUSE: u128 = 10_000_000;

/// How long a flush waits for each stale frame.
pub const FLUSH_WAIT: u128 = 5_000_000;

/// Gap between the frames of one radio payload.
pub const CHUNK_GAP: u128 = 1_000_000;

/// A call made on a port, and what came back.
pub enum PortCall {
    /// A write of `frame`.
    Write { frame: Seq<u8>, timeout: u128, result: Result<usize, WinError> },
    /// A read into a buffer, which then held `buffer`.
    Read { buffer: Seq<u8>, timeout: u128, result: Result<usize, WinError> },
    /// A wait.
    Wait { gap: u128 },
}

/// Calls made on a port, oldest first.
pub type Trace = Seq<PortCall>;

/// Something frames can be written to and read from.
pub trait Port {
    /// The calls made so far. They are kept for proofs only.
    spec fn trace(&self) -> Trace;

    /// Writes one frame, returning how many bytes went out.
    fn write(&mut self, frame: &[u8], timeout: u128) -> (r: Result<usize, WinError>)
        ensures
            final(self).trace() == old(self).trace().push(
                PortCall::Write { frame: frame@, timeout, result: r },
            ),
    ;

    /// Reads what is waiting, returning 0 when nothing arrives in time.
    fn read(&mut self, buffer: &mut [u8], timeout: u128) -> (r: Result<usize, WinError>)
        ensures
            final(buffer)@.len() == old(buffer)@.len(),
            r matches Ok(n) ==> n <= old(buffer)@.len(),
            final(self).trace() == old(self).trace().push(
                PortCall::Read { buffer: final(buffer)@, timeout, result: r },
            ),
    ;

    /// Lets `gap` pass.
    fn wait(&mut self, gap: u128)
        ensures
            final(self).trace() == old(self).trace().push(PortCall::Wait { gap }),
    ;
}

/// Why the dongle could not do what was asked.
#[derive(Debug, Clone, Copy, PartialEq, Eq)]
pub enum Error {
    /// The dongles are not both attached.
    Find(enumerate::Error),
    /// One dongle would not open.
    Open(Role, device::Error),
    /// A transfer failed.
    Transfer(Role, WinError),
    /// No channel produced a valid connect reply.
    NoMaster,
    /// A frame went out short.
    ShortWrite(Role, usize),
    /// The receiver's reply could not be read.
    Reply(discovery::Error),
    /// The handles were given up for a reopen that then failed.
    Closed,
}

impl Error {
    /// The error code of Windows in it, where there is one.
    pub open spec fn code_of(self) -> Option<u32> {
        match self {
            Error::Find(error) => error.code_of(),
            Error::Open(_, error) => error.code_of(),
            Error::Transfer(_, error) => Some(error.code),
            _ => None,
        }
    }

    /// The error as text, where the system describes its code as `message`.
    pub open spec fn text_of(self, message: Seq<char>) -> Seq<char> {
        match self {
            Error::Find(error) => error.text_of(message),
            Error::Open(role, error) => "opening the "@ + role.text_of() + ": "@ + error.text_of(
                message,
            ),
            Error::Transfer(role, error) => role.text_of() + ": "@ + error.text_of(message),
            Error::NoMaster => "the transmitter answered on no channel"@,
            Error::ShortWrite(role, n) => role.text_of() + " took "@ + text::decimal_of(n as nat)
                + " of "@ + text::decimal_of(FRAME_LEN as nat) + " bytes"@,
            Error::Reply(error) => error.text_of(),
            Error::Closed => "the dongle is closed until it is reopened"@,
        }
    }

    /// The error code of Windows in it, where there is one.
    pub fn code(&self) -> (r: Option<u32>)
        ensures
            r == self.code_of(),
    {
        match self {
            Error::Find(error) => error.code(),
            Error::Open(_, error) => error.code(),
            Error::Transfer(_, error) => Some(error.code),
            _ => None,
        }
    }

    /// The error as text, where the system describes its code as `message`.
    pub fn text(&self, message: &str) -> (r: String)
        ensures
            r@ == self.text_of(message@),
    {
        match self {
            Error::Find(error) => error.text(message),
            Error::Open(role, error) => text::owned("opening the ").concat(role.text()).concat(
                ": ",
            ).concat(error.text(message).as_str()),
            Error::Transfer(role, error) => text::owned(role.text()).concat(": ").concat(
                error.text(message).as_str(),
            ),
            Error::NoMaster => text::owned("the transmitter answered on no channel"),
            Error::ShortWrite(role, n) => text::owned(role.text()).concat(" took ").concat(
                text::decimal(*n as u64).as_str(),
            ).concat(" of ").concat(text::decimal(FRAME_LEN as u64).as_str()).concat(" bytes"),
            Error::Reply(error) => error.text(),
            Error::Closed => text::owned("the dongle is closed until it is reopened"),
        }
    }
}

/// Whether `later` begins with `earlier`.
pub open spec fn continues(later: Seq<PortCall>, earlier: Seq<PortCall>) -> bool {
    earlier.len() <= later.len() && forall|i: int|
        0 <= i < earlier.len() ==> #[trigger] later[i] == earlier[i]
}

/// What continues a trace with one more call continues the trace, and has
/// that call behind it.
proof fn one_more(before: Seq<PortCall>, after: Seq<PortCall>)
    requires
        after.len() == before.len() + 1,
        after.drop_last() == before,
    ensures
        continues(after, after),
        continues(after, before),
        forall|u: Seq<PortCall>| #[trigger]
            continues(u, after) ==> continues(u, before) && u[before.len() as int] == after.last()
                && u.len() > before.len(),
{
    assert forall|i: int| 0 <= i < before.len() implies #[trigger] after[i] == before[i] by {
        assert(after.drop_last()[i] == before[i]);
    }
    assert forall|u: Seq<PortCall>| #[trigger] continues(u, after) implies continues(u, before)
        && u[before.len() as int] == after.last() && u.len() > before.len() by {
        assert forall|i: int| 0 <= i < before.len() implies #[trigger] u[i] == before[i] by {
            assert(u[i] == after[i]);
        }
    }
}

/// Reads a drain out of a trace from `at` on: up to `max` reads of
/// `chunk_len` bytes, until one comes back empty or fails. Says where it ends
/// and what it returns; `None` where the trace shows anything else.
pub open spec fn drain_run(t: Seq<PortCall>, at: int, chunk_len: nat, max: nat) -> Option<
    (int, Result<(), WinError>),
>
    decreases max,
{
    if max == 0 {
        Some((at, Ok(())))
    } else if at >= t.len() {
        None
    } else {
        match t[at] {
            PortCall::Read { buffer, timeout, result } => if timeout != FLUSH_WAIT || buffer.len()
                != chunk_len {
                None
            } else {
                match result {
                    Err(error) => Some((at + 1, Err(error))),
                    Ok(n) => if n == 0 {
                        Some((at + 1, Ok(())))
                    } else {
                        drain_run(t, at + 1, chunk_len, (max - 1) as nat)
                    },
                }
            },
            _ => None,
        }
    }
}

proof fn drain_steady(t: Seq<PortCall>, u: Seq<PortCall>, at: int, chunk_len: nat, max: nat)
    requires
        continues(u, t),
        0 <= at,
        drain_run(t, at, chunk_len, max) is Some,
    ensures
        drain_run(u, at, chunk_len, max) == drain_run(t, at, chunk_len, max),
        drain_run(t, at, chunk_len, max) matches Some((end, _)) ==> at <= end <= t.len() || end == at,
    decreases max,
{
    if max > 0 {
        if let PortCall::Read { result: Ok(n), .. } = t[at] {
            if n > 0 {
                drain_steady(t, u, at + 1, chunk_len, (max - 1) as nat);
            }
        }
    }
}

/// Discards frames the port has waiting, up to `max_reads` of them.
pub fn drain<P: Port>(port: &mut P, chunk_len: usize, max_reads: usize) -> (r: Result<
    (),
    WinError,
>)
    ensures
        continues(final(port).trace(), old(port).trace()),
        drain_run(
            final(port).trace(),
            old(port).trace().len() as int,
            chunk_len as nat,
            max_reads as nat,
        ) == Some((final(port).trace().len() as int, r)),
{
    let ghost start = port.trace();
    let mut stale: Vec<u8> = Vec::new();
    stale.resize(chunk_len, 0u8);
    let mut reads: usize = 0;
    while reads < max_reads
        invariant
            0 <= reads <= max_reads,
            stale.len() == chunk_len,
            start == old(port).trace(),
            continues(port.trace(), start),
            forall|u: Seq<PortCall>| #[trigger]
                continues(u, port.trace()) ==> drain_run(
                    u,
                    start.len() as int,
                    chunk_len as nat,
                    max_reads as nat,
                ) == drain_run(
                    u,
                    port.trace().len() as int,
                    chunk_len as nat,
                    (max_reads - reads) as nat,
                ),
        decreases max_reads - reads,
    {
        let ghost before = port.trace();
        let outcome = port.read(stale.as_mut_slice(), FLUSH_WAIT);
        proof {
            assert(port.trace().drop_last() =~= before);
            one_more(before, port.trace());
        }
        match outcome {
            Err(error) => {
                return Err(error);
            },
            Ok(n) => {
                if n == 0 {
                    return Ok(());
                }
            },
        }
        reads += 1;
    }
    assert(continues(port.trace(), port.trace()));
    Ok(())
}

/// The smallest of three numbers.
pub open spec fn least(a: int, b: int, c: int) -> int {
    if a <= b && a <= c {
        a
    } else if b <= c {
        b
    } else {
        c
    }
}

/// Reads a gathering out of a trace from `at` on: with `got` in hand and
/// `room` for all, reads of a frame's length follow, the first within
/// `timeout`, the others within `pause`, until one comes back empty or fails
/// or the room is full. Says where it ends, what it returns, and what was
/// gathered.
pub open spec fn gather_run(
    t: Seq<PortCall>,
    at: int,
    room: nat,
    got: Seq<u8>,
    timeout: u128,
    pause: u128,
) -> Option<(int, Result<usize, WinError>, Seq<u8>)>
    decreases room - got.len(),
{
    if got.len() >= room {
        Some((at, Ok(got.len() as usize), got))
    } else if at >= t.len() {
        None
    } else {
        match t[at] {
            PortCall::Read { buffer, timeout: waited, result } => if waited != timeout
                || buffer.len() != FRAME_LEN {
                None
            } else {
                match result {
                    Err(error) => Some((at + 1, Err(error), got)),
                    Ok(n) => if n == 0 {
                        Some((at + 1, Ok(got.len() as usize), got))
                    } else {
                        let piece = buffer.take(least(n as int, FRAME_LEN as int, room - got.len()));
                        gather_run(t, at + 1, room, got + piece, pause, pause)
                    },
                }
            },
            _ => None,
        }
    }
}

/// Reads a reply that arrives in pieces: waits `first` for the opening
/// piece, then keeps reading until `pause` passes with nothing more or
/// the buffer is full. Returns how much arrived.
pub fn gather<P: Port>(port: &mut P, buffer: &mut [u8], first: u128, pause: u128) -> (r: Result<
    usize,
    WinError,
>)
    ensures
        continues(final(port).trace(), old(port).trace()),
        final(buffer)@.len() == old(buffer)@.len(),
        gather_run(
            final(port).trace(),
            old(port).trace().len() as int,
            old(buffer)@.len(),
            Seq::empty(),
            first,
            pause,
        ) matches Some((end, result, got)) && end == final(port).trace().len() && result == r
            && got.len() <= old(buffer)@.len() && final(buffer)@ == got + old(buffer)@.skip(
            got.len() as int,
        ),
        r matches Ok(n) ==> n <= old(buffer)@.len(),
{
    let ghost start = port.trace();
    let ghost blank = buffer@;
    let room: usize = buffer.len();
    let mut total: usize = 0;
    let mut timeout: u128 = first;
    let mut chunk = [0u8; FRAME_LEN];
    let ghost mut got: Seq<u8> = Seq::empty();
    assert(buffer@ =~= got + blank.skip(0));
    while total < room
        invariant
            0 <= total <= room,
            room == blank.len(),
            start == old(port).trace(),
            blank == old(buffer)@,
            got.len() == total,
            buffer@ == got + blank.skip(total as int),
            continues(port.trace(), start),
            forall|u: Seq<PortCall>| #[trigger]
                continues(u, port.trace()) ==> gather_run(
                    u,
                    start.len() as int,
                    room as nat,
                    Seq::empty(),
                    first,
                    pause,
                ) == gather_run(
                    u,
                    port.trace().len() as int,
                    room as nat,
                    got,
                    timeout,
                    pause,
                ),
        decreases room - total,
    {
        let ghost before = port.trace();
        let outcome = port.read(&mut chunk, timeout);
        proof {
            assert(port.trace().drop_last() =~= before);
            one_more(before, port.trace());
        }
        match outcome {
            Err(error) => {
                return Err(error);
            },
            Ok(n) => {
                if n == 0 {
                    return Ok(total);
                }
                let space: usize = room - total;
                let count: usize = if n <= FRAME_LEN && n <= space {
                    n
                } else if FRAME_LEN <= space {
                    FRAME_LEN
                } else {
                    space
                };
                let mut k: usize = 0;
                while k < count
                    invariant
                        0 <= k <= count <= FRAME_LEN,
                        total + count <= room,
                        room == blank.len(),
                        got.len() == total,
                        buffer@ == got + chunk@.take(k as int) + blank.skip(total + k),
                    decreases count - k,
                {
                    buffer[total + k] = chunk[k];
                    k += 1;
                    assert(buffer@ =~= got + chunk@.take(k as int) + blank.skip(total + k));
                }
                proof {
                    got = got + chunk@.take(count as int);
                }
                total += count;
                timeout = pause;
                assert(buffer@ =~= got + blank.skip(total as int));
            },
        }
    }
    assert(continues(port.trace(), port.trace()));
    Ok(total)
}

/// Reads the writing of one frame out of a trace.
pub open spec fn write_run(t: Seq<PortCall>, at: int, role: Role, frame: Seq<u8>) -> Option<
    (int, Result<(), Error>),
> {
    if at >= t.len() {
        None
    } else {
        match t[at] {
            PortCall::Write { frame: written, timeout, result } => if timeout != TIMEOUT || written
                != frame {
                None
            } else {
                match result {
                    Err(error) => Some((at + 1, Err(Error::Transfer(role, error)))),
                    Ok(n) => if n == FRAME_LEN {
                        Some((at + 1, Ok(())))
                    } else {
                        Some((at + 1, Err(Error::ShortWrite(role, n))))
                    },
                }
            },
            _ => None,
        }
    }
}

fn write_frame<P: Port>(port: &mut P, role: Role, frame: &Frame) -> (r: Result<(), Error>)
    ensures
        final(port).trace().len() == old(port).trace().len() + 1,
        final(port).trace().drop_last() == old(port).trace(),
        write_run(final(port).trace(), old(port).trace().len() as int, role, frame@) == Some(
            (final(port).trace().len() as int, r),
        ),
{
    let ghost before = port.trace();
    let outcome = port.write(frame, TIMEOUT);
    assert(port.trace().drop_last() =~= before);
    match outcome {
        Err(error) => Err(Error::Transfer(role, error)),
        Ok(n) => if n != FRAME_LEN {
            Err(Error::ShortWrite(role, n))
        } else {
            Ok(())
        },
    }
}

/// Reads one try to connect out of a trace: stale frames are drained, the
/// request goes out, and what then comes within [`CONNECT_WAIT`] is read.
pub open spec fn try_run(t: Seq<PortCall>, at: int, channel: u8) -> Option<
    (int, Result<Option<ConnectReply>, Error>),
> {
    let role = Role::Transmitter;
    match drain_run(t, at, FRAME_LEN as nat, 16) {
        None => None,
        Some((end, Err(error))) => Some((end, Err(Error::Transfer(role, error)))),
        Some((end, Ok(()))) => match write_run(
            t,
            end,
            role,
            frame::short_frame(frame::GET_MAC, channel),
        ) {
            None => None,
            Some((end, Err(error))) => Some((end, Err(error))),
            Some((end, Ok(()))) => if end >= t.len() {
                None
            } else {
                match t[end] {
                    PortCall::Read { buffer, timeout, result } => if timeout != CONNECT_WAIT
                        || buffer.len() != FRAME_LEN {
                        None
                    } else {
                        match result {
                            Err(error) => Some((end + 1, Err(Error::Transfer(role, error)))),
                            Ok(n) => Some(
                                (end + 1, Ok(frame::connect_reply_in(buffer.take(n as int)))),
                            ),
                        }
                    },
                    _ => None,
                }
            },
        },
    }
}

proof fn try_steady(t: Seq<PortCall>, u: Seq<PortCall>, at: int, channel: u8)
    requires
        continues(u, t),
        0 <= at,
        try_run(t, at, channel) is Some,
    ensures
        try_run(u, at, channel) == try_run(t, at, channel),
        try_run(t, at, channel) matches Some((end, _)) ==> at <= end,
{
    drain_steady(t, u, at, FRAME_LEN as nat, 16);
}

/// Reads a connection out of a trace: each channel is tried in turn, until
/// one answers or a transfer fails.
pub open spec fn connect_run(t: Seq<PortCall>, at: int, channels: Seq<u8>) -> Option<
    (int, Result<(ConnectReply, u8), Error>),
>
    decreases channels.len(),
{
    if channels.len() == 0 {
        Some((at, Err(Error::NoMaster)))
    } else {
        match try_run(t, at, channels[0]) {
            None => None,
            Some((end, Err(error))) => Some((end, Err(error))),
            Some((end, Ok(Some(reply)))) => Some((end, Ok((reply, channels[0])))),
            Some((end, Ok(None))) => connect_run(t, end, channels.skip(1)),
        }
    }
}

fn try_connect<P: Port>(tx: &mut P, channel: u8) -> (r: Result<Option<ConnectReply>, Error>)
    ensures
        continues(final(tx).trace(), old(tx).trace()),
        try_run(final(tx).trace(), old(tx).trace().len() as int, channel) == Some(
            (final(tx).trace().len() as int, r),
        ),
{
    let role = Role::Transmitter;
    let ghost start = tx.trace();
    if let Err(error) = drain(tx, FRAME_LEN, 16) {
        return Err(Error::Transfer(role, error));
    }
    let ghost drained = tx.trace();
    let wrote = write_frame(tx, role, &connect_request(channel));
    let ghost written = tx.trace();
    proof {
        one_more(drained, written);
        drain_steady(drained, written, start.len() as int, FRAME_LEN as nat, 16);
    }
    if let Err(error) = wrote {
        return Err(error);
    }
    let mut reply = [0u8; FRAME_LEN];
    let outcome = tx.read(&mut reply, CONNECT_WAIT);
    proof {
        assert(tx.trace().drop_last() =~= written);
        one_more(written, tx.trace());
        drain_steady(written, tx.trace(), start.len() as int, FRAME_LEN as nat, 16);
    }
    match outcome {
        Err(error) => Err(Error::Transfer(role, error)),
        Ok(n) => {
            let arrived = vstd::slice::slice_subrange(&reply, 0, n);
            assert(arrived@ =~= reply@.take(n as int));
            Ok(parse_connect_reply(arrived))
        },
    }
}

fn connect_with<P: Port>(tx: &mut P, channels: &[u8]) -> (r: Result<(ConnectReply, u8), Error>)
    ensures
        continues(final(tx).trace(), old(tx).trace()),
        connect_run(final(tx).trace(), old(tx).trace().len() as int, channels@) == Some(
            (final(tx).trace().len() as int, r),
        ),
{
    let ghost start = tx.trace();
    let mut i: usize = 0;
    assert(channels@.skip(0) =~= channels@);
    while i < channels.len()
        invariant
            0 <= i <= channels.len(),
            start == old(tx).trace(),
            continues(tx.trace(), start),
            forall|u: Seq<PortCall>| #[trigger]
                continues(u, tx.trace()) ==> connect_run(u, start.len() as int, channels@)
                    == connect_run(u, tx.trace().len() as int, channels@.skip(i as int)),
        decreases channels.len() - i,
    {
        let ghost before = tx.trace();
        let tried = try_connect(tx, channels[i]);
        proof {
            assert forall|u: Seq<PortCall>| #[trigger] continues(u, tx.trace()) implies continues(
                u,
                before,
            ) && try_run(u, before.len() as int, channels[i as int]) == Some(
                (tx.trace().len() as int, tried),
            ) by {
                assert forall|k: int| 0 <= k < before.len() implies #[trigger] u[k] == before[k] by {
                    assert(u[k] == tx.trace()[k]);
                }
                try_steady(tx.trace(), u, before.len() as int, channels[i as int]);
            }
            assert(continues(tx.trace(), tx.trace()));
            assert(channels@.skip(i as int).skip(1) =~= channels@.skip(i + 1));
        }
        match tried {
            Err(error) => {
                return Err(error);
            },
            Ok(Some(reply)) => {
                return Ok((reply, channels[i]));
            },
            Ok(None) => {},
        }
        i += 1;
    }
    assert(continues(tx.trace(), tx.trace()));
    Err(Error::NoMaster)
}

/// The channels that a connection tries, one entry a try: the default
/// channel three times, every other once.
pub open spec fn every_try() -> Seq<u8> {
    seq![frame::DEFAULT_CHANNEL, frame::DEFAULT_CHANNEL] + frame::scan_order()
}

/// Asks the transmitter which dongle it is and on which channel, trying
/// the channels in the usual order.
///
/// Silence or a malformed answer moves on to the next attempt; a failed
/// transfer ends the scan at once, since the transmitter is not going to
/// answer on another channel either.
pub fn connect<P: Port>(tx: &mut P) -> (r: Result<(ConnectReply, u8), Error>)
    ensures
        continues(final(tx).trace(), old(tx).trace()),
        connect_run(final(tx).trace(), old(tx).trace().len() as int, every_try()) == Some(
            (final(tx).trace().len() as int, r),
        ),
{
    let scan = channel_scan();
    let mut tries: Vec<u8> = Vec::new();
    let mut i: usize = 0;
    while i < scan.len()
        invariant
            0 <= i <= scan.len(),
            scan@ == frame::scan_order(),
            tries@ =~= if i == 0 {
                Seq::empty()
            } else {
                every_try().take(i + 2)
            },
        decreases scan.len() - i,
    {
        let mut left: u8 = connect_attempts(scan[i]);
        proof {
            frame::scan_covers_every_channel_once();
        }
        let ghost before = tries@;
        let ghost all: u8 = left;
        while left > 0
            invariant
                left <= all,
                i < scan.len(),
                tries@ =~= before + Seq::new((all - left) as nat, |k: int| scan@[i as int]),
            decreases left,
        {
            tries.push(scan[i]);
            left -= 1;
        }
        assert(i > 0 ==> scan@[i as int] != frame::DEFAULT_CHANNEL);
        i += 1;
    }
    assert(tries@ =~= every_try());
    connect_with(tx, &tries)
}

/// Asks the transmitter which dongle it is on one channel only, trying
/// [`RECONNECT_ATTEMPTS`] times. Bounded to a second and a half, for a
/// reconnect that must not hold up the loop.
pub fn connect_on<P: Port>(tx: &mut P, channel: u8) -> (r: Result<(ConnectReply, u8), Error>)
    ensures
        continues(final(tx).trace(), old(tx).trace()),
        connect_run(
            final(tx).trace(),
            old(tx).trace().len() as int,
            seq![channel, channel, channel],
        ) == Some((final(tx).trace().len() as int, r)),
{
    let mut tries: Vec<u8> = Vec::new();
    tries.resize(RECONNECT_ATTEMPTS as usize, channel);
    assert(tries@ =~= seq![channel, channel, channel]);
    connect_with(tx, &tries)
}

/// Reads a poll out of a trace: stale frames are drained, the request goes
/// out, and the reply is gathered and read.
pub open spec fn poll_run(t: Seq<PortCall>, at: int, pages: u8) -> Option<
    (int, Result<ReplyState, Error>),
> {
    let role = Role::Receiver;
    match drain_run(t, at, 512, 64) {
        None => None,
        Some((end, Err(error))) => Some((end, Err(Error::Transfer(role, error)))),
        Some((end, Ok(()))) => match write_run(
            t,
            end,
            role,
            frame::short_frame(frame::SEND_RF, frame::held_pages(pages)),
        ) {
            None => None,
            Some((end, Err(error))) => Some((end, Err(error))),
            Some((end, Ok(()))) => match gather_run(
                t,
                end,
                (frame::held_pages(pages) * frame::PAGE_LEN) as nat,
                Seq::empty(),
                REPLY_WAIT,
                REPLY_PAUSE,
            ) {
                None => None,
                Some((end, Err(error), _)) => Some((end, Err(Error::Transfer(role, error)))),
                Some((end, Ok(_), got)) => Some(
                    (
                        end,
                        match discovery::reply_in(got, pages) {
                            Ok(reply) => Ok(reply),
                            Err(error) => Err(Error::Reply(error)),
                        },
                    ),
                ),
            },
        },
    }
}

/// A reply, or the error, as a value.
pub open spec fn as_state(r: Result<Reply, Error>) -> Result<ReplyState, Error> {
    match r {
        Ok(reply) => Ok(reply@),
        Err(error) => Err(error),
    }
}

/// Asks the receiver for its device list, `pages` pages of it.
pub fn poll<P: Port>(rx: &mut P, pages: u8) -> (r: Result<Reply, Error>)
    ensures
        continues(final(rx).trace(), old(rx).trace()),
        poll_run(final(rx).trace(), old(rx).trace().len() as int, pages) == Some(
            (final(rx).trace().len() as int, as_state(r)),
        ),
        r matches Ok(reply) ==> reply.devices.len() <= 255,
{
    let role = Role::Receiver;
    let ghost start = rx.trace();
    if let Err(error) = drain(rx, 512, 64) {
        return Err(Error::Transfer(role, error));
    }
    let ghost drained = rx.trace();
    let wrote = write_frame(rx, role, &discovery_request(pages));
    let ghost written = rx.trace();
    proof {
        one_more(drained, written);
        drain_steady(drained, written, start.len() as int, 512, 64);
    }
    if let Err(error) = wrote {
        return Err(error);
    }
    let mut buffer: Vec<u8> = Vec::new();
    buffer.resize(discovery_reply_len(pages), 0u8);
    let gathered = gather(rx, buffer.as_mut_slice(), REPLY_WAIT, REPLY_PAUSE);
    proof {
        drain_steady(written, rx.trace(), start.len() as int, 512, 64);
    }
    match gathered {
        Err(error) => Err(Error::Transfer(role, error)),
        Ok(n) => {
            let arrived = vstd::slice::slice_subrange(buffer.as_slice(), 0, n);
            proof {
                let run = gather_run(
                    rx.trace(),
                    written.len() as int,
                    buffer@.len(),
                    Seq::empty(),
                    REPLY_WAIT,
                    REPLY_PAUSE,
                );
                if let Some((_, _, got)) = run {
                    gathered_length(
                        rx.trace(),
                        written.len() as int,
                        buffer@.len(),
                        Seq::empty(),
                        REPLY_WAIT,
                        REPLY_PAUSE,
                    );
                    assert(arrived@ =~= got);
                }
            }
            match parse_reply(arrived, pages) {
                Ok(reply) => Ok(reply),
                Err(error) => Err(Error::Reply(error)),
            }
        },
    }
}

/// What a gathering returns is how much it gathered.
proof fn gathered_length(
    t: Seq<PortCall>,
    at: int,
    room: nat,
    got: Seq<u8>,
    timeout: u128,
    pause: u128,
)
    requires
        0 <= at,
        room <= usize::MAX,
        got.len() <= room,
    ensures
        gather_run(t, at, room, got, timeout, pause) matches Some((_, Ok(n), all)) ==> n
            == all.len(),
    decreases room - got.len(),
{
    if got.len() < room && 0 <= at < t.len() {
        if let PortCall::Read { buffer, result: Ok(n), .. } = t[at] {
            if n > 0 && buffer.len() == FRAME_LEN {
                let piece = buffer.take(least(n as int, FRAME_LEN as int, room - got.len()));
                gathered_length(t, at + 1, room, got + piece, pause, pause);
            }
        }
    }
}

/// Reads the sending of a radio payload out of a trace, from frame `index`
/// on: a gap follows each frame that went out.
pub open spec fn send_run(
    t: Seq<PortCall>,
    at: int,
    channel: u8,
    receiver: u8,
    payload: Seq<u8>,
    index: int,
) -> Option<(int, Result<(), Error>)>
    decreases RF_CHUNKS - index,
{
    if index >= RF_CHUNKS {
        Some((at, Ok(())))
    } else {
        match write_run(
            t,
            at,
            Role::Transmitter,
            frame::rf_frame(channel, receiver, payload, index),
        ) {
            None => None,
            Some((end, Err(error))) => Some((end, Err(error))),
            Some((end, Ok(()))) => if end < t.len() && t[end] == (PortCall::Wait {
                gap: CHUNK_GAP,
            }) {
                send_run(t, end + 1, channel, receiver, payload, index + 1)
            } else {
                None
            },
        }
    }
}

/// Sends one radio payload through the transmitter to a receiver type on
/// a channel, as four frames.
pub fn send<P: Port>(tx: &mut P, channel: u8, receiver: u8, payload: &RfPayload) -> (r: Result<
    (),
    Error,
>)
    ensures
        continues(final(tx).trace(), old(tx).trace()),
        send_run(
            final(tx).trace(),
            old(tx).trace().len() as int,
            channel,
            receiver,
            payload@,
            0,
        ) == Some((final(tx).trace().len() as int, r)),
{
    let ghost start = tx.trace();
    let frames = rf_frames(channel, receiver, payload);
    let mut index: usize = 0;
    while index < RF_CHUNKS
        invariant
            0 <= index <= RF_CHUNKS,
            start == old(tx).trace(),
            continues(tx.trace(), start),
            forall|i: int|
                0 <= i < RF_CHUNKS ==> (#[trigger] frames[i])@ == frame::rf_frame(
                    channel,
                    receiver,
                    payload@,
                    i,
                ),
            forall|u: Seq<PortCall>| #[trigger]
                continues(u, tx.trace()) ==> send_run(
                    u,
                    start.len() as int,
                    channel,
                    receiver,
                    payload@,
                    0,
                ) == send_run(
                    u,
                    tx.trace().len() as int,
                    channel,
                    receiver,
                    payload@,
                    index as int,
                ),
        decreases RF_CHUNKS - index,
    {
        let ghost before = tx.trace();
        let wrote = write_frame(tx, Role::Transmitter, &frames[index]);
        let ghost written = tx.trace();
        proof {
            one_more(before, written);
            assert(frames[index as int]@ == frame::rf_frame(
                channel,
                receiver,
                payload@,
                index as int,
            ));
        }
        if let Err(error) = wrote {
            return Err(error);
        }
        tx.wait(CHUNK_GAP);
        proof {
            assert(tx.trace().drop_last() =~= written);
            one_more(written, tx.trace());
        }
        index += 1;
    }
    assert(continues(tx.trace(), tx.trace()));
    Ok(())
}

/// Reads a flush out of a trace: up to `max` reads of 512 bytes, until one
/// comes back empty or fails. Says where it ends.
pub open spec fn flush_run(t: Seq<PortCall>, at: int, max: nat) -> Option<int> {
    match drain_run(t, at, 512, max) {
        Some((end, _)) => Some(end),
        None => None,
    }
}

/// Discards whatever the device sent that nobody read.
pub fn flush<P: Port>(port: &mut P)
    ensures
        continues(final(port).trace(), old(port).trace()),
        flush_run(final(port).trace(), old(port).trace().len() as int, 64) == Some(
            final(port).trace().len() as int,
        ),
{
    let _ = drain(port, 512, 64);
}

/// The two devices of an open pair.
pub struct Handles<P> {
    pub tx: P,
    pub rx: P,
}

/// Both dongles, open and connected.
pub struct Dongle<P: Port> {
    /// The open devices, or none after a reopen that failed.
    pub handles: Option<Handles<P>>,
    /// What the transmitter said about itself.
    pub master: ConnectReply,
    /// The channel it answered on.
    pub channel: u8,
    /// How many pages the next poll asks for.
    pub pages: u8,
}

/// The tries of a connection: on one channel, or on every one.
pub open spec fn tries_on(channel: Option<u8>) -> Seq<u8> {
    match channel {
        Some(channel) => seq![channel, channel, channel],
        None => every_try(),
    }
}

impl<P: Port> Dongle<P> {
    /// Whether the pair is open.
    pub open spec fn is_open(&self) -> bool {
        self.handles is Some
    }

    /// The transmitter's trace, while the pair is open.
    pub open spec fn tx_trace(&self) -> Seq<PortCall> {
        self.handles->0.tx.trace()
    }

    /// The receiver's trace, while the pair is open.
    pub open spec fn rx_trace(&self) -> Seq<PortCall> {
        self.handles->0.rx.trace()
    }

    /// How many pages the next poll asks for.
    pub open spec fn next_pages(&self) -> u8 {
        self.pages
    }

    /// Whether the pair was made by connecting the transmitter, whose trace
    /// was `tx`, while the receiver's was `rx`.
    pub open spec fn attached(
        &self,
        tx: Seq<PortCall>,
        rx: Seq<PortCall>,
        channel: Option<u8>,
    ) -> bool {
        &&& self.is_open()
        &&& self.rx_trace() == rx
        &&& self.next_pages() == 1
        &&& continues(self.tx_trace(), tx)
        &&& connect_run(self.tx_trace(), tx.len() as int, tries_on(channel)) == Some(
            (
                self.tx_trace().len() as int,
                Ok::<(ConnectReply, u8), Error>((self.master, self.channel)),
            ),
        )
    }

    /// Connects to an opened pair, on `channel` only, or scanning every
    /// channel for the transmitter.
    pub fn attach(tx: P, rx: P, channel: Option<u8>) -> (r: Result<Self, Error>)
        ensures
            match r {
                Ok(dongle) => dongle.attached(tx.trace(), rx.trace(), channel),
                Err(error) => exists|t: Seq<PortCall>| #[trigger]
                    continues(t, tx.trace()) && connect_run(
                        t,
                        tx.trace().len() as int,
                        tries_on(channel),
                    ) == Some((t.len() as int, Err::<(ConnectReply, u8), Error>(error))),
            },
    {
        let mut tx = tx;
        let connected = match channel {
            Some(channel) => connect_on(&mut tx, channel),
            None => connect(&mut tx),
        };
        match connected {
            Ok((master, channel)) => Ok(
                Dongle { handles: Some(Handles { tx, rx }), master, channel, pages: 1 },
            ),
            Err(error) => Err(error),
        }
    }

    /// Gives up the handles. WinUSB gives an interface to one handle at a
    /// time, so the old handles go before the pair is opened again.
    pub fn close(&mut self)
        ensures
            !final(self).is_open(),
            final(self).master == old(self).master,
            final(self).channel == old(self).channel,
            final(self).next_pages() == old(self).next_pages(),
    {
        self.handles = None;
    }

    /// Connects to the pair opened again as `ports`, on the channel it was
    /// on unless `every_channel` asks for the full scan. If opening or
    /// connecting failed, every transfer reports [`Error::Closed`] until a
    /// later reopen succeeds.
    pub fn reopen(&mut self, ports: Result<(P, P), Error>, every_channel: bool) -> (r: Result<
        (),
        Error,
    >)
        ensures
            ({
                let channel = if every_channel {
                    None
                } else {
                    Some(old(self).channel)
                };
                match ports {
                    Err(error) => r == Err::<(), Error>(error),
                    Ok((tx, rx)) => match r {
                        Ok(()) => final(self).attached(tx.trace(), rx.trace(), channel),
                        Err(error) => exists|t: Seq<PortCall>| #[trigger]
                            continues(t, tx.trace()) && connect_run(
                                t,
                                tx.trace().len() as int,
                                tries_on(channel),
                            ) == Some((t.len() as int, Err::<(ConnectReply, u8), Error>(error))),
                    },
                }
            }),
            r is Err ==> {
                &&& !final(self).is_open()
                &&& final(self).master == old(self).master
                &&& final(self).channel == old(self).channel
                &&& final(self).next_pages() == old(self).next_pages()
            },
    {
        let channel: u8 = self.channel;
        self.handles = None;
        let (tx, rx) = match ports {
            Ok(pair) => pair,
            Err(error) => {
                return Err(error);
            },
        };
        let wanted: Option<u8> = if every_channel {
            None
        } else {
            Some(channel)
        };
        match Dongle::attach(tx, rx, wanted) {
            Ok(fresh) => {
                *self = fresh;
                Ok(())
            },
            Err(error) => Err(error),
        }
    }

    /// What a poll does: a closed pair refuses it and stays as it was, an
    /// open one asks through the receiver, and the page count follows what is
    /// reported.
    pub open spec fn polled(&self, after: &Self, r: Result<ReplyState, Error>) -> bool {
        &&& after.master == self.master
        &&& after.channel == self.channel
        &&& after.is_open() == self.is_open()
        &&& if self.is_open() {
            &&& after.tx_trace() == self.tx_trace()
            &&& continues(after.rx_trace(), self.rx_trace())
            &&& poll_run(after.rx_trace(), self.rx_trace().len() as int, self.next_pages())
                == Some((after.rx_trace().len() as int, r))
            &&& after.next_pages() == match r {
                Ok(reply) => frame::pages_needed(reply.reported),
                Err(_) => self.next_pages(),
            }
        } else {
            &&& r == Err::<ReplyState, Error>(Error::Closed)
            &&& after.next_pages() == self.next_pages()
        }
    }

    /// One discovery poll. The page count follows what the receiver last
    /// reported.
    pub fn poll(&mut self) -> (r: Result<Reply, Error>)
        ensures
            old(self).polled(final(self), as_state(r)),
            r matches Ok(reply) ==> reply.devices.len() <= 255,
    {
        let pages: u8 = self.pages;
        let polled = match &mut self.handles {
            None => {
                return Err(Error::Closed);
            },
            Some(handles) => poll(&mut handles.rx, pages),
        };
        match polled {
            Ok(reply) => {
                self.pages = pages_for(reply.reported);
                Ok(reply)
            },
            Err(error) => Err(error),
        }
    }

    /// Sends one radio payload to a receiver type on the dongle's channel.
    pub fn send(&mut self, receiver: u8, payload: &RfPayload) -> (r: Result<(), Error>)
        ensures
            old(self).sent(final(self), old(self).channel, receiver, payload@, r),
    {
        self.send_on(self.channel, receiver, payload)
    }

    /// What sending a payload does: a closed pair refuses it and stays as it
    /// was, an open one takes it through the transmitter.
    pub open spec fn sent(
        &self,
        after: &Self,
        channel: u8,
        receiver: u8,
        payload: Seq<u8>,
        r: Result<(), Error>,
    ) -> bool {
        &&& after.master == self.master
        &&& after.channel == self.channel
        &&& after.next_pages() == self.next_pages()
        &&& after.is_open() == self.is_open()
        &&& if self.is_open() {
            &&& after.rx_trace() == self.rx_trace()
            &&& continues(after.tx_trace(), self.tx_trace())
            &&& send_run(
                after.tx_trace(),
                self.tx_trace().len() as int,
                channel,
                receiver,
                payload,
                0,
            ) == Some((after.tx_trace().len() as int, r))
        } else {
            r == Err::<(), Error>(Error::Closed)
        }
    }

    /// Sends one radio payload to a receiver type on a given channel, the
    /// one the device itself reported.
    pub fn send_on(&mut self, channel: u8, receiver: u8, payload: &RfPayload) -> (r: Result<
        (),
        Error,
    >)
        ensures
            old(self).sent(final(self), channel, receiver, payload@, r),
    {
        match &mut self.handles {
            None => Err(Error::Closed),
            Some(handles) => send(&mut handles.tx, channel, receiver, payload),
        }
    }
}

} // verus!
