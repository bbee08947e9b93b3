//! What holds of whole exchanges with the two devices, whatever they answer.

use crate::discovery::ReplyState;
use crate::dongle;
use crate::dongle::{
    connect_run, drain_run, every_try, gather_run, send_run, try_run, Error, PortCall, CHUNK_GAP,
};
use crate::frame;
use crate::frame::{ConnectReply, FRAME_LEN, RF_CHUNKS, RF_PAYLOAD_LEN};
use crate::win::WinError;
use vstd::prelude::*;

verus! {

/// A drain makes no more reads than it may.
pub proof fn a_drain_is_bounded(t: Seq<PortCall>, at: int, chunk_len: nat, max: nat)
    ensures
        drain_run(t, at, chunk_len, max) matches Some((end, _)) ==> at <= end <= at + max,
    decreases max,
{
    if max > 0 && at < t.len() {
        if let PortCall::Read { .. } = t[at] {
            a_drain_is_bounded(t, at + 1, chunk_len, (max - 1) as nat);
        }
    }
}

/// A gathering takes no more than there is room for, and keeps what it had.
pub proof fn a_gathering_fits(
    t: Seq<PortCall>,
    at: int,
    room: nat,
    got: Seq<u8>,
    timeout: u128,
    pause: u128,
)
    requires
        got.len() <= room,
    ensures
        gather_run(t, at, room, got, timeout, pause) matches Some((end, _, all)) ==> {
            &&& at <= end
            &&& got.len() <= all.len() <= room
            &&& all.take(got.len() as int) == got
        },
    decreases room - got.len(),
{
    if got.len() < room && at < t.len() {
        if let PortCall::Read { buffer, result: Ok(n), .. } = t[at] {
            if n > 0 && buffer.len() == FRAME_LEN {
                let piece = buffer.take(
                    dongle::least(n as int, FRAME_LEN as int, room - got.len()),
                );
                a_gathering_fits(t, at + 1, room, got + piece, pause, pause);
                if let Some((_, _, all)) = gather_run(t, at + 1, room, got + piece, pause, pause) {
                    assert((got + piece).take(got.len() as int) =~= got);
                    assert(all.take(got.len() as int) =~= all.take(
                        (got + piece).len() as int,
                    ).take(got.len() as int));
                }
            }
        }
    }
    assert(got.take(got.len() as int) =~= got);
}

/// Whether a call is the write of one frame that was taken whole.
pub open spec fn is_whole_write(call: PortCall, frame: Seq<u8>) -> bool {
    call matches PortCall::Write { frame: written, result: Ok(n), .. } && written == frame && n
        == FRAME_LEN
}

/// A payload whose sending succeeded went out whole: four frames were written
/// in order, each taken whole and followed by a gap, and together they carry
/// the payload.
pub proof fn a_sent_payload_is_whole(
    t: Seq<PortCall>,
    at: int,
    channel: u8,
    receiver: u8,
    payload: Seq<u8>,
    end: int,
)
    requires
        payload.len() == RF_PAYLOAD_LEN,
        send_run(t, at, channel, receiver, payload, 0) == Some((end, Ok::<(), Error>(()))),
    ensures
        end == at + 2 * RF_CHUNKS,
        forall|i: int|
            0 <= i < RF_CHUNKS ==> #[trigger] is_whole_write(
                t[at + 2 * i],
                frame::rf_frame(channel, receiver, payload, i),
            ) && t[at + 2 * i + 1] == (PortCall::Wait { gap: CHUNK_GAP }),
        frame::rf_frame(channel, receiver, payload, 0).skip(4) + frame::rf_frame(
            channel,
            receiver,
            payload,
            1,
        ).skip(4) + frame::rf_frame(channel, receiver, payload, 2).skip(4) + frame::rf_frame(
            channel,
            receiver,
            payload,
            3,
        ).skip(4) == payload,
{
    reveal_with_fuel(send_run, 5);
    frame::frames_carry_the_payload(channel, receiver, payload);
    assert forall|i: int| 0 <= i < RF_CHUNKS implies #[trigger] is_whole_write(
        t[at + 2 * i],
        frame::rf_frame(channel, receiver, payload, i),
    ) && t[at + 2 * i + 1] == (PortCall::Wait { gap: CHUNK_GAP }) by {
        assert(i == 0 || i == 1 || i == 2 || i == 3);
    }
}

/// A sending that failed ends with the write that failed: no frame follows
/// one that did not go out.
pub proof fn a_failed_send_ends_at_the_failure(
    t: Seq<PortCall>,
    at: int,
    channel: u8,
    receiver: u8,
    payload: Seq<u8>,
    index: int,
    end: int,
    error: Error,
)
    requires
        0 <= index,
        send_run(t, at, channel, receiver, payload, index) == Some((end, Err::<(), Error>(error))),
    ensures
        at < end <= at + 2 * (RF_CHUNKS - index) - 1,
        t[end - 1] matches PortCall::Write { result, .. } && (match result {
            Ok(n) => n != FRAME_LEN && error == Error::ShortWrite(
                crate::enumerate::Role::Transmitter,
                n,
            ),
            Err(failure) => error == Error::Transfer(
                crate::enumerate::Role::Transmitter,
                failure,
            ),
        }),
    decreases RF_CHUNKS - index,
{
    if index < RF_CHUNKS {
        if let PortCall::Write { result: Ok(n), .. } = t[at] {
            if n == FRAME_LEN {
                a_failed_send_ends_at_the_failure(
                    t,
                    at + 2,
                    channel,
                    receiver,
                    payload,
                    index + 1,
                    end,
                    error,
                );
            }
        }
    }
}

/// The dongle is connected on a channel that was tried, by a reply that the
/// transmitter gave when it was.
pub proof fn a_connection_is_on_a_tried_channel(
    t: Seq<PortCall>,
    at: int,
    channels: Seq<u8>,
    end: int,
    reply: ConnectReply,
    channel: u8,
)
    requires
        connect_run(t, at, channels) == Some(
            (end, Ok::<(ConnectReply, u8), Error>((reply, channel))),
        ),
    ensures
        channels.contains(channel),
        exists|from: int| #[trigger]
            try_run(t, from, channel) == Some(
                (end, Ok::<Option<ConnectReply>, Error>(Some(reply))),
            ),
    decreases channels.len(),
{
    if let Some((here, Ok(None))) = try_run(t, at, channels[0]) {
        a_connection_is_on_a_tried_channel(t, here, channels.skip(1), end, reply, channel);
        let i = choose|i: int| 0 <= i < channels.skip(1).len() && channels.skip(1)[i] == channel;
        assert(channels[i + 1] == channel);
    } else {
        assert(channels[0] == channel);
    }
}

/// Whether the transmitter was asked on a channel from `from` on and gave no
/// answer.
pub open spec fn is_unanswered(t: Seq<PortCall>, from: int, channel: u8) -> bool {
    try_run(t, from, channel) matches Some((_, Ok(None)))
}

/// Whether the transmitter was asked on a channel and gave no answer.
pub open spec fn is_silent_on(t: Seq<PortCall>, channel: u8) -> bool {
    exists|from: int| #[trigger] is_unanswered(t, from, channel)
}

/// A dongle is given up for missing only once every channel was tried without
/// an answer.
pub proof fn no_master_means_every_channel_was_tried(
    t: Seq<PortCall>,
    at: int,
    channels: Seq<u8>,
    end: int,
)
    requires
        connect_run(t, at, channels) == Some(
            (end, Err::<(ConnectReply, u8), Error>(Error::NoMaster)),
        ),
    ensures
        forall|i: int| 0 <= i < channels.len() ==> is_silent_on(t, #[trigger] channels[i]),
    decreases channels.len(),
{
    if channels.len() > 0 {
        if let Some((here, Ok(None))) = try_run(t, at, channels[0]) {
            no_master_means_every_channel_was_tried(t, here, channels.skip(1), end);
            assert forall|i: int| 0 <= i < channels.len() implies is_silent_on(
                t,
                #[trigger] channels[i],
            ) by {
                if i == 0 {
                    assert(is_unanswered(t, at, channels[0]));
                } else {
                    assert(channels.skip(1)[i - 1] == channels[i]);
                }
            }
        } else if let Some((_, Err(error))) = try_run(t, at, channels[0]) {
            assert(!(error is NoMaster));
        }
    }
}

/// A scan tries the default channel three times before any other, and every
/// channel there is.
pub proof fn a_scan_starts_at_the_default_channel()
    ensures
        every_try().len() == 41,
        every_try().take(3) == seq![
            frame::DEFAULT_CHANNEL,
            frame::DEFAULT_CHANNEL,
            frame::DEFAULT_CHANNEL,
        ],
        forall|c: u8| 1 <= c <= 39 ==> #[trigger] every_try().contains(c),
{
    frame::scan_covers_every_channel_once();
    assert(every_try().take(3) =~= seq![
        frame::DEFAULT_CHANNEL,
        frame::DEFAULT_CHANNEL,
        frame::DEFAULT_CHANNEL,
    ]);
    assert forall|c: u8| 1 <= c <= 39 implies #[trigger] every_try().contains(c) by {
        assert(frame::scan_order().contains(c));
        let i = choose|i: int|
            0 <= i < frame::scan_order().len() && frame::scan_order()[i] == c;
        assert(every_try()[i + 2] == c);
    }
}

/// Whether a call failed with an error.
pub open spec fn fails_with(call: PortCall, error: WinError) -> bool {
    match call {
        PortCall::Write { result, .. } => result == Err::<usize, WinError>(error),
        PortCall::Read { result, .. } => result == Err::<usize, WinError>(error),
        PortCall::Wait { .. } => false,
    }
}

/// A drain that failed ends with the read that failed.
proof fn a_failed_drain_ends_at_the_failure(
    t: Seq<PortCall>,
    at: int,
    chunk_len: nat,
    max: nat,
    end: int,
    error: WinError,
)
    requires
        drain_run(t, at, chunk_len, max) == Some((end, Err::<(), WinError>(error))),
    ensures
        fails_with(t[end - 1], error),
    decreases max,
{
    if max > 0 {
        if let PortCall::Read { result: Ok(n), .. } = t[at] {
            a_failed_drain_ends_at_the_failure(
                t,
                at + 1,
                chunk_len,
                (max - 1) as nat,
                end,
                error,
            );
        }
    }
}

/// A failed transfer ends a scan at once: the call that failed is the last
/// that was made.
pub proof fn a_failed_transfer_ends_the_scan(
    t: Seq<PortCall>,
    at: int,
    channels: Seq<u8>,
    end: int,
    error: WinError,
)
    requires
        connect_run(t, at, channels) == Some(
            (
                end,
                Err::<(ConnectReply, u8), Error>(
                    Error::Transfer(crate::enumerate::Role::Transmitter, error),
                ),
            ),
        ),
    ensures
        fails_with(t[end - 1], error),
    decreases channels.len(),
{
    match try_run(t, at, channels[0]) {
        Some((here, Ok(None))) => {
            a_failed_transfer_ends_the_scan(t, here, channels.skip(1), end, error);
        },
        _ => {
            if let Some((drained, Err(failure))) = drain_run(t, at, FRAME_LEN as nat, 16) {
                a_failed_drain_ends_at_the_failure(
                    t,
                    at,
                    FRAME_LEN as nat,
                    16,
                    drained,
                    failure,
                );
            }
        },
    }
}

/// The pages a poll asks for follow what the last one that succeeded
/// reported: there is room for that many devices, and a poll that failed
/// changes nothing.
pub proof fn the_next_poll_has_room<P: dongle::Port>(
    before: dongle::Dongle<P>,
    after: dongle::Dongle<P>,
    r: Result<ReplyState, Error>,
)
    requires
        before.polled(&after, r),
    ensures
        r matches Ok(reply) ==> reply.reported <= after.pages * frame::RECORDS_PER_PAGE && 1
            <= after.pages <= frame::MAX_PAGES,
        r is Err ==> after.pages == before.pages,
{
    if let Ok(reply) = r {
        frame::pages_suffice(reply.reported);
    }
}

/// What a drain does: reads within five milliseconds each, one more as long as
/// something comes and it may, and it ends with a read that brings nothing or
/// fails. Whether it succeeds is whether none failed.
pub proof fn a_drain_reads_until_nothing_comes(
    t: Seq<PortCall>,
    at: int,
    chunk_len: nat,
    max: nat,
    end: int,
    r: Result<(), WinError>,
    k: int,
)
    requires
        drain_run(t, at, chunk_len, max) == Some((end, r)),
        at <= k < end,
    ensures
        t[k] matches PortCall::Read { buffer, timeout, result } && {
            &&& buffer.len() == chunk_len
            &&& timeout == 5_000_000
            &&& k < end - 1 ==> (result matches Ok(n) && n > 0)
            &&& k == end - 1 ==> (match result {
                Ok(n) => r is Ok && (n == 0 || end == at + max),
                Err(error) => r == Err::<(), WinError>(error),
            })
        },
    decreases max,
{
    if max > 0 && at < t.len() {
        if let PortCall::Read { result: Ok(n), .. } = t[at] {
            if n > 0 {
                a_drain_is_bounded(t, at + 1, chunk_len, (max - 1) as nat);
                if k > at {
                    a_drain_reads_until_nothing_comes(
                        t,
                        at + 1,
                        chunk_len,
                        (max - 1) as nat,
                        end,
                        r,
                        k,
                    );
                } else if end > at + 1 {
                    a_drain_reads_until_nothing_comes(
                        t,
                        at + 1,
                        chunk_len,
                        (max - 1) as nat,
                        end,
                        r,
                        at + 1,
                    );
                } else {
                    an_empty_drain_may_read_no_more(t, at + 1, chunk_len, (max - 1) as nat);
                }
            }
        }
    }
}

/// A drain that makes no read may make none.
proof fn an_empty_drain_may_read_no_more(t: Seq<PortCall>, at: int, chunk_len: nat, max: nat)
    ensures
        drain_run(t, at, chunk_len, max) matches Some((end, r)) ==> at <= end && (end == at ==> max
            == 0 && r is Ok),
    decreases max,
{
    if max > 0 && at < t.len() {
        if let PortCall::Read { result: Ok(n), .. } = t[at] {
            an_empty_drain_may_read_no_more(t, at + 1, chunk_len, (max - 1) as nat);
        }
    }
}

/// A frame counts as written only where all of its 64 bytes were taken within
/// five seconds; anything else is told with what was taken, or what failed.
pub proof fn a_frame_is_written_whole(
    t: Seq<PortCall>,
    at: int,
    role: crate::enumerate::Role,
    frame: Seq<u8>,
)
    requires
        dongle::write_run(t, at, role, frame) is Some,
    ensures
        dongle::write_run(t, at, role, frame) matches Some((end, r)) && end == at + 1 && (
        t[at] matches PortCall::Write { frame: written, timeout, result } && written == frame
            && timeout == 5_000_000_000 && (match result {
            Ok(n) => (r is Ok <==> n == 64) && (n != 64 ==> r == Err::<(), Error>(
                Error::ShortWrite(role, n),
            )),
            Err(error) => r == Err::<(), Error>(Error::Transfer(role, error)),
        })),
{
}

/// What is gathered grows by what each read brought: its front, no more than a
/// frame, no more than there is room for, and all of it where both allow it.
/// The first read may take `timeout`, every later one `pause`; one that brings
/// nothing ends it.
pub proof fn a_gathering_grows_read_by_read(
    t: Seq<PortCall>,
    at: int,
    room: nat,
    got: Seq<u8>,
    timeout: u128,
    pause: u128,
    end: int,
    r: Result<usize, WinError>,
    all: Seq<u8>,
    m: int,
)
    requires
        got.len() < room <= usize::MAX,
        gather_run(t, at, room, got, timeout, pause) == Some((end, r, all)),
        t[at] matches PortCall::Read { result: Ok(n), .. } && 0 <= m && (m == n || m == 64 || m
            == room - got.len()) && m <= n && m <= 64 && m <= room - got.len(),
    ensures
        t[at] matches PortCall::Read { buffer, timeout: waited, result } && {
            &&& waited == timeout
            &&& buffer.len() == 64
            &&& m == 0 ==> end == at + 1 && all == got && r == Ok::<usize, WinError>(
                got.len() as usize,
            )
            &&& m > 0 ==> got.len() + m <= all.len() && all.take(got.len() + m) == got
                + buffer.take(m) && gather_run(
                t,
                at + 1,
                room,
                got + buffer.take(m),
                pause,
                pause,
            ) == Some((end, r, all))
        },
{
    if let PortCall::Read { buffer, result: Ok(n), .. } = t[at] {
        if n > 0 {
            let piece = buffer.take(dongle::least(n as int, FRAME_LEN as int, room - got.len()));
            a_gathering_fits(t, at + 1, room, got + piece, pause, pause);
        }
    }
}

/// A gathering that fails fails with the read that failed, and one that
/// succeeds returns how much it gathered.
pub proof fn a_gathering_returns_what_it_has(
    t: Seq<PortCall>,
    at: int,
    room: nat,
    got: Seq<u8>,
    timeout: u128,
    pause: u128,
    end: int,
    r: Result<usize, WinError>,
    all: Seq<u8>,
)
    requires
        got.len() <= room <= usize::MAX,
        gather_run(t, at, room, got, timeout, pause) == Some((end, r, all)),
    ensures
        r matches Ok(n) ==> n == all.len(),
        r matches Err(error) ==> end > at && fails_with(t[end - 1], error),
    decreases room - got.len(),
{
    if got.len() < room && at < t.len() {
        if let PortCall::Read { buffer, result: Ok(n), .. } = t[at] {
            if n > 0 && buffer.len() == FRAME_LEN {
                let piece = buffer.take(
                    dongle::least(n as int, FRAME_LEN as int, room - got.len()),
                );
                a_gathering_returns_what_it_has(
                    t,
                    at + 1,
                    room,
                    got + piece,
                    pause,
                    pause,
                    end,
                    r,
                    all,
                );
            }
        }
    }
}

/// What one try to connect does, once stale frames are drained: it writes the
/// byte 0x11 and the channel, reads for half a second, and takes what came for
/// the answer.
pub proof fn a_try_asks_and_listens(t: Seq<PortCall>, at: int, channel: u8, drained: int)
    requires
        drain_run(t, at, 64, 16) == Some((drained, Ok::<(), WinError>(()))),
        try_run(t, at, channel) is Some,
    ensures
        t[drained] matches PortCall::Write { frame: asked, .. } && asked[0] == 0x11 && asked[1]
            == channel && asked.len() == 64,
        t[drained] matches PortCall::Write { result: Ok(n), .. } && n == 64 ==> (
        t[drained + 1] matches PortCall::Read { buffer, timeout, result } && timeout == 500_000_000
            && buffer.len() == 64 && (result matches Ok(n) ==> try_run(t, at, channel) == Some(
            (
                drained + 2,
                Ok::<Option<ConnectReply>, Error>(frame::connect_reply_in(buffer.take(n as int))),
            ),
        ))),
{
}

/// What a poll does, once stale frames are drained: it writes the byte 0x10
/// and how many pages it asks for, gathers up to 512 bytes for each, the first
/// of them within a tenth of a second and the others within ten milliseconds,
/// and reads them as the reply.
pub proof fn a_poll_asks_and_gathers(
    t: Seq<PortCall>,
    at: int,
    pages: u8,
    drained: int,
    end: int,
    got: Seq<u8>,
)
    requires
        1 <= pages <= 26,
        drain_run(t, at, 512, 64) == Some((drained, Ok::<(), WinError>(()))),
        dongle::poll_run(t, at, pages) is Some,
        t[drained] matches PortCall::Write { result: Ok(n), .. } && n == 64,
        gather_run(
            t,
            drained + 1,
            (512 * pages) as nat,
            Seq::empty(),
            100_000_000,
            10_000_000,
        ) == Some((end, Ok::<usize, WinError>(got.len() as usize), got)),
    ensures
        t[drained] matches PortCall::Write { frame: asked, .. } && asked[0] == 0x10 && asked[1]
            == pages && asked.len() == 64,
        dongle::poll_run(t, at, pages) == Some(
            (
                end,
                match crate::discovery::reply_in(got, pages) {
                    Ok(reply) => Ok::<ReplyState, Error>(reply),
                    Err(error) => Err(Error::Reply(error)),
                },
            ),
        ),
{
}

/// A channel that the dongle is known to be on is tried three times and no
/// other; without one every channel is tried, the default first.
pub proof fn a_known_channel_is_tried_three_times(channel: u8, i: int)
    requires
        0 <= i < 3,
    ensures
        dongle::tries_on(Some(channel)).len() == 3,
        dongle::tries_on(Some(channel))[i] == channel,
        dongle::tries_on(None).len() == 41,
        dongle::tries_on(None)[i] == 8,
{
}

/// The frames of a payload follow each other a millisecond apart.
pub proof fn frames_go_out_a_millisecond_apart(
    t: Seq<PortCall>,
    at: int,
    channel: u8,
    receiver: u8,
    payload: Seq<u8>,
    end: int,
    i: int,
)
    requires
        payload.len() == 240,
        0 <= i < 4,
        send_run(t, at, channel, receiver, payload, 0) == Some((end, Ok::<(), Error>(()))),
    ensures
        end == at + 8,
        t[at + 2 * i] matches PortCall::Write { frame: sent, timeout, result } && {
            &&& sent.len() == 64
            &&& sent[0] == 0x10
            &&& sent[1] == i
            &&& sent[2] == channel
            &&& sent[3] == receiver
            &&& sent.skip(4) == payload.subrange(60 * i, 60 * i + 60)
            &&& timeout == 5_000_000_000
            &&& result == Ok::<usize, WinError>(64)
        },
        t[at + 2 * i + 1] == (PortCall::Wait { gap: 1_000_000 }),
{
    reveal_with_fuel(send_run, 5);
    assert(i == 0 || i == 1 || i == 2 || i == 3);
    let sent = frame::rf_frame(channel, receiver, payload, i);
    assert(sent.skip(4) =~= payload.subrange(60 * i, 60 * i + 60));
}

/// The poll after one that succeeded asks for as many pages as the devices it
/// reported take, ten to a page; one that failed leaves the number alone, and
/// a new connection starts with one page.
pub proof fn the_next_poll_asks_for_what_was_reported<P: dongle::Port>(
    before: dongle::Dongle<P>,
    after: dongle::Dongle<P>,
    r: Result<ReplyState, Error>,
    tx: Seq<PortCall>,
    rx: Seq<PortCall>,
    channel: Option<u8>,
)
    requires
        before.polled(&after, r),
    ensures
        r matches Ok(reply) ==> reply.reported <= 10 * after.pages && (reply.reported > 10 ==> 10 * (
        after.pages - 1) < reply.reported) && after.pages >= 1,
        r is Err ==> after.pages == before.pages,
        after.master == before.master,
        after.channel == before.channel,
        before.attached(tx, rx, channel) ==> before.pages == 1,
{
}

/// A closed dongle refuses a poll and a send alike, and stays as it was.
pub proof fn a_closed_dongle_refuses<P: dongle::Port>(
    before: dongle::Dongle<P>,
    after: dongle::Dongle<P>,
    polled: Result<ReplyState, Error>,
    channel: u8,
    receiver: u8,
    payload: Seq<u8>,
    sent: Result<(), Error>,
)
    requires
        before.handles is None,
    ensures
        before.polled(&after, polled) || before.sent(&after, channel, receiver, payload, sent)
            ==> after.handles is None && after.master == before.master && after.channel
            == before.channel && after.pages == before.pages,
        before.polled(&after, polled) ==> polled == Err::<ReplyState, Error>(Error::Closed),
        before.sent(&after, channel, receiver, payload, sent) ==> sent == Err::<(), Error>(
            Error::Closed,
        ),
{
}

/// An open dongle stays open through a poll and a send; a poll goes through
/// the receiver alone and asks for as many pages as were due, a send through
/// the transmitter alone, on the channel and to the type that are asked for.
pub proof fn an_open_dongle_uses_one_half<P: dongle::Port>(
    before: dongle::Dongle<P>,
    after: dongle::Dongle<P>,
    polled: Result<ReplyState, Error>,
    channel: u8,
    receiver: u8,
    payload: Seq<u8>,
    sent: Result<(), Error>,
)
    requires
        before.handles is Some,
    ensures
        before.polled(&after, polled) ==> {
            let from = before.handles->0.rx.trace().len() as int;
            &&& after.handles is Some
            &&& after.handles->0.tx.trace() == before.handles->0.tx.trace()
            &&& dongle::poll_run(after.handles->0.rx.trace(), from, before.pages) == Some(
                (after.handles->0.rx.trace().len() as int, polled),
            )
            &&& after.master == before.master
            &&& after.channel == before.channel
        },
        before.sent(&after, channel, receiver, payload, sent) ==> {
            let from = before.handles->0.tx.trace().len() as int;
            &&& after.handles is Some
            &&& after.handles->0.rx.trace() == before.handles->0.rx.trace()
            &&& send_run(after.handles->0.tx.trace(), from, channel, receiver, payload, 0) == Some(
                (after.handles->0.tx.trace().len() as int, sent),
            )
            &&& after.master == before.master
            &&& after.channel == before.channel
            &&& after.pages == before.pages
        },
{
}

/// A dongle that was just connected is open, asks for one page first, and is
/// the one that answered, on the channel it answered on; its receiver was not
/// asked anything.
pub proof fn a_new_connection_asks_for_one_page<P: dongle::Port>(
    made: dongle::Dongle<P>,
    tx: Seq<PortCall>,
    rx: Seq<PortCall>,
    channel: u8,
)
    requires
        made.attached(tx, rx, Some(channel)),
    ensures
        made.handles is Some,
        made.pages == 1,
        made.handles->0.rx.trace() == rx,
        connect_run(
            made.handles->0.tx.trace(),
            tx.len() as int,
            seq![channel, channel, channel],
        ) == Some(
            (
                made.handles->0.tx.trace().len() as int,
                Ok::<(ConnectReply, u8), Error>((made.master, made.channel)),
            ),
        ),
        made.channel == channel,
{
    a_connection_is_on_a_tried_channel(
        made.handles->0.tx.trace(),
        tx.len() as int,
        seq![channel, channel, channel],
        made.handles->0.tx.trace().len() as int,
        made.master,
        made.channel,
    );
}

/// A connection tries one channel after the other: the first is tried first,
/// what answers there is taken, and only where nothing does the rest are.
pub proof fn channels_are_tried_one_after_the_other(
    t: Seq<PortCall>,
    at: int,
    first: u8,
    rest: Seq<u8>,
)
    ensures
        match try_run(t, at, first) {
            None => connect_run(t, at, seq![first] + rest) is None,
            Some((end, Err(error))) => connect_run(t, at, seq![first] + rest) == Some(
                (end, Err::<(ConnectReply, u8), Error>(error)),
            ),
            Some((end, Ok(Some(reply)))) => connect_run(t, at, seq![first] + rest) == Some(
                (end, Ok::<(ConnectReply, u8), Error>((reply, first))),
            ),
            Some((end, Ok(None))) => connect_run(t, at, seq![first] + rest) == connect_run(
                t,
                end,
                rest,
            ),
        },
        connect_run(t, at, Seq::empty()) == Some(
            (at, Err::<(ConnectReply, u8), Error>(Error::NoMaster)),
        ),
{
    assert((seq![first] + rest).skip(1) =~= rest);
    assert((seq![first] + rest)[0] == first);
}

/// A flush makes reads of 512 bytes, waiting five milliseconds for each, until
/// one brings nothing or fails, or until there were as many as it may make.
pub proof fn a_flush_reads_until_nothing_comes(t: Seq<PortCall>, at: int, max: nat, k: int)
    requires
        dongle::flush_run(t, at, max) matches Some(end) && at <= k < end,
    ensures
        ({
            let end = dongle::flush_run(t, at, max)->0;
            &&& end <= at + max
            &&& t[k] matches PortCall::Read { buffer, timeout, result } && buffer.len() == 512
                && timeout == 5_000_000 && (k < end - 1 ==> (result matches Ok(n) && n > 0)) && (k
                == end - 1 && end < at + max ==> (result matches Ok(n) ==> n == 0))
        }),
{
    let (end, r) = drain_run(t, at, 512, max)->0;
    a_drain_is_bounded(t, at, 512, max);
    a_drain_reads_until_nothing_comes(t, at, 512, max, end, r, k);
}

} // verus!
