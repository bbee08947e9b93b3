//! The 64-byte frames exchanged with the dongles over USB.
//!
//! The transmitter takes a connect request and answers with the master
//! address, and carries radio payloads to the groups in four chunks. The
//! receiver takes a discovery request and answers with one record per
//! device it can hear.

use crate::bytes;
use crate::bytes::{array_at, from_be16, is_zero};
use vstd::prelude::*;

verus! {

/// Length of every frame written to or read from a dongle.
pub const FRAME_LEN: usize = 64;

/// Length of a radio payload carried to the fan groups.
pub const RF_PAYLOAD_LEN: usize = 240;

/// Payload bytes carried by each frame of a radio transfer.
pub const RF_CHUNK_LEN: usize = 60;

/// Frames needed to carry one radio payload.
pub const RF_CHUNKS: usize = RF_PAYLOAD_LEN / RF_CHUNK_LEN;

/// Receiver type that addresses every group at once.
pub const BROADCAST: u8 = 0xFF;

/// The channel a dongle is most likely to be on.
pub const DEFAULT_CHANNEL: u8 = 8;

/// Most device records a discovery reply page can hold.
pub const RECORDS_PER_PAGE: usize = 10;

/// Bytes a discovery reply page occupies.
pub const PAGE_LEN: usize = 512;

/// Most pages a discovery request can ask for.
pub const MAX_PAGES: u8 = 26;

pub const SEND_RF: u8 = 0x10;

pub const GET_MAC: u8 = 0x11;

/// One frame on the wire.
pub type Frame = [u8; FRAME_LEN];

/// One radio payload before chunking.
pub type RfPayload = [u8; RF_PAYLOAD_LEN];

/// What the transmitter answers to a connect request.
#[derive(Debug, Clone, Copy, PartialEq, Eq)]
pub struct ConnectReply {
    /// Address of the dongle itself, the master the groups are bound to.
    pub master_mac: [u8; 6],
    /// Firmware version of the transmitter.
    pub firmware: u16,
}

/// The bytes of a frame with `a` and `b` in front and zeros behind.
pub open spec fn short_frame(a: u8, b: u8) -> Seq<u8> {
    seq![a, b] + bytes::zeros(62)
}

/// The connect request for one channel, written to the transmitter.
pub fn connect_request(channel: u8) -> (frame: Frame)
    ensures
        frame@ == short_frame(GET_MAC, channel),
{
    let mut frame = [0u8; FRAME_LEN];
    frame[0] = GET_MAC;
    frame[1] = channel;
    assert(frame@ =~= short_frame(GET_MAC, channel));
    frame
}

/// The status word of a connect reply.
pub open spec fn connect_status(reply: Seq<u8>) -> int {
    bytes::be16(reply[7], reply[8]) * 65536 + bytes::be16(reply[9], reply[10])
}

/// Whether `reply` says that the dongle is on the channel asked for: long
/// enough, the right command byte, an address, a status above one.
pub open spec fn is_connect_reply(reply: Seq<u8>) -> bool {
    &&& reply.len() >= 13
    &&& reply[0] == GET_MAC
    &&& reply.subrange(1, 7) != bytes::zeros(6)
    &&& connect_status(reply) > 1
}

/// What a connect reply says: the address, then, past the status word, the
/// firmware version.
pub open spec fn connect_reply_in(reply: Seq<u8>) -> Option<ConnectReply> {
    if is_connect_reply(reply) {
        Some(
            ConnectReply {
                master_mac: [reply[1], reply[2], reply[3], reply[4], reply[5], reply[6]],
                firmware: bytes::be16(reply[11], reply[12]) as u16,
            },
        )
    } else {
        None
    }
}

/// Reads the transmitter's answer to a connect request.
///
/// Returns `None` for a short reply, a wrong command byte, an all-zero
/// address, or a status word that says the dongle is not on that channel.
pub fn parse_connect_reply(reply: &[u8]) -> (read: Option<ConnectReply>)
    ensures
        read == connect_reply_in(reply@),
{
    if reply.len() < 13 || reply[0] != GET_MAC {
        return None;
    }
    let master_mac: [u8; 6] = array_at(reply, 1);
    if is_zero(&master_mac) {
        return None;
    }
    let status: u32 = from_be16(reply[7], reply[8]) as u32 * 65536 + from_be16(
        reply[9],
        reply[10],
    ) as u32;
    if status <= 1 {
        return None;
    }
    let read = ConnectReply { master_mac, firmware: from_be16(reply[11], reply[12]) };
    assert(read.master_mac =~= connect_reply_in(reply@)->0.master_mac);
    Some(read)
}

/// The channels to try when connecting: the default, then the other even
/// ones from 2 to 38, then the odd ones from 1 to 39.
pub open spec fn scan_order() -> Seq<u8> {
    Seq::new(
        39,
        |i: int|
            if i == 0 {
                DEFAULT_CHANNEL
            } else if i <= 3 {
                (2 * i) as u8
            } else if i <= 18 {
                (2 * i + 2) as u8
            } else {
                (2 * i - 37) as u8
            },
    )
}

/// The channels to try when connecting, most likely first: the default,
/// then the even channels, then the odd ones.
pub fn channel_scan() -> (scan: Vec<u8>)
    ensures
        scan@ == scan_order(),
{
    let mut scan: Vec<u8> = Vec::new();
    scan.push(DEFAULT_CHANNEL);
    let mut channel: u8 = 2;
    while channel <= 38
        invariant
            channel % 2 == 0,
            2 <= channel <= 40,
            scan@.len() == if channel <= 8 { (channel / 2) as int } else { channel / 2 - 1 },
            scan@ =~= scan_order().take(scan@.len() as int),
        decreases 40 - channel,
    {
        if channel != DEFAULT_CHANNEL {
            scan.push(channel);
        }
        channel += 2;
    }
    channel = 1;
    while channel <= 39
        invariant
            channel % 2 == 1,
            1 <= channel <= 41,
            scan@.len() == 19 + channel / 2,
            scan@ =~= scan_order().take(scan@.len() as int),
        decreases 41 - channel,
    {
        scan.push(channel);
        channel += 2;
    }
    assert(scan@ =~= scan_order());
    scan
}

/// How many times to try a channel before moving on: three times the
/// default, once any other.
pub open spec fn attempts(channel: u8) -> u8 {
    if channel == DEFAULT_CHANNEL {
        3
    } else {
        1
    }
}

/// How many times to try a channel before moving on.
pub fn connect_attempts(channel: u8) -> (r: u8)
    ensures
        r == attempts(channel),
{
    if channel == DEFAULT_CHANNEL {
        3
    } else {
        1
    }
}

/// `pages` held to `1..=MAX_PAGES`.
pub open spec fn held_pages(pages: u8) -> u8 {
    if pages < 1 {
        1
    } else if pages > MAX_PAGES {
        MAX_PAGES
    } else {
        pages
    }
}

fn hold_pages(pages: u8) -> (r: u8)
    ensures
        r == held_pages(pages),
{
    if pages < 1 {
        1
    } else if pages > MAX_PAGES {
        MAX_PAGES
    } else {
        pages
    }
}

/// The discovery request, written to the receiver.
///
/// `pages` is how many reply pages to ask for and is held to `1..=MAX_PAGES`.
/// Bytes 2 and 3 carry a fan speed for receivers that mirror one on their
/// PWM output; they stay zero here.
pub fn discovery_request(pages: u8) -> (frame: Frame)
    ensures
        frame@ == short_frame(SEND_RF, held_pages(pages)),
{
    let mut frame = [0u8; FRAME_LEN];
    frame[0] = SEND_RF;
    frame[1] = hold_pages(pages);
    assert(frame@ =~= short_frame(SEND_RF, held_pages(pages)));
    frame
}

/// How many bytes a discovery reply of `pages` pages can occupy.
pub fn discovery_reply_len(pages: u8) -> (r: usize)
    ensures
        r == held_pages(pages) * PAGE_LEN,
{
    hold_pages(pages) as usize * PAGE_LEN
}

/// The least number of pages, at least one, that holds `devices` records.
pub open spec fn pages_needed(devices: u8) -> u8 {
    if devices == 0 {
        1
    } else {
        ((devices + 9) / 10) as u8
    }
}

/// How many pages the receiver needs to report `devices` devices.
pub fn pages_for(devices: u8) -> (r: u8)
    ensures
        r == pages_needed(devices),
{
    if devices == 0 {
        1
    } else {
        ((devices as usize + (RECORDS_PER_PAGE - 1)) / RECORDS_PER_PAGE) as u8
    }
}

/// The part of a radio payload that frame `index` carries.
pub open spec fn chunk(payload: Seq<u8>, index: int) -> Seq<u8> {
    payload.subrange(index * 60, index * 60 + 60)
}

/// Frame `index` of a radio transfer.
pub open spec fn rf_frame(channel: u8, receiver: u8, payload: Seq<u8>, index: int) -> Seq<u8> {
    seq![SEND_RF, index as u8, channel, receiver] + chunk(payload, index)
}

/// Splits a radio payload into the frames that carry it to the transmitter.
///
/// Each frame names its chunk index, the channel, and the receiver type of
/// the group addressed, or [`BROADCAST`] for every group.
pub fn rf_frames(channel: u8, receiver: u8, payload: &RfPayload) -> (frames: [Frame; RF_CHUNKS])
    ensures
        forall|i: int|
            0 <= i < RF_CHUNKS ==> (#[trigger] frames[i])@ == rf_frame(
                channel,
                receiver,
                payload@,
                i,
            ),
{
    let mut frames = [[0u8; FRAME_LEN]; RF_CHUNKS];
    let mut index: usize = 0;
    while index < RF_CHUNKS
        invariant
            0 <= index <= RF_CHUNKS,
            forall|i: int|
                0 <= i < index ==> (#[trigger] frames[i])@ == rf_frame(
                    channel,
                    receiver,
                    payload@,
                    i,
                ),
        decreases RF_CHUNKS - index,
    {
        let mut frame = [0u8; FRAME_LEN];
        frame[0] = SEND_RF;
        frame[1] = index as u8;
        frame[2] = channel;
        frame[3] = receiver;
        let start: usize = index * RF_CHUNK_LEN;
        let mut k: usize = 0;
        while k < RF_CHUNK_LEN
            invariant
                0 <= k <= RF_CHUNK_LEN,
                0 <= index < RF_CHUNKS,
                start == index * RF_CHUNK_LEN,
                frame@.len() == FRAME_LEN,
                frame@.take(4) =~= seq![SEND_RF, index as u8, channel, receiver],
                forall|j: int| 0 <= j < k ==> #[trigger] frame@[4 + j] == payload@[start + j],
            decreases RF_CHUNK_LEN - k,
        {
            frame[4 + k] = payload[start + k];
            k += 1;
        }
        assert(frame@ =~= rf_frame(channel, receiver, payload@, index as int)) by {
            assert forall|j: int| 0 <= j < 64 implies #[trigger] frame@[j] == rf_frame(
                channel,
                receiver,
                payload@,
                index as int,
            )[j] by {
                if j < 4 {
                    assert(frame@[j] == frame@.take(4)[j]);
                } else {
                    assert(frame@[4 + (j - 4)] == payload@[start + (j - 4)]);
                }
            }
        }
        frames[index] = frame;
        index += 1;
    }
    frames
}

/// Every channel from 1 to 39 is tried, and none twice: the scan order is a
/// permutation of the channels.
pub proof fn scan_covers_every_channel_once()
    ensures
        scan_order().no_duplicates(),
        forall|c: u8| scan_order().contains(c) <==> 1 <= c <= 39,
        scan_order()[0] == DEFAULT_CHANNEL,
        forall|i: int, j: int|
            1 <= i < j < scan_order().len() && scan_order()[i] % 2 == scan_order()[j] % 2
                ==> scan_order()[i] < scan_order()[j],
        forall|i: int, j: int|
            0 <= i < scan_order().len() && 0 <= j < scan_order().len() && scan_order()[i] % 2 == 0
                && scan_order()[j] % 2 == 1 ==> i < j,
{
    assert forall|c: u8| 1 <= c <= 39 implies scan_order().contains(c) by {
        let i: int = if c == 8 {
            0
        } else if c % 2 == 1 {
            (c + 37) / 2
        } else if c < 8 {
            (c / 2) as int
        } else {
            c / 2 - 1
        };
        assert(scan_order()[i] == c);
    }
}

/// The pages asked for suffice for the devices reported, and no fewer pages
/// would.
pub proof fn pages_suffice(devices: u8)
    ensures
        devices <= pages_needed(devices) * RECORDS_PER_PAGE,
        pages_needed(devices) > 1 ==> (pages_needed(devices) - 1) * RECORDS_PER_PAGE < devices,
        1 <= pages_needed(devices) <= MAX_PAGES,
        held_pages(pages_needed(devices)) == pages_needed(devices),
{
}

/// The chunks that the frames of a transfer carry make up the payload again.
pub proof fn frames_carry_the_payload(channel: u8, receiver: u8, payload: Seq<u8>)
    requires
        payload.len() == RF_PAYLOAD_LEN,
    ensures
        rf_frame(channel, receiver, payload, 0).skip(4) + rf_frame(
            channel,
            receiver,
            payload,
            1,
        ).skip(4) + rf_frame(channel, receiver, payload, 2).skip(4) + rf_frame(
            channel,
            receiver,
            payload,
            3,
        ).skip(4) == payload,
        forall|i: int|
            0 <= i < RF_CHUNKS ==> (#[trigger] rf_frame(channel, receiver, payload, i)).len()
                == FRAME_LEN,
{
    assert(rf_frame(channel, receiver, payload, 0).skip(4) =~= chunk(payload, 0));
    assert(rf_frame(channel, receiver, payload, 1).skip(4) =~= chunk(payload, 1));
    assert(rf_frame(channel, receiver, payload, 2).skip(4) =~= chunk(payload, 2));
    assert(rf_frame(channel, receiver, payload, 3).skip(4) =~= chunk(payload, 3));
    assert(chunk(payload, 0) + chunk(payload, 1) + chunk(payload, 2) + chunk(payload, 3)
        =~= payload);
}

} // verus!
