//! What the bytes on the wire mean, byte for byte and number for number.

use crate::bytes;
use crate::discovery;
use crate::discovery::{Device, Error, FANS_PER_GROUP};
use crate::frame;
use crate::heartbeat;
use crate::heartbeat::{Clock, Readings};
use crate::speed;
use vstd::prelude::*;

verus! {

/// Two bytes spell a number with the first as its high part: every number
/// reads back from its two halves, and no two pairs spell the same.
pub proof fn two_bytes_spell_a_number(n: u16, hi: u8, lo: u8)
    ensures
        bytes::be16((n / 256) as u8, (n % 256) as u8) == n,
        bytes::be16(hi, lo) - lo == 256 * hi,
        bytes::in_le16(lo, hi) == bytes::be16(hi, lo),
{
}

/// A number laid out with its low bytes first is the sum of its bytes, each
/// worth 256 times the one before it.
pub proof fn low_bytes_come_first(small: u16, large: u32)
    ensures
        bytes::le16(small).len() == 2,
        bytes::le16(small)[0] + 256 * bytes::le16(small)[1] == small,
        bytes::le32(large).len() == 4,
        bytes::le32(large)[0] + 256 * bytes::le32(large)[1] + 65536 * bytes::le32(large)[2]
            + 16777216 * bytes::le32(large)[3] == large,
{
}

/// Four bytes with the low ones first spell the sum of them.
pub proof fn four_bytes_spell_a_number(raw: Seq<u8>)
    requires
        raw.len() == 4,
    ensures
        bytes::in_le32(raw) == raw[0] + 256 * raw[1] + 65536 * raw[2] + 16777216 * raw[3],
{
}

/// Bytes that are written over others stand where they were put, and the
/// others are as they were.
pub proof fn a_piece_stands_where_it_was_put(data: Seq<u8>, at: int, piece: Seq<u8>, k: int)
    requires
        0 <= at,
        at + piece.len() <= data.len(),
        0 <= k < data.len(),
    ensures
        bytes::overlaid(data, at, piece).len() == data.len(),
        at <= k < at + piece.len() ==> bytes::overlaid(data, at, piece)[k] == piece[k - at],
        k < at || k >= at + piece.len() ==> bytes::overlaid(data, at, piece)[k] == data[k],
{
}

/// A request to connect is the byte 0x11 and the channel, a discovery request
/// the byte 0x10 and the pages, at least one and at most 26; both are padded
/// with zeros to 64 bytes.
pub proof fn requests_are_two_bytes_and_zeros(channel: u8, pages: u8, k: int)
    requires
        2 <= k < 64,
    ensures
        ({
            let connect = frame::short_frame(frame::GET_MAC, channel);
            let discover = frame::short_frame(frame::SEND_RF, frame::held_pages(pages));
            &&& connect.len() == 64
            &&& discover.len() == 64
            &&& connect[0] == 0x11
            &&& connect[1] == channel
            &&& connect[k] == 0
            &&& discover[0] == 0x10
            &&& 1 <= discover[1] <= 26
            &&& 1 <= pages <= 26 ==> discover[1] == pages
            &&& pages == 0 ==> discover[1] == 1
            &&& pages > 26 ==> discover[1] == 26
            &&& discover[k] == 0
        }),
{
}

/// A discovery reply of some pages can be 512 bytes for each page asked for,
/// and ten devices fit on a page: the pages asked for hold the devices, and
/// one page less would not.
pub proof fn ten_devices_fit_on_a_page(devices: u8, pages: u8)
    ensures
        devices <= 10 * frame::pages_needed(devices),
        devices > 10 ==> 10 * (frame::pages_needed(devices) - 1) < devices,
        devices <= 10 ==> frame::pages_needed(devices) == 1,
        1 <= pages <= 26 ==> frame::held_pages(pages) * frame::PAGE_LEN == 512 * pages,
{
}

/// Which answers to a connect request count: at least 13 bytes that begin
/// with 0x11, an address in the next six that is not all zeros, and a status
/// in the four behind it that is neither zero nor one.
pub proof fn which_connect_replies_count(reply: Seq<u8>)
    ensures
        reply.len() < 13 ==> frame::connect_reply_in(reply) is None,
        reply.len() >= 13 && reply[0] != 0x11 ==> frame::connect_reply_in(reply) is None,
        reply.len() >= 13 && (forall|i: int| 1 <= i < 7 ==> #[trigger] reply[i] == 0)
            ==> frame::connect_reply_in(reply) is None,
        reply.len() >= 13 && reply[7] == 0 && reply[8] == 0 && reply[9] == 0 && reply[10] <= 1
            ==> frame::connect_reply_in(reply) is None,
        reply.len() >= 13 && reply[0] == 0x11 && (exists|i: int|
            1 <= i < 7 && #[trigger] reply[i] != 0) && (reply[7] != 0 || reply[8] != 0 || reply[9]
            != 0 || reply[10] > 1) ==> frame::connect_reply_in(reply) is Some,
{
    if reply.len() >= 13 {
        let mac = reply.subrange(1, 7);
        if forall|i: int| 1 <= i < 7 ==> #[trigger] reply[i] == 0 {
            assert(mac =~= bytes::zeros(6));
        }
        if exists|i: int| 1 <= i < 7 && #[trigger] reply[i] != 0 {
            let i = choose|i: int| 1 <= i < 7 && #[trigger] reply[i] != 0;
            assert(mac[i - 1] != bytes::zeros(6)[i - 1]);
        }
    }
}

/// What an answer to a connect request says: the dongle's address in the six
/// bytes behind the first, and the firmware in the two behind the status.
pub proof fn what_a_connect_reply_says(reply: Seq<u8>, k: int)
    requires
        frame::connect_reply_in(reply) is Some,
        0 <= k < 6,
    ensures
        frame::connect_reply_in(reply)->0.master_mac[k] == reply[1 + k],
        frame::connect_reply_in(reply)->0.firmware == 256 * reply[11] + reply[12],
{
}

/// The channels are tried with the default, 8, in front and three times, every
/// other once.
pub proof fn channel_eight_is_tried_three_times(channel: u8)
    ensures
        frame::scan_order()[0] == 8,
        frame::attempts(8) == 3,
        channel != 8 ==> frame::attempts(channel) == 1,
{
}

/// A payload of 240 bytes goes out in four frames of 64: each begins with
/// 0x10, its number, the channel and the receiver type, and carries the sixty
/// bytes of the payload that are its turn.
pub proof fn a_frame_carries_its_sixty_bytes(
    channel: u8,
    receiver: u8,
    payload: Seq<u8>,
    i: int,
    k: int,
)
    requires
        payload.len() == 240,
        0 <= i < 4,
        0 <= k < 60,
    ensures
        ({
            let sent = frame::rf_frame(channel, receiver, payload, i);
            &&& frame::RF_CHUNKS == 4
            &&& sent.len() == 64
            &&& sent[0] == 0x10
            &&& sent[1] == i
            &&& sent[2] == channel
            &&& sent[3] == receiver
            &&& sent[4 + k] == payload[60 * i + k]
        }),
{
}

/// Which records of a discovery reply count, and as what: those of 42 bytes
/// that end in 0x1C and begin with an address that is not all zeros, as a
/// dongle where their kind is 0xFF, as a device where it is not.
pub proof fn which_records_count(record: Seq<u8>)
    ensures
        record.len() < 42 ==> !discovery::is_sound(record),
        record.len() >= 42 && record[41] != 0x1C ==> !discovery::is_sound(record),
        record.len() >= 42 && (forall|i: int| 0 <= i < 6 ==> #[trigger] record[i] == 0)
            ==> !discovery::is_sound(record),
        record.len() >= 42 && record[41] == 0x1C && (exists|i: int|
            0 <= i < 6 && #[trigger] record[i] != 0) ==> discovery::is_sound(record)
            && discovery::is_master(record) == (record[18] == 0xFF) && discovery::is_device(record)
            == (record[18] != 0xFF),
        !discovery::is_sound(record) ==> !discovery::is_master(record) && !discovery::is_device(
            record,
        ),
{
    if record.len() >= 42 {
        let mac = record.subrange(0, 6);
        if forall|i: int| 0 <= i < 6 ==> #[trigger] record[i] == 0 {
            assert(mac =~= bytes::zeros(6));
        }
        if exists|i: int| 0 <= i < 6 && #[trigger] record[i] != 0 {
            let i = choose|i: int| 0 <= i < 6 && #[trigger] record[i] != 0;
            assert(mac[i] != bytes::zeros(6)[i]);
        }
    }
}

/// Where a device's record says what: the address in its first six bytes, the
/// address of its dongle in the six behind, then channel and receiver type;
/// its kind at 18, its effect from 20 on, its fans' models from 24 on, their
/// duties from 36 on, the sequence number at 40.
pub proof fn a_record_says_what_where(record: Seq<u8>, k: int, j: int)
    requires
        0 <= k < 6,
        0 <= j < 4,
    ensures
        discovery::device_in(record).mac[k] == record[k],
        discovery::device_in(record).master_mac[k] == record[6 + k],
        discovery::device_in(record).channel == record[12],
        discovery::device_in(record).receiver == record[13],
        discovery::device_in(record).device_type == record[18],
        discovery::device_in(record).effect[j] == record[20 + j],
        discovery::device_in(record).fan_types[j] == record[24 + j],
        discovery::device_in(record).duty[j] == record[36 + j],
        discovery::device_in(record).sequence == record[40],
        discovery::master_in(record).mac[k] == record[k],
        discovery::master_in(record).channel == record[12],
{
}

/// A speed is read as it was written: where the two bytes of a slot hold a
/// number below 4096 with the high byte first, and any flags in the upper
/// half of that byte, the speed is that number.
pub proof fn a_speed_reads_as_it_was_written(record: Seq<u8>, slot: int, speed: u16, flags: u8)
    requires
        0 <= slot < 4,
        speed < 4096,
        flags < 16,
        record[28 + 2 * slot] == flags * 16 + speed / 256,
        record[29 + 2 * slot] == speed % 256,
    ensures
        discovery::device_in(record).rpm[slot] == speed,
{
    let high = record[28 + 2 * slot];
    assert(high & 0x0F == high % 16) by (bit_vector);
    assert((flags * 16 + speed / 256) % 16 == speed / 256);
    assert(discovery::device_in(record).rpm[slot] == discovery::rpm_at(record, slot));
}

/// Every speed that a record can hold is the low half of the first byte of
/// its slot times 256 and the second byte.
pub proof fn a_speed_is_twelve_bits(record: Seq<u8>, slot: int)
    requires
        0 <= slot < 4,
    ensures
        discovery::device_in(record).rpm[slot] == (record[28 + 2 * slot] % 16) * 256 + record[29
            + 2 * slot],
{
    let high = record[28 + 2 * slot];
    assert(high & 0x0F == high % 16) by (bit_vector);
    assert(discovery::device_in(record).rpm[slot] == discovery::rpm_at(record, slot));
}

/// The upper half of the first speed byte carries flags: the bit worth 32 for
/// a PWM line, the one worth 64 for mirrored lighting.
pub proof fn flags_stand_above_the_first_speed(record: Seq<u8>)
    ensures
        discovery::device_in(record).pwm_line == ((record[28] / 32) % 2 == 1),
        discovery::device_in(record).light_sync == ((record[28] / 64) % 2 == 1),
{
    let flags = record[28];
    assert((flags & 0x20 != 0) == ((flags / 32) % 2 == 1)) by (bit_vector);
    assert((flags & 0x40 != 0) == ((flags / 64) % 2 == 1)) by (bit_vector);
}

/// The count byte of a record is the number of fans, with ten added where they
/// chain from the right; more than four count as four.
pub proof fn a_count_byte_is_fans_and_side(record: Seq<u8>, fans: u8, right: bool)
    requires
        fans < 10 || right,
        fans <= 245,
        record[19] == fans + if right {
            10int
        } else {
            0
        },
    ensures
        discovery::device_in(record).right_attach == right,
        fans <= 4 ==> discovery::device_in(record).fan_count == fans,
        fans > 4 ==> discovery::device_in(record).fan_count == 4,
{
}

/// How many records a reply is read for: as many as its second byte reports,
/// but no more than ten for each page that was asked for, of which there is
/// one at least. They follow a header of four bytes, 42 bytes each.
pub proof fn records_follow_the_header(reply: Seq<u8>, pages: u8, i: int, k: int)
    requires
        0 <= i,
        0 <= k < 42,
        4 + 42 * i + 42 <= reply.len(),
    ensures
        pages >= 1 && reply[1] <= 10 * pages ==> discovery::record_count(reply, pages) == reply[1],
        pages >= 1 && reply[1] > 10 * pages ==> discovery::record_count(reply, pages) == 10 * pages,
        pages == 0 && reply[1] <= 10 ==> discovery::record_count(reply, pages) == reply[1],
        pages == 0 && reply[1] > 10 ==> discovery::record_count(reply, pages) == 10,
        discovery::expected_len(reply, pages) == 4 + 42 * discovery::record_count(reply, pages),
        discovery::record_at(reply, i).len() == 42,
        discovery::record_at(reply, i)[k] == reply[4 + 42 * i + k],
{
}

/// Which replies can be read: those of four bytes at least that begin with
/// 0x10 and hold the records they report; each other is refused with its
/// reason.
pub proof fn which_replies_can_be_read(reply: Seq<u8>, pages: u8)
    requires
        reply.len() <= usize::MAX,
    ensures
        reply.len() < 4 ==> discovery::reply_in(reply, pages) == Err::<
            discovery::ReplyState,
            Error,
        >(Error::Short),
        reply.len() >= 4 && reply[0] != 0x10 ==> discovery::reply_in(reply, pages) == Err::<
            discovery::ReplyState,
            Error,
        >(Error::WrongCommand(reply[0])),
        reply.len() >= 4 && reply[0] == 0x10 && reply.len() < 4 + 42 * discovery::record_count(
            reply,
            pages,
        ) ==> (discovery::reply_in(reply, pages) matches Err(Error::Truncated { expected, actual })
            && expected == 4 + 42 * discovery::record_count(reply, pages) && actual == reply.len()),
        reply.len() >= 4 && reply[0] == 0x10 && reply.len() >= 4 + 42 * discovery::record_count(
            reply,
            pages,
        ) ==> (discovery::reply_in(reply, pages) matches Ok(read) && read.reported == reply[1]),
{
}

/// A further record adds to what a reply says: a dongle behind the dongles, a
/// device behind the devices, anything else to what was skipped, and to
/// nothing else.
pub proof fn a_further_record_adds_to_one_list(records: Seq<Seq<u8>>, record: Seq<u8>)
    ensures
        ({
            let more = records.push(record);
            &&& discovery::is_master(record) ==> discovery::masters_in(more)
                == discovery::masters_in(records).push(discovery::master_in(record))
            &&& !discovery::is_master(record) ==> discovery::masters_in(more)
                == discovery::masters_in(records)
            &&& discovery::is_device(record) ==> discovery::devices_in(more)
                == discovery::devices_in(records).push(discovery::device_in(record))
            &&& !discovery::is_device(record) ==> discovery::devices_in(more)
                == discovery::devices_in(records)
            &&& discovery::unsound_in(more).len() == discovery::unsound_in(records).len() + if !(
            discovery::is_master(record) || discovery::is_device(record)) {
                1int
            } else {
                0
            }
        }),
{
    reveal(Seq::filter);
    let more = records.push(record);
    assert(more.drop_last() =~= records);
    assert(more.last() == record);
    let masters = records.filter(|r: Seq<u8>| discovery::is_master(r));
    let devices = records.filter(|r: Seq<u8>| discovery::is_device(r));
    if discovery::is_master(record) {
        assert(discovery::masters_in(more) =~= discovery::masters_in(records).push(
            discovery::master_in(record),
        )) by {
            assert(more.filter(|r: Seq<u8>| discovery::is_master(r)) =~= masters.push(record));
        }
    }
    if discovery::is_device(record) {
        assert(discovery::devices_in(more) =~= discovery::devices_in(records).push(
            discovery::device_in(record),
        )) by {
            assert(more.filter(|r: Seq<u8>| discovery::is_device(r)) =~= devices.push(record));
        }
    }
}

/// What a reply says is what its records say, in their order: nothing where it
/// has none, and with every further record what that one adds.
pub proof fn a_reply_says_what_its_records_say(reply: Seq<u8>, pages: u8)
    requires
        discovery::reply_in(reply, pages) is Ok,
    ensures
        ({
            let read = discovery::reply_in(reply, pages)->Ok_0;
            let all = Seq::new(
                discovery::record_count(reply, pages) as nat,
                |i: int| reply.subrange(4 + 42 * i, 46 + 42 * i),
            );
            &&& read.masters == discovery::masters_in(all)
            &&& read.devices == discovery::devices_in(all)
            &&& read.masters.len() + read.devices.len() + read.skipped == all.len()
        }),
        discovery::masters_in(Seq::empty()).len() == 0,
        discovery::devices_in(Seq::empty()).len() == 0,
{
    let all = Seq::new(
        discovery::record_count(reply, pages) as nat,
        |i: int| reply.subrange(4 + 42 * i, 46 + 42 * i),
    );
    let records = discovery::records(reply, discovery::record_count(reply, pages));
    assert(all =~= records);
    discovery::every_record_counts_once(records);
    reveal(Seq::filter);
}

/// The block of a heartbeat is 220 bytes: the readings in the first eight,
/// clocks with the high byte first, the date and time from 32 on, the year
/// with the high byte first, and zeros elsewhere.
pub proof fn a_block_holds_readings_and_time(readings: Readings, clock: Clock, k: int)
    requires
        8 <= k < 32 || 39 <= k < 220,
    ensures
        ({
            let block = heartbeat::block_bytes(readings, clock);
            &&& block.len() == 220
            &&& block[0] == readings.cpu_temp
            &&& block[1] == readings.cpu_load
            &&& block[2] == readings.gpu_temp
            &&& block[3] == readings.gpu_load
            &&& 256 * block[4] + block[5] == readings.cpu_mhz
            &&& 256 * block[6] + block[7] == readings.gpu_mhz
            &&& 256 * block[32] + block[33] == clock.year
            &&& block[34] == clock.month
            &&& block[35] == clock.day
            &&& block[36] == clock.hour
            &&& block[37] == clock.minute
            &&& block[38] == clock.second
            &&& block[k] == 0
        }),
{
}

/// A heartbeat is 240 bytes: 0x12 and 0x14, six zeros, the dongle's address,
/// the block from 14 on, six zeros. The first one has 0x14 in place of the
/// first fifty bytes of the block.
pub proof fn a_heartbeat_carries_its_block(
    master: Seq<u8>,
    block: Seq<u8>,
    first: bool,
    m: int,
    k: int,
    z: int,
)
    requires
        master.len() == 6,
        block.len() == 220,
        0 <= m < 6,
        0 <= k < 220,
        0 <= z < 6,
    ensures
        ({
            let sent = heartbeat::payload_bytes(master, block, first);
            &&& sent.len() == 240
            &&& sent[0] == 0x12
            &&& sent[1] == 0x14
            &&& sent[2 + z] == 0
            &&& sent[8 + m] == master[m]
            &&& first && k < 50 ==> sent[14 + k] == 0x14
            &&& !first || k >= 50 ==> sent[14 + k] == block[k]
            &&& sent[234 + z] == 0
        }),
{
}

/// A speed command is 240 bytes: 0x12 and 0x10, the group's address, the
/// dongle's address, the group's receiver type, the dongle's channel, the
/// group's slot, its four duties, zeros.
pub proof fn a_speed_command_names_group_and_duties(
    device: Device,
    master: [u8; 6],
    channel: u8,
    slot: u8,
    duty: [u8; FANS_PER_GROUP],
    m: int,
    f: int,
    z: int,
)
    requires
        0 <= m < 6,
        0 <= f < 4,
        21 <= z < 240,
    ensures
        ({
            let sent = speed::payload_bytes(device, master, channel, slot, duty);
            &&& sent.len() == 240
            &&& sent[0] == 0x12
            &&& sent[1] == 0x10
            &&& sent[2 + m] == device.mac[m]
            &&& sent[8 + m] == master[m]
            &&& sent[14] == device.receiver
            &&& sent[15] == channel
            &&& sent[16] == slot
            &&& sent[17 + f] == duty[f]
            &&& sent[z] == 0
        }),
{
}

} // verus!
