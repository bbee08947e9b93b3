use lianli_wireless::device::TIMEOUT;
use lianli_wireless::discovery;
use lianli_wireless::dongle::{
    connect, connect_on, drain, gather, poll, send, Dongle, Error, CHUNK_GAP, CONNECT_WAIT,
    FLUSH_WAIT, RECONNECT_ATTEMPTS, REPLY_PAUSE, REPLY_WAIT,
};
use lianli_wireless::enumerate::Role;
use lianli_wireless::scripted::{Reads, ScriptedPort};
use lianli_wireless::win::{WinError, ERROR_DEVICE_NOT_CONNECTED};

/// A port with reads waiting.
struct Fake;

impl Fake {
    fn new(waiting: Reads) -> ScriptedPort {
        ScriptedPort::new(waiting, Vec::new())
    }

    fn answering(per_write: Vec<Reads>) -> ScriptedPort {
        ScriptedPort::new(Vec::new(), per_write)
    }
}

const MAC: [u8; 6] = [0xbf, 0x3d, 0xca, 0xe5, 0x66, 0xe4];

fn connect_reply() -> Vec<u8> {
    let mut reply = vec![0; 64];
    reply[0] = 0x11;
    reply[1..7].copy_from_slice(&MAC);
    reply[7..11].copy_from_slice(&[0, 0, 0, 2]);
    reply[11..13].copy_from_slice(&[1, 6]);
    reply
}

#[test]
fn dongle_gather_returns_nothing_when_the_first_piece_never_comes() {
    let mut port = Fake::new(vec![]);
    assert_eq!(
        gather(&mut port, &mut [0; 512], TIMEOUT, TIMEOUT).unwrap(),
        0
    );
}

#[test]
fn dongle_gather_keeps_what_arrived_before_the_pause() {
    let mut port = Fake::new(vec![Ok(vec![0x10, 0, 0x80])]);
    let mut buffer = [0; 512];
    let n = gather(&mut port, &mut buffer, REPLY_WAIT, REPLY_PAUSE).unwrap();
    assert_eq!(n, 3);
    assert_eq!(&buffer[..3], &[0x10, 0, 0x80]);
    assert_eq!(port.timeouts, vec![REPLY_WAIT, REPLY_PAUSE]);
}

#[test]
fn dongle_gather_passes_on_a_failure_after_a_partial_reply() {
    let lost = WinError {
        call: "WinUsb_ReadPipe",
        code: ERROR_DEVICE_NOT_CONNECTED,
    };
    let mut port = Fake::new(vec![Ok(vec![0x10; 64]), Err(lost)]);
    assert_eq!(
        gather(&mut port, &mut [0; 512], TIMEOUT, TIMEOUT),
        Err(lost)
    );
}

#[test]
fn gather_stops_at_capacity_and_clips() {
    let mut port = Fake::new(vec![Ok(vec![9; 64]), Ok(vec![9; 64])]);
    let mut buffer = [0; 100];
    assert_eq!(
        gather(&mut port, &mut buffer, TIMEOUT, TIMEOUT).unwrap(),
        100
    );
    assert_eq!(buffer, [9; 100]);
    assert_eq!(port.timeouts.len(), 2);
    let mut port = Fake::new(vec![Ok(vec![1])]);
    assert_eq!(gather(&mut port, &mut [], TIMEOUT, TIMEOUT).unwrap(), 0);
    assert!(port.timeouts.is_empty());
}

#[test]
fn drain_reads_until_silence_or_the_cap() {
    let mut port = Fake::new(vec![Ok(vec![1; 64]), Ok(vec![2; 64])]);
    drain(&mut port, 64, 16).unwrap();
    assert_eq!(port.timeouts.len(), 3);
    let mut port = Fake::new((0..100).map(|_| Ok(vec![1; 64])).collect());
    drain(&mut port, 64, 16).unwrap();
    assert_eq!(port.timeouts.len(), 16);
}

#[test]
fn connect_takes_the_first_valid_reply() {
    let mut port = Fake::answering(vec![vec![Ok(connect_reply())]]);
    let (reply, channel) = connect(&mut port).unwrap();
    assert_eq!(reply.master_mac, MAC);
    assert_eq!(reply.firmware, 0x0106);
    assert_eq!(channel, 8);
    assert_eq!(port.writes.len(), 1);
    assert_eq!(&port.writes[0][..2], &[0x11, 8]);
    assert_eq!(port.timeouts.len(), 2);
    assert_eq!(port.timeouts[1], CONNECT_WAIT);
}

#[test]
fn connect_moves_on_after_bad_replies_and_gives_up_after_the_scan() {
    let mut bad = connect_reply();
    bad[0] = 0x10;
    let mut port = Fake::answering(vec![vec![Ok(bad.clone())], vec![], vec![Ok(bad)]]);
    assert_eq!(connect(&mut port), Err(Error::NoMaster));
    let channels: Vec<u8> = port.writes.iter().map(|w| w[1]).collect();
    assert_eq!(channels.len(), 41);
    assert_eq!(&channels[..4], &[8, 8, 8, 2]);
    assert_eq!(channels[40], 39);
}

#[test]
fn connect_stops_at_the_first_failed_transfer() {
    let lost = WinError {
        call: "WinUsb_ReadPipe",
        code: ERROR_DEVICE_NOT_CONNECTED,
    };
    let mut port = Fake::answering(vec![vec![], vec![Err(lost)]]);
    assert_eq!(
        connect(&mut port),
        Err(Error::Transfer(Role::Transmitter, lost))
    );
    assert_eq!(port.writes.len(), 2);

    let mut refusing = Fake::new(vec![]);
    refusing.write_result = Some(Err(WinError {
        call: "WinUsb_WritePipe",
        code: ERROR_DEVICE_NOT_CONNECTED,
    }));
    assert!(matches!(
        connect(&mut refusing),
        Err(Error::Transfer(Role::Transmitter, _))
    ));
}

#[test]
fn connect_on_tries_one_channel_a_few_times() {
    let mut port = Fake::answering(vec![vec![], vec![Ok(connect_reply())]]);
    let (_, channel) = connect_on(&mut port, 8).unwrap();
    assert_eq!(channel, 8);
    assert_eq!(port.writes.len(), 2);

    let mut silent = Fake::answering(vec![]);
    assert_eq!(connect_on(&mut silent, 12), Err(Error::NoMaster));
    let channels: Vec<u8> = silent.writes.iter().map(|w| w[1]).collect();
    assert_eq!(channels, vec![12; usize::from(RECONNECT_ATTEMPTS)]);
}

#[test]
fn connect_answers_on_a_later_channel() {
    let mut port = Fake::answering(vec![vec![], vec![], vec![], vec![Ok(connect_reply())]]);
    let (_, channel) = connect(&mut port).unwrap();
    assert_eq!(channel, 2);
    assert_eq!(port.writes.len(), 4);
}

#[test]
fn poll_drains_asks_and_parses() {
    let mut record = vec![0u8; 42];
    record[0..6].copy_from_slice(&[1, 2, 3, 4, 5, 6]);
    record[6..12].copy_from_slice(&MAC);
    record[12] = 8;
    record[13] = 2;
    record[19] = 3;
    record[41] = 0x1C;
    let mut reply = vec![0x10, 1, 0, 0];
    reply.extend_from_slice(&record);
    let mut port = Fake::new(vec![Ok(vec![0xAA; 512])]);
    port.per_write = vec![vec![Ok(reply[..40].to_vec()), Ok(reply[40..].to_vec())]].into();
    let parsed = poll(&mut port, 1).unwrap();
    assert_eq!(parsed.reported, 1);
    assert_eq!(parsed.devices.len(), 1);
    assert_eq!(parsed.devices[0].mac, [1, 2, 3, 4, 5, 6]);
    assert_eq!(port.writes.len(), 1);
    assert_eq!(&port.writes[0][..2], &[0x10, 1]);
    assert_eq!(port.timeouts[..2], [FLUSH_WAIT, FLUSH_WAIT]);
    assert_eq!(port.timeouts[2], REPLY_WAIT);
    assert_eq!(port.timeouts[3], REPLY_PAUSE);
}

#[test]
fn poll_reports_a_bad_reply() {
    let mut port = Fake::answering(vec![vec![Ok(vec![0x11, 0, 0, 0])]]);
    assert_eq!(
        poll(&mut port, 1),
        Err(Error::Reply(discovery::Error::WrongCommand(0x11)))
    );
    let mut port = Fake::answering(vec![vec![]]);
    assert_eq!(
        poll(&mut port, 1),
        Err(Error::Reply(discovery::Error::Short))
    );
}

#[test]
fn send_writes_four_frames() {
    let mut port = Fake::new(vec![]);
    let mut payload = [0u8; 240];
    payload[0] = 0x12;
    send(&mut port, 8, 0xFF, &payload).unwrap();
    assert_eq!(port.writes.len(), 4);
    assert_eq!(&port.writes[0][..5], &[0x10, 0, 8, 0xFF, 0x12]);
    assert_eq!(&port.writes[3][..4], &[0x10, 3, 8, 0xFF]);
}

#[test]
fn a_short_write_is_an_error() {
    let mut short = Fake::new(vec![]);
    short.write_result = Some(Ok(10));
    assert_eq!(
        poll(&mut short, 1),
        Err(Error::ShortWrite(Role::Receiver, 10))
    );
    assert_eq!(
        Error::ShortWrite(Role::Receiver, 10).text(""),
        "receiver took 10 of 64 bytes"
    );
}

#[test]
fn a_gap_follows_every_frame_that_went_out() {
    let mut port = Fake::new(vec![]);
    send(&mut port, 8, 2, &[7; 240]).unwrap();
    assert_eq!(port.waits, vec![CHUNK_GAP; 4]);
    let mut port = Fake::new(vec![]);
    port.write_result = Some(Ok(63));
    assert_eq!(
        send(&mut port, 8, 2, &[7; 240]),
        Err(Error::ShortWrite(Role::Transmitter, 63))
    );
    assert_eq!(port.writes.len(), 1);
    assert!(port.waits.is_empty());
}

#[test]
fn the_pages_asked_for_follow_what_was_reported() {
    let tx = Fake::answering(vec![vec![Ok(connect_reply())]]);
    let mut eleven = vec![0x10u8, 11, 0, 0];
    eleven.resize(4 + 10 * 42, 0);
    let pieces: Reads = eleven.chunks(64).map(|c| Ok(c.to_vec())).collect();
    let rx = Fake::answering(vec![pieces, vec![]]);
    let mut dongle = Dongle::attach(tx, rx, None).unwrap();
    assert_eq!(dongle.channel, 8);
    assert_eq!(dongle.master.master_mac, MAC);
    assert_eq!(dongle.poll().unwrap().skipped, 10);
    assert_eq!(dongle.pages, 2);
    assert_eq!(dongle.poll(), Err(Error::Reply(discovery::Error::Short)));
    assert_eq!(dongle.pages, 2);
    let handles = dongle.handles.as_ref().unwrap();
    assert_eq!(handles.rx.writes[0][1], 1);
    assert_eq!(handles.rx.writes[1][1], 2);
}

#[test]
fn a_closed_pair_refuses_until_a_reopen_succeeds() {
    let tx = Fake::answering(vec![vec![Ok(connect_reply())]]);
    let mut dongle = Dongle::attach(tx, Fake::new(vec![]), Some(8)).unwrap();
    dongle.send(2, &[0; 240]).unwrap();
    let handles = dongle.handles.as_ref().unwrap();
    assert_eq!(&handles.tx.writes[1][..4], &[0x10, 0, 8, 2]);
    dongle.close();
    assert_eq!(dongle.poll(), Err(Error::Closed));
    assert_eq!(dongle.send_on(3, 2, &[0; 240]), Err(Error::Closed));
    assert_eq!(
        Error::Closed.text(""),
        "the dongle is closed until it is reopened"
    );
    assert_eq!(
        dongle.reopen(Err(Error::NoMaster), false),
        Err(Error::NoMaster)
    );
    let silent = Fake::answering(vec![]);
    assert_eq!(
        dongle.reopen(Ok((silent, Fake::new(vec![]))), false),
        Err(Error::NoMaster)
    );
    assert_eq!(dongle.poll(), Err(Error::Closed));
    let tx = Fake::answering(vec![vec![], vec![], vec![], vec![Ok(connect_reply())]]);
    dongle.reopen(Ok((tx, Fake::new(vec![]))), true).unwrap();
    assert_eq!(dongle.channel, 2);
    assert_eq!(dongle.poll(), Err(Error::Reply(discovery::Error::Short)));
}

#[test]
fn errors_name_the_dongle() {
    let lost = WinError {
        call: "WinUsb_ReadPipe",
        code: ERROR_DEVICE_NOT_CONNECTED,
    };
    assert_eq!(
        Error::Transfer(Role::Receiver, lost).text("The device is not connected."),
        "receiver: WinUsb_ReadPipe failed with error 1167: The device is not connected."
    );
    assert_eq!(Error::Transfer(Role::Receiver, lost).code(), Some(1167));
    assert_eq!(
        Error::Open(Role::Transmitter, lianli_wireless::device::Error::NoPipe(1)).text(""),
        "opening the transmitter: the device has no pipe 0x01"
    );
    assert_eq!(Error::NoMaster.text(""), "the transmitter answered on no channel");
    assert_eq!(
        Error::Find(lianli_wireless::enumerate::Error::Missing(Role::Receiver)).text(""),
        "no receiver dongle is attached"
    );
    assert_eq!(
        Error::Reply(discovery::Error::Truncated {
            expected: 46,
            actual: 10
        })
        .text(""),
        "discovery reply truncated: 10 of 46 bytes"
    );
    assert_eq!(
        Error::Reply(discovery::Error::WrongCommand(0x0f)).text(""),
        "discovery reply has command byte 0x0f"
    );
    assert_eq!(
        Error::Reply(discovery::Error::Short).text(""),
        "discovery reply shorter than its header"
    );
}
