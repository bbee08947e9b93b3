use lianli_wireless::device::{
    choose_pipes, open_policies, pipe_from, read_outcome, timeout_millis, timeout_to_set, Error,
    Pipe, Setup, Timeouts, Transfer, IN_PIPE, OUT_PIPE, TIMEOUT,
};
use lianli_wireless::dongle::{flush, gather, FLUSH_WAIT};
use lianli_wireless::scripted::ScriptedPort;
use lianli_wireless::win::{
    WinError, ALLOW_PARTIAL_READS, AUTO_CLEAR_STALL, ERROR_DEVICE_NOT_CONNECTED,
    ERROR_SEM_TIMEOUT, USB_INTERFACE_DESCRIPTOR, WINUSB_PIPE_INFORMATION,
};
use std::time::Duration;

#[test]
fn timeouts_become_whole_milliseconds_of_at_least_one() {
    assert_eq!(timeout_millis(Duration::from_millis(5).as_nanos()), 5);
    assert_eq!(timeout_millis(Duration::from_micros(200).as_nanos()), 1);
    assert_eq!(timeout_millis(Duration::ZERO.as_nanos()), 1);
    assert_eq!(timeout_millis(Duration::from_secs(5).as_nanos()), 5000);
    assert_eq!(timeout_millis(Duration::from_secs(1 << 40).as_nanos()), u32::MAX);
}

#[test]
fn device_gather_returns_nothing_when_the_first_piece_never_comes() {
    let mut port = ScriptedPort::new(vec![], vec![]);
    let n = gather(&mut port, &mut [0; 512], TIMEOUT, TIMEOUT).unwrap();
    assert_eq!(n, 0);
}

#[test]
fn device_gather_keeps_what_arrived_before_the_pause() {
    let first = Duration::from_millis(100).as_nanos();
    let pause = Duration::from_millis(10).as_nanos();
    let mut port = ScriptedPort::new(vec![Ok(vec![0x10, 0, 0x80])], vec![]);
    let mut buffer = [0; 512];
    let n = gather(&mut port, &mut buffer, first, pause).unwrap();
    assert_eq!(n, 3);
    assert_eq!(&buffer[..3], &[0x10, 0, 0x80]);
    assert_eq!(port.timeouts, vec![first, pause]);
}

#[test]
fn device_gather_passes_on_a_failure_after_a_partial_reply() {
    let lost = WinError {
        call: "WinUsb_ReadPipe",
        code: ERROR_DEVICE_NOT_CONNECTED,
    };
    let mut port = ScriptedPort::new(vec![Ok(vec![0x10; 64]), Err(lost)], vec![]);
    let result = gather(&mut port, &mut [0; 512], TIMEOUT, TIMEOUT);
    assert_eq!(result, Err(lost));
}

#[test]
fn gather_stops_at_capacity_and_skips_an_empty_buffer() {
    let mut port = ScriptedPort::new(vec![Ok(vec![9; 64]), Ok(vec![9; 64])], vec![]);
    let mut buffer = [0; 64];
    let n = gather(&mut port, &mut buffer, TIMEOUT, TIMEOUT).unwrap();
    assert_eq!(n, 64);
    assert_eq!(port.timeouts.len(), 1);
    assert_eq!(buffer, [9; 64]);
    let mut port = ScriptedPort::new(vec![Ok(vec![9; 64])], vec![]);
    let n = gather(&mut port, &mut [], TIMEOUT, TIMEOUT).unwrap();
    assert_eq!(n, 0);
    assert!(port.timeouts.is_empty(), "empty buffer");
}

#[test]
fn gather_clips_an_overlong_piece_to_the_space_left() {
    let mut port = ScriptedPort::new(vec![Ok(vec![7; 64]), Ok(vec![7; 64])], vec![]);
    let mut buffer = [0; 100];
    let n = gather(&mut port, &mut buffer, TIMEOUT, TIMEOUT).unwrap();
    assert_eq!(n, 100);
    assert_eq!(buffer, [7; 100]);
}

#[test]
fn errors_describe_the_pipe() {
    assert_eq!(Error::NoPipe(0x81).text(""), "the device has no pipe 0x81");
    assert_eq!(
        Error::PipeType(0x01, 1).text(""),
        "pipe 0x01 has unusable transfer type 1"
    );
}

#[test]
fn pipes_are_read_from_the_descriptor() {
    let mut info = WINUSB_PIPE_INFORMATION {
        PipeType: 2,
        PipeId: 0x01,
        MaximumPacketSize: 64,
        Interval: 0,
    };
    let bulk = Pipe {
        id: 0x01,
        transfer: Transfer::Bulk,
        max_packet: 64,
    };
    assert_eq!(pipe_from(&info), Ok(bulk));
    info.PipeType = 3;
    info.PipeId = 0x81;
    let interrupt = Pipe {
        id: 0x81,
        transfer: Transfer::Interrupt,
        max_packet: 64,
    };
    assert_eq!(pipe_from(&info), Ok(interrupt));
    info.PipeType = -1;
    assert_eq!(pipe_from(&info), Err(Error::PipeType(0x81, -1)));
    assert_eq!(
        Error::PipeType(0x81, -1).text(""),
        "pipe 0x81 has unusable transfer type -1"
    );
    let later = Pipe {
        max_packet: 8,
        ..bulk
    };
    assert_eq!(choose_pipes(&[interrupt, bulk, later]), Ok((bulk, interrupt)));
    assert_eq!(choose_pipes(&[interrupt]), Err(Error::NoPipe(OUT_PIPE)));
    assert_eq!(choose_pipes(&[bulk]), Err(Error::NoPipe(IN_PIPE)));
    assert_eq!(choose_pipes(&[]), Err(Error::NoPipe(OUT_PIPE)));
}

#[test]
fn a_timeout_is_set_only_where_it_changed() {
    assert_eq!(timeout_to_set(None, TIMEOUT), Some(5000));
    assert_eq!(timeout_to_set(Some(5000), TIMEOUT), None);
    assert_eq!(timeout_to_set(Some(5), TIMEOUT), Some(5000));
}

#[test]
fn a_read_out_of_time_reads_nothing() {
    let timed_out = WinError {
        call: "WinUsb_ReadPipe",
        code: ERROR_SEM_TIMEOUT,
    };
    let lost = WinError {
        call: "WinUsb_ReadPipe",
        code: ERROR_DEVICE_NOT_CONNECTED,
    };
    assert_eq!(read_outcome(Err(timed_out)), Ok(0));
    assert_eq!(read_outcome(Err(lost)), Err(lost));
    assert_eq!(read_outcome(Ok(7)), Ok(7));
}

#[test]
fn a_flush_reads_until_silence_or_a_failure() {
    let lost = WinError {
        call: "WinUsb_ReadPipe",
        code: ERROR_DEVICE_NOT_CONNECTED,
    };
    let mut port = ScriptedPort::new(vec![Ok(vec![1; 512]), Ok(vec![1; 3])], vec![]);
    flush(&mut port);
    assert_eq!(port.timeouts, vec![FLUSH_WAIT; 3]);
    let mut port = ScriptedPort::new(vec![Ok(vec![1; 512]), Err(lost), Ok(vec![1])], vec![]);
    flush(&mut port);
    assert_eq!(port.timeouts.len(), 2);
    let mut port = ScriptedPort::new((0..100).map(|_| Ok(vec![1; 512])).collect(), vec![]);
    flush(&mut port);
    assert_eq!(port.timeouts.len(), 64);
}

#[test]
fn a_device_is_asked_for_each_of_its_pipes() {
    let descriptor = USB_INTERFACE_DESCRIPTOR::from_bytes(&[9, 4, 0, 0, 2, 255, 0, 0, 0]);
    let told = |id: u8, kind: i32| WINUSB_PIPE_INFORMATION {
        PipeType: kind,
        PipeId: id,
        MaximumPacketSize: 64,
        Interval: 1,
    };
    let mut setup = Setup::new(&descriptor);
    assert_eq!(setup.next_pipe(), Some(0));
    assert_eq!(setup.take(&told(OUT_PIPE, 3)), Ok(()));
    assert_eq!(setup.next_pipe(), Some(1));
    assert_eq!(setup.chosen(), Err(Error::NoPipe(IN_PIPE)));
    assert_eq!(setup.take(&told(IN_PIPE, 1)), Err(Error::PipeType(IN_PIPE, 1)));
    assert_eq!(setup.next_pipe(), Some(1));
    assert_eq!(setup.take(&told(IN_PIPE, 2)), Ok(()));
    assert_eq!(setup.next_pipe(), None);
    let (out_pipe, in_pipe) = setup.chosen().unwrap();
    assert_eq!(out_pipe.transfer, Transfer::Interrupt);
    assert_eq!(in_pipe.transfer, Transfer::Bulk);
    assert_eq!(open_policies(), [AUTO_CLEAR_STALL, ALLOW_PARTIAL_READS]);
}

#[test]
fn each_pipe_keeps_its_own_timeout() {
    let mut timeouts = Timeouts::new();
    assert_eq!(timeouts.to_set(IN_PIPE, TIMEOUT), Some(5000));
    timeouts.set(IN_PIPE, 5000);
    assert_eq!(timeouts.to_set(IN_PIPE, TIMEOUT), None);
    assert_eq!(timeouts.to_set(OUT_PIPE, TIMEOUT), Some(5000));
    timeouts.set(OUT_PIPE, 5000);
    assert_eq!(timeouts.to_set(IN_PIPE, FLUSH_WAIT), Some(5));
    assert_eq!(timeouts.to_set(OUT_PIPE, TIMEOUT), None);
}
