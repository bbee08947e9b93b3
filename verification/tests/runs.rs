use lianli_wireless::discovery::{Device, Reply};
use lianli_wireless::dongle;
use lianli_wireless::engine::Core;
use lianli_wireless::enumerate::Role;
use lianli_wireless::heartbeat::Clock;
use lianli_wireless::scripted::ScriptedLink;
use lianli_wireless::time::SECOND;
use lianli_wireless::win::{WinError, ERROR_DEVICE_NOT_CONNECTED};

const MASTER: [u8; 6] = [9; 6];
const A: [u8; 6] = [1; 6];
const B: [u8; 6] = [2; 6];
const NOW: u128 = 1_000 * SECOND;
const SPEED: u8 = 0x10;

/// A group with some fans that answers on a channel of its own.
fn device(mac: [u8; 6], channel: u8, fan_count: u8) -> Device {
    Device {
        mac,
        master_mac: MASTER,
        channel,
        receiver: 2,
        device_type: 0,
        fan_count,
        right_attach: false,
        effect: [0; 4],
        fan_types: [46, 46, 46, 46],
        rpm: [1800; 4],
        duty: [206; 4],
        sequence: 0,
        pwm_line: false,
        light_sync: false,
    }
}

fn reply() -> Reply {
    Reply {
        reported: 2,
        masters: Vec::new(),
        devices: vec![device(A, 3, 2), device(B, 4, 4)],
        skipped: 0,
    }
}

fn lost() -> dongle::Error {
    dongle::Error::Transfer(
        Role::Receiver,
        WinError { call: "WinUsb_ReadPipe", code: ERROR_DEVICE_NOT_CONNECTED },
    )
}

/// The duties sent on a channel from the `from`th send on.
fn duties(link: &ScriptedLink, channel: u8, from: usize) -> Vec<[u8; 4]> {
    link.sent[from..]
        .iter()
        .filter(|s| s.command == SPEED && s.channel == channel)
        .map(|s| s.duty)
        .collect()
}

/// Makes passes a second apart and says when the next would be.
fn pass(core: &mut Core, link: &mut ScriptedLink, from: u128, count: u128) -> u128 {
    for i in 0..count {
        core.tick(link, from + i * SECOND, Clock::default());
    }
    from + count * SECOND
}

#[test]
fn no_speed_command_of_a_run_stops_a_fan() {
    let mut link = ScriptedLink::new(MASTER, 8, reply());
    let mut core = Core::new(MASTER, 8);
    core.want(A, 0);
    core.want(B, 29);
    let mut now = pass(&mut core, &mut link, NOW, 3);
    core.want(A, 250);
    now = pass(&mut core, &mut link, now, 2);
    core.release(B);
    now = pass(&mut core, &mut link, now, 2);
    for _ in 0..4 {
        link.serve(Err(lost()));
    }
    let before = link.sent.len();
    now = pass(&mut core, &mut link, now, 3);
    assert_eq!(core.snapshot().alarm, None);
    assert_eq!(duties(&link, 3, before).last(), Some(&[255, 255, 0, 0]));
    assert_eq!(duties(&link, 4, before), [[255; 4]]);
    core.want(B, 10);
    pass(&mut core, &mut link, now, 4);
    for sent in link.sent.iter().filter(|s| s.command == SPEED) {
        let fans = if sent.channel == 3 { 2 } else { 4 };
        assert!(sent.duty[..fans].iter().all(|&duty| duty >= 77), "{:?}", sent.duty);
        assert!(sent.duty[fans..].iter().all(|&duty| duty == 0), "{:?}", sent.duty);
    }
    assert_eq!(duties(&link, 3, 0)[0], [77, 77, 0, 0]);
    assert_eq!(duties(&link, 4, 0).last(), Some(&[77; 4]));
}

#[test]
fn a_released_group_gets_nothing_until_it_is_asked_again() {
    let mut link = ScriptedLink::new(MASTER, 8, reply());
    let mut core = Core::new(MASTER, 8);
    core.want(A, 50);
    core.want(B, 50);
    let mut now = pass(&mut core, &mut link, NOW, 2);
    core.take_events();
    core.release(A);
    assert_eq!(
        core.take_events(),
        ["01:01:01:01:01:01 released; its fans keep their last duty"]
    );
    core.release(A);
    assert!(core.take_events().is_empty());
    for _ in 0..30 {
        let before = link.sent.len();
        now = pass(&mut core, &mut link, now, 1);
        assert!(duties(&link, 3, before).is_empty());
        assert_eq!(duties(&link, 4, before), [[128; 4]]);
        let shown = core.snapshot().groups.iter().find(|g| g.mac == A).unwrap();
        assert_eq!(shown.target, None);
        assert!(!shown.acknowledged);
        core.release(A);
    }
    assert!(!core.take_events().iter().any(|line| line.contains("released")));
    core.want(A, 60);
    let before = link.sent.len();
    pass(&mut core, &mut link, now, 1);
    assert_eq!(duties(&link, 3, before), [[153, 153, 0, 0]]);
}

/// The lines about a group's target.
fn targets(core: &mut Core, mac: &str) -> Vec<String> {
    let start = format!("{mac} target ");
    let events = core.take_events();
    events.into_iter().filter(|line| line.starts_with(&start)).collect()
}

#[test]
fn target_changes_are_told_every_ten_seconds_with_what_was_left_out() {
    let a = "01:01:01:01:01:01";
    let mut link = ScriptedLink::new(MASTER, 8, reply());
    let mut core = Core::new(MASTER, 8);
    core.want(A, 100);
    let mut now = pass(&mut core, &mut link, NOW, 1);
    assert_eq!(targets(&mut core, a), [format!("{a} target 100% [255, 255]")]);
    for percent in [40, 60, 50] {
        core.want(A, percent);
        core.want(B, percent);
        now = pass(&mut core, &mut link, now, 1);
        assert!(targets(&mut core, a).is_empty());
    }
    now = pass(&mut core, &mut link, now, 6);
    assert!(targets(&mut core, a).is_empty());
    now = pass(&mut core, &mut link, now, 1);
    assert_eq!(
        targets(&mut core, a),
        [format!("{a} target 50% [128, 128] (2 earlier changes not logged)")]
    );
    now = pass(&mut core, &mut link, now, 9);
    core.want(A, 100);
    pass(&mut core, &mut link, now, 1);
    assert_eq!(targets(&mut core, a), [format!("{a} target 100% [255, 255]")]);
}
