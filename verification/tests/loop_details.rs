use lianli_wireless::discovery::{Device, Reply};
use lianli_wireless::dongle;
use lianli_wireless::engine::{
    panic_text, started_line, tick_failed_line, Core, Link, Request, Snapshot, TICK,
};
use lianli_wireless::enumerate::Role;
use lianli_wireless::heartbeat::Clock;
use lianli_wireless::pace::{Pace, Phase, Step, NAP};
use lianli_wireless::scripted::ScriptedLink;
use lianli_wireless::time::SECOND;
use lianli_wireless::win::{WinError, ERROR_DEVICE_NOT_CONNECTED};

const MASTER: [u8; 6] = [9; 6];
const A: [u8; 6] = [1; 6];
const B: [u8; 6] = [2; 6];
const NOW: u128 = 1_000 * SECOND;

fn device(mac: [u8; 6], duty: u8) -> Device {
    Device {
        mac,
        master_mac: MASTER,
        channel: 8,
        receiver: 2,
        device_type: 0,
        fan_count: 3,
        right_attach: false,
        effect: [0; 4],
        fan_types: [46, 46, 46, 0],
        rpm: [1800, 1800, 1800, 0],
        duty: [duty, duty, duty, 0],
        sequence: 0,
        pwm_line: false,
        light_sync: false,
    }
}

fn reply(devices: &[Device]) -> Reply {
    Reply {
        reported: devices.len() as u8,
        masters: Vec::new(),
        devices: devices.to_vec(),
        skipped: 0,
    }
}

fn lost() -> dongle::Error {
    dongle::Error::Transfer(
        Role::Receiver,
        WinError { call: "WinUsb_ReadPipe", code: ERROR_DEVICE_NOT_CONNECTED },
    )
}

#[test]
fn requests_are_taken_in_their_order() {
    let mut link = ScriptedLink::new(MASTER, 8, reply(&[device(A, 206), device(B, 206)]));
    let mut core = Core::new(MASTER, 8);
    core.take_requests(&[
        Request::Want(A, 40),
        Request::Want(B, 50),
        Request::Want(A, 200),
        Request::Release(B),
    ]);
    core.tick(&mut link, NOW, Clock::default());
    let groups = &core.snapshot().groups;
    assert_eq!(groups[0].mac, A);
    assert_eq!(groups[0].target, Some([255, 255, 255, 0]));
    assert_eq!(groups[1].target, None);
}

#[test]
fn the_systems_words_go_into_what_is_said() {
    let mut link = ScriptedLink::new(MASTER, 8, reply(&[]));
    link.words = "The device is not connected.".to_string();
    link.serve(Err(lost()));
    let mut core = Core::new(MASTER, 8);
    core.tick(&mut link, NOW, Clock::default());
    let expected = format!("poll: {}", lost().text("The device is not connected."));
    assert!(expected.contains("The device is not connected."), "{expected}");
    assert_eq!(core.snapshot().last_error.as_deref(), Some(expected.as_str()));
    assert!(core.take_events().contains(&expected));
    assert!(core.take_events().is_empty());
}

#[test]
fn a_group_bound_elsewhere_is_neither_shown_nor_driven() {
    let mut foreign = device(B, 206);
    foreign.master_mac = [7; 6];
    let mut link = ScriptedLink::new(MASTER, 8, reply(&[foreign]));
    let mut core = Core::new(MASTER, 8);
    core.want(B, 50);
    core.tick(&mut link, NOW, Clock::default());
    assert!(core.snapshot().groups.is_empty());
    assert_eq!(link.sent.len(), 1);
    assert_eq!(link.sent[0].command, 0x14);
}

#[test]
fn an_offline_group_shows_no_speed_but_its_last_duty() {
    let mut link = ScriptedLink::new(MASTER, 8, reply(&[device(A, 206)]));
    link.serve(Ok(reply(&[device(A, 206)])));
    link.serve(Ok(reply(&[])));
    let mut core = Core::new(MASTER, 8);
    core.want(A, 50);
    core.tick(&mut link, NOW, Clock::default());
    let sent = link.sent.len();
    core.tick(&mut link, NOW + 60 * SECOND, Clock::default());
    let group = core.snapshot().groups[0];
    assert!(!group.online);
    assert_eq!(group.rpm, [0; 4]);
    assert_eq!(group.duty, [206, 206, 206, 0]);
    assert_eq!(group.target, Some([128, 128, 128, 0]));
    assert_eq!(link.sent.len(), sent + 1);
    assert_eq!(link.sent[sent].command, 0x14);
}

#[test]
fn every_fan_of_every_group_is_at_full_duty_while_the_dongle_is_lost() {
    let mut link = ScriptedLink::new(MASTER, 8, reply(&[device(A, 206), device(B, 206)]));
    let mut core = Core::new(MASTER, 8);
    core.want(A, 40);
    core.tick(&mut link, NOW, Clock::default());
    for i in 1..=3u128 {
        link.serve(Err(lost()));
        link.serve_reconnect(Err(lost()));
        core.tick(&mut link, NOW + i * SECOND, Clock::default());
    }
    for group in &core.snapshot().groups {
        assert_eq!(group.target, Some([255, 255, 255, 0]));
    }
    assert!(core.snapshot().alarm.is_some());
    assert_eq!(link.reconnect_calls, [false]);
}

#[test]
fn a_tick_is_due_a_second_after_the_last_was() {
    assert_eq!(TICK, SECOND);
    let mut pace = Pace::new(NOW);
    assert_eq!(pace.next(NOW, false), Step::Tick);
    assert_eq!(pace.next(NOW + SECOND / 5, false), Step::Nap(NAP));
    assert_eq!(pace.next(NOW + SECOND - 7, false), Step::Nap(7));
    assert_eq!(pace.next(NOW + SECOND + 30, false), Step::Tick);
    assert_eq!(pace.due, NOW + SECOND);
    assert_eq!(pace.next(NOW + SECOND + 40, false), Step::Nap(NAP));
    assert_eq!(pace.due, NOW + 2 * SECOND);
}

#[test]
fn a_tick_that_took_too_long_is_followed_at_once() {
    let mut pace = Pace::new(NOW);
    assert_eq!(pace.next(NOW, false), Step::Tick);
    assert_eq!(pace.next(NOW + 3 * SECOND, false), Step::Tick);
    assert_eq!(pace.due, NOW + 3 * SECOND);
}

#[test]
fn a_stop_ends_the_loop_after_its_first_tick() {
    let mut pace = Pace::new(NOW);
    assert_eq!(pace.next(NOW, true), Step::Tick);
    assert_eq!(pace.next(NOW, true), Step::Stop);
    let mut pace = Pace { due: NOW + SECOND, phase: Phase::Waiting };
    assert_eq!(pace.next(NOW, true), Step::Stop);
    assert_eq!(pace.next(NOW + 2 * SECOND, true), Step::Stop);
}

#[test]
fn lines_around_the_loop_name_the_dongle_and_the_panic() {
    assert_eq!(started_line(&MASTER, 8), "engine started: master 09:09:09:09:09:09 channel 8");
    assert_eq!(tick_failed_line("boom"), "tick failed: boom");
    assert_eq!(panic_text(Some("boom"), None), "boom");
    assert_eq!(panic_text(None, Some("made")), "made");
    assert_eq!(panic_text(None, None), "unknown panic");
}

#[test]
fn a_snapshot_starts_empty() {
    let snapshot = Snapshot::before_the_first_tick(MASTER, 8);
    assert_eq!(snapshot.master_mac, MASTER);
    assert_eq!(snapshot.channel, 8);
    assert_eq!(snapshot.ticks, 0);
    assert!(snapshot.groups.is_empty());
    assert_eq!(Snapshot::default().master_mac, [0; 6]);
}

#[test]
fn a_core_has_room_until_its_times_run_out() {
    let core = Core::new(MASTER, 8);
    assert!(core.has_room(NOW));
    assert!(core.has_room(u128::MAX - 2 * SECOND));
    assert!(!core.has_room(u128::MAX - 2 * SECOND + 1));
    assert!(!core.has_room(u128::MAX));
    assert!(core.can_stop());
}

#[test]
fn a_scripted_link_names_its_dongle() {
    let mut link = ScriptedLink::new(MASTER, 8, reply(&[device(A, 206)]));
    assert_eq!(link.master_mac(), MASTER);
    assert_eq!(link.channel(), 8);
    link.closed = true;
    assert_eq!(link.poll().map(|r| r.reported), Err(dongle::Error::Closed));
    assert_eq!(link.reconnect(true), Ok(()));
    assert_eq!(link.poll().map(|r| r.reported), Ok(1));
}
