use lianli_wireless::discovery::{Device, Reply};
use lianli_wireless::dongle;
use lianli_wireless::engine::{Alarm, Core};
use lianli_wireless::enumerate::Role;
use lianli_wireless::heartbeat::Clock;
use lianli_wireless::scripted::{ScriptedLink, Sent};
use lianli_wireless::win::{WinError, ERROR_DEVICE_NOT_CONNECTED};
use std::time::Duration;

const MASTER: [u8; 6] = [9; 6];
const A: [u8; 6] = [1; 6];
const B: [u8; 6] = [2; 6];

/// A time to start from.
const NOW: u128 = 1_000_000_000_000;

fn device(mac: [u8; 6], receiver: u8, fans: u8, duty: u8) -> Device {
    let mut duties = [0; 4];
    let mut rpm = [0; 4];
    for slot in 0..usize::from(fans) {
        duties[slot] = duty;
        rpm[slot] = 1800;
    }
    Device {
        mac,
        master_mac: MASTER,
        channel: 8,
        receiver,
        device_type: 0,
        fan_count: fans,
        right_attach: false,
        effect: [0; 4],
        fan_types: [46, 46, 46, 0],
        rpm,
        duty: duties,
        sequence: 0,
        pwm_line: false,
        light_sync: false,
    }
}

fn reply(devices: &[Device]) -> Reply {
    Reply {
        reported: devices.len() as u8,
        masters: Vec::new(),
        devices: devices.to_vec(),
        skipped: 0,
    }
}

/// A scripted link, with what the tests ask of it.
struct Fake;

impl Fake {
    fn new(first: Reply) -> ScriptedLink {
        ScriptedLink::new(MASTER, 8, first)
    }
}

trait Seen {
    fn heartbeats(&self) -> usize;
    fn speeds(&self) -> Vec<&Sent>;
    fn every_channel_calls(&self) -> usize;
}

impl Seen for ScriptedLink {
    fn heartbeats(&self) -> usize {
        assert!(self.sent.iter().all(|s| s.channel == 8));
        self.sent.iter().filter(|s| s.command == 0x14).count()
    }

    fn speeds(&self) -> Vec<&Sent> {
        assert!(self.sent.iter().all(|s| s.channel == 8));
        self.sent.iter().filter(|s| s.command == 0x10).collect()
    }

    fn every_channel_calls(&self) -> usize {
        self.reconnect_calls.iter().filter(|every| **every).count()
    }
}

fn lost() -> dongle::Error {
    dongle::Error::Transfer(
        Role::Receiver,
        WinError {
            call: "WinUsb_ReadPipe",
            code: ERROR_DEVICE_NOT_CONNECTED,
        },
    )
}

fn at(base: u128, secs: u64) -> u128 {
    base + Duration::from_secs(secs).as_nanos()
}

fn clock() -> Clock {
    Clock::default()
}

#[test]
fn first_tick_heartbeats_polls_and_sends_nothing_without_targets() {
    let base = NOW;
    let mut link = Fake::new(reply(&[device(A, 2, 3, 206), device(B, 6, 2, 206)]));
    let mut core = Core::new(MASTER, 8);
    core.tick(&mut link, base, clock());
    assert_eq!(link.heartbeats(), 1);
    assert!(link.speeds().is_empty());
    let snap = core.snapshot();
    assert_eq!(snap.ticks, 1);
    assert_eq!(snap.polls, 1);
    assert_eq!(snap.groups.len(), 2);
    assert!(snap.groups.iter().all(|g| g.online && g.target.is_none()));
    assert_eq!(snap.alarm, None);
    let events = core.take_events();
    assert!(events.iter().any(|e| e.contains("online")), "{events:?}");
}

#[test]
fn heartbeat_goes_once_a_second_first_in_init_form() {
    let base = NOW;
    let mut link = Fake::new(reply(&[device(A, 2, 3, 206)]));
    let mut core = Core::new(MASTER, 8);
    core.tick(&mut link, base, clock());
    core.tick(&mut link, base + Duration::from_millis(500).as_nanos(), clock());
    core.tick(&mut link, at(base, 1), clock());
    assert_eq!(link.heartbeats(), 2);
}

#[test]
fn a_wanted_percent_is_floored_and_sent_each_tick() {
    let base = NOW;
    let mut link = Fake::new(reply(&[device(A, 2, 3, 206)]));
    let mut core = Core::new(MASTER, 8);
    core.want(A, 10);
    core.tick(&mut link, base, clock());
    let sent = link.speeds();
    assert_eq!(sent.len(), 1);
    assert_eq!(sent[0].receiver, 2);
    assert_eq!(sent[0].duty, [77, 77, 77, 0]);
    assert_eq!(core.snapshot().groups[0].target, Some([77, 77, 77, 0]));
    core.tick(&mut link, at(base, 1), clock());
    assert_eq!(link.speeds().len(), 2);
}

#[test]
fn an_applied_target_is_refreshed_every_second() {
    let base = NOW;
    let mut link = Fake::new(reply(&[device(A, 2, 3, 206)]));
    let mut core = Core::new(MASTER, 8);
    core.want(A, 81);
    core.tick(&mut link, base, clock());
    assert_eq!(link.speeds()[0].duty, [207, 207, 207, 0]);
    core.tick(&mut link, base + Duration::from_millis(400).as_nanos(), clock());
    assert_eq!(link.speeds().len(), 1);
    assert!(core.snapshot().groups[0].acknowledged);
    core.tick(&mut link, at(base, 1), clock());
    assert_eq!(link.speeds().len(), 2);
}

#[test]
fn a_lost_group_is_logged_and_the_others_keep_their_targets() {
    let base = NOW;
    let a = device(A, 2, 3, 206);
    let b = device(B, 6, 2, 206);
    let mut link = Fake::new(reply(&[a, b]));
    let mut core = Core::new(MASTER, 8);
    core.want(A, 50);
    core.want(B, 50);
    core.tick(&mut link, base, clock());
    link.serve(Ok(reply(&[a])));
    for second in 1..=15 {
        core.tick(&mut link, at(base, second), clock());
    }
    core.take_events();
    core.tick(&mut link, at(base, 16), clock());
    let snap = core.snapshot();
    assert_eq!(snap.alarm, None, "{snap:?}");
    assert_eq!(snap.groups.len(), 2);
    assert!(!snap.groups[1].online);
    assert_eq!(link.speeds().last().unwrap().duty, [128, 128, 128, 0]);
    let events = core.take_events();
    assert!(
        events
            .iter()
            .any(|e| e.contains("unheard") && e.contains("last duty")),
        "{events:?}"
    );
    core.tick(&mut link, at(base, 17), clock());
    assert!(core.take_events().is_empty());
    link.serve(Ok(reply(&[a, b])));
    core.tick(&mut link, at(base, 18), clock());
    assert!(core.snapshot().groups.iter().all(|g| g.online));
    assert!(core.take_events().iter().any(|e| e.contains("online")));
    let to_b = link
        .speeds()
        .iter()
        .rev()
        .find(|s| s.receiver == 6)
        .unwrap()
        .duty;
    assert_eq!(to_b, [128, 128, 0, 0]);
}

#[test]
fn a_group_quiet_for_ten_minutes_is_forgotten() {
    let base = NOW;
    let a = device(A, 2, 3, 206);
    let b = device(B, 6, 2, 206);
    let mut link = Fake::new(reply(&[a, b]));
    let mut core = Core::new(MASTER, 8);
    core.want(B, 50);
    core.tick(&mut link, base, clock());
    link.serve(Ok(reply(&[a])));
    core.tick(&mut link, at(base, 599), clock());
    assert_eq!(core.snapshot().groups.len(), 2);
    core.take_events();
    core.tick(&mut link, at(base, 600), clock());
    let snap = core.snapshot();
    assert_eq!(snap.groups.len(), 1);
    assert_eq!(snap.groups[0].mac, A);
    let events = core.take_events();
    assert!(
        events.iter().any(|e| e.ends_with(
            "forgotten after 600 s unheard; driven at its last asked percentage if it returns"
        )),
        "{events:?}"
    );
    link.serve(Ok(reply(&[a, b])));
    core.tick(&mut link, at(base, 601), clock());
    assert_eq!(core.snapshot().groups.len(), 2);
    assert_eq!(core.snapshot().groups[1].target, Some([128, 128, 0, 0]));
    assert_eq!(link.speeds().last().unwrap().receiver, 6);
}

#[test]
fn a_device_bound_elsewhere_is_named_as_such_when_it_comes_and_goes() {
    let base = NOW;
    let a = device(A, 2, 3, 206);
    let mut foreign = device([7; 6], 2, 3, 206);
    foreign.master_mac = [8; 6];
    let mut link = Fake::new(reply(&[a, foreign]));
    let mut core = Core::new(MASTER, 8);
    core.tick(&mut link, base, clock());
    let events = core.take_events();
    assert!(
        events
            .iter()
            .any(|e| e
                == "07:07:07:07:07:07 online: 3 fans, receiver 2, bound to another dongle"),
        "{events:?}"
    );
    assert!(events
        .iter()
        .any(|e| e == "01:01:01:01:01:01 online: 3 fans, receiver 2"));
    link.serve(Ok(reply(&[a])));
    core.tick(&mut link, at(base, 16), clock());
    let events = core.take_events();
    assert_eq!(
        events,
        vec![String::from(
            "07:07:07:07:07:07 gone; it was bound to another dongle"
        )]
    );
    assert_eq!(core.snapshot().groups.len(), 1);
}

#[test]
fn the_same_failure_is_logged_once_and_then_counted_once_a_minute() {
    let base = NOW;
    let mut link = Fake::new(reply(&[device(A, 2, 3, 206)]));
    let mut core = Core::new(MASTER, 8);
    core.want(A, 50);
    core.tick(&mut link, base, clock());
    link.serve_reconnect(Ok(()));
    for second in 1..=130 {
        link.serve(Err(lost()));
        core.tick(&mut link, at(base, second), clock());
    }
    let events = core.take_events();
    let polls: Vec<&String> = events.iter().filter(|e| e.starts_with("poll: ")).collect();
    assert_eq!(polls.len(), 3, "{polls:?}");
    assert!(!polls[0].contains("repeated"));
    assert!(polls[1].ends_with("(repeated 60 times)"), "{}", polls[1]);
    assert!(polls[2].ends_with("(repeated 60 times)"), "{}", polls[2]);
    assert!(core
        .snapshot()
        .last_error
        .as_deref()
        .unwrap()
        .starts_with("poll: "));
    assert!(!events.iter().any(|e| e.contains("closed")));
}

#[test]
fn the_tripping_tick_sends_full_speed_before_the_handles_are_given_up() {
    let base = NOW;
    let mut link = Fake::new(reply(&[device(A, 2, 3, 206)]));
    let mut core = Core::new(MASTER, 8);
    core.want(A, 50);
    core.tick(&mut link, base, clock());
    link.serve_reconnect(Err(lost()));
    for second in 1..=3 {
        link.serve(Err(lost()));
        core.tick(&mut link, at(base, second), clock());
    }
    assert!(link.closed);
    assert_eq!(link.speeds().len(), 4);
    assert_eq!(link.speeds()[3].duty, [255, 255, 255, 0]);
    core.take_events();
    core.tick(&mut link, at(base, 4), clock());
    assert_eq!(link.speeds().len(), 4, "nothing goes out while closed");
    let events = core.take_events();
    assert!(
        events
            .iter()
            .any(|e| e.starts_with("poll: ") && e.contains("closed until it is reopened")),
        "{events:?}"
    );
    core.tick(&mut link, at(base, 5), clock());
    assert!(!link.closed, "the second attempt, two seconds on, succeeds");
    assert_eq!(core.snapshot().alarm, None);
    core.tick(&mut link, at(base, 6), clock());
    assert_eq!(link.speeds().last().unwrap().duty, [128, 128, 128, 0]);
}

#[test]
fn once_the_wait_has_reached_a_minute_every_channel_is_scanned() {
    let base = NOW;
    let mut link = Fake::new(reply(&[device(A, 2, 3, 206)]));
    let mut core = Core::new(MASTER, 8);
    core.tick(&mut link, base, clock());
    for _ in 0..6 {
        link.serve_reconnect(Err(lost()));
    }
    for second in 1..=64 {
        link.serve(Err(lost()));
        core.tick(&mut link, at(base, second), clock());
    }
    assert_eq!(link.reconnect_calls.len(), 5, "attempts at 3, 5, 9, 17 and 33 s");
    assert_eq!(link.every_channel_calls(), 0);
    assert!(core
        .take_events()
        .iter()
        .any(|e| e.starts_with("reconnect: ") && e.contains("next try in 32 s")));
    core.tick(&mut link, at(base, 65), clock());
    assert_eq!(link.reconnect_calls.len(), 6);
    assert_eq!(link.every_channel_calls(), 1);
    assert!(core.take_events().iter().any(
        |e| e.starts_with("reconnect on every channel: ") && e.contains("next try in 60 s")
    ));
    core.tick(&mut link, at(base, 125), clock());
    assert_eq!(link.every_channel_calls(), 2);
    assert_eq!(core.snapshot().reconnects, 1);
}

#[test]
fn a_lost_dongle_is_reconnected_with_growing_waits() {
    let base = NOW;
    let a = device(A, 2, 3, 206);
    let mut link = Fake::new(reply(&[a]));
    let mut core = Core::new(MASTER, 8);
    core.want(A, 50);
    core.tick(&mut link, base, clock());
    for second in 1..=2 {
        link.serve(Err(lost()));
        core.tick(&mut link, at(base, second), clock());
        assert_eq!(core.snapshot().alarm, None);
    }
    assert_eq!(link.reconnect_calls.len(), 0);
    link.serve_reconnect(Err(lost()));
    link.serve_reconnect(Err(lost()));
    link.serve_reconnect(Err(lost()));
    for second in 3..=16 {
        link.serve(Err(lost()));
        core.tick(&mut link, at(base, second), clock());
    }
    assert_eq!(link.reconnect_calls.len(), 3, "attempts at 3, 5 and 9 s");
    assert_eq!(core.snapshot().alarm, Some(Alarm::Dongle));
    assert_eq!(link.speeds().last().unwrap().duty, [255, 255, 255, 0]);
    let events = core.take_events();
    assert_eq!(
        events.iter().filter(|e| e.starts_with("failsafe:")).count(),
        1,
        "{events:?}"
    );
    assert!(events.iter().any(|e| e.contains("next try in 2 s")));
    assert!(events.iter().any(|e| e.contains("next try in 4 s")));
    assert!(events.iter().any(|e| e.contains("next try in 8 s")));
    link.serve(Err(lost()));
    core.tick(&mut link, at(base, 17), clock());
    assert_eq!(link.reconnect_calls.len(), 4);
    assert!(core.take_events().iter().any(|e| e.contains("reconnected")));
    assert_eq!(core.snapshot().reconnects, 1);
    assert_eq!(core.snapshot().alarm, None);
}

#[test]
fn after_a_reconnect_the_heartbeat_restarts_in_init_form_and_targets_resume() {
    let base = NOW;
    let a = device(A, 2, 3, 206);
    let mut link = Fake::new(reply(&[a]));
    let mut core = Core::new(MASTER, 8);
    core.want(A, 50);
    core.tick(&mut link, base, clock());
    for second in 1..=3 {
        link.serve(Err(lost()));
        core.tick(&mut link, at(base, second), clock());
    }
    assert_eq!(link.reconnect_calls.len(), 1);
    assert_eq!(core.snapshot().reconnects, 1);
    assert_eq!(core.snapshot().alarm, None);
    let before = link.heartbeats();
    core.tick(&mut link, at(base, 4), clock());
    assert_eq!(link.heartbeats(), before + 1);
    assert_eq!(link.speeds().last().unwrap().duty, [128, 128, 128, 0]);
    assert_eq!(core.snapshot().polls, 2);
}

#[test]
fn unreadable_records_are_counted_and_mentioned_once_a_minute() {
    let base = NOW;
    let a = device(A, 2, 3, 206);
    let mut noisy = reply(&[a]);
    noisy.skipped = 2;
    let mut link = Fake::new(noisy.clone());
    let mut core = Core::new(MASTER, 8);
    core.tick(&mut link, base, clock());
    core.tick(&mut link, at(base, 1), clock());
    assert_eq!(core.snapshot().skipped_records, 4);
    let events = core.take_events();
    assert_eq!(
        events.iter().filter(|e| e.contains("unreadable")).count(),
        1
    );
    core.tick(&mut link, at(base, 61), clock());
    assert_eq!(
        core.take_events()
            .iter()
            .filter(|e| e.contains("unreadable"))
            .count(),
        1
    );
}

#[test]
fn three_failed_polls_trip_the_failsafe_until_the_dongle_is_back() {
    let base = NOW;
    let a = device(A, 2, 3, 206);
    let mut link = Fake::new(reply(&[a]));
    let mut core = Core::new(MASTER, 8);
    core.want(A, 50);
    core.tick(&mut link, base, clock());
    link.serve(Err(lost()));
    link.serve(Err(lost()));
    core.tick(&mut link, at(base, 1), clock());
    core.tick(&mut link, at(base, 2), clock());
    assert_eq!(core.snapshot().alarm, None);
    assert_eq!(core.snapshot().poll_failures, 2);
    link.serve(Err(lost()));
    link.serve_reconnect(Err(lost()));
    core.tick(&mut link, at(base, 3), clock());
    assert_eq!(core.snapshot().alarm, Some(Alarm::Dongle));
    assert_eq!(link.speeds().last().unwrap().duty, [255, 255, 255, 0]);
    assert!(core
        .snapshot()
        .last_error
        .as_deref()
        .unwrap()
        .starts_with("reconnect:"));
    let failsafe_lines = core
        .take_events()
        .iter()
        .filter(|e| e.starts_with("failsafe:"))
        .count();
    assert_eq!(failsafe_lines, 1);
    link.serve(Err(lost()));
    core.tick(&mut link, at(base, 4), clock());
    assert_eq!(core.snapshot().alarm, Some(Alarm::Dongle));
    assert!(!core
        .take_events()
        .iter()
        .any(|e| e.starts_with("failsafe:")));
    link.serve(Err(lost()));
    core.tick(&mut link, at(base, 5), clock());
    assert_eq!(core.snapshot().alarm, None);
    core.tick(&mut link, at(base, 6), clock());
    assert_eq!(link.speeds().last().unwrap().duty, [128, 128, 128, 0]);
}

#[test]
fn send_failures_are_recorded_not_fatal() {
    let base = NOW;
    let mut link = Fake::new(reply(&[device(A, 2, 3, 206)]));
    link.send_failure = Some(lost());
    let mut core = Core::new(MASTER, 8);
    core.want(A, 50);
    core.tick(&mut link, base, clock());
    let snap = core.snapshot();
    assert!(snap.last_error.is_some());
    assert_eq!(snap.polls, 1);
    let events = core.take_events();
    assert!(
        events.iter().any(|e| e.starts_with("heartbeat:")),
        "{events:?}"
    );
    assert!(
        events.iter().any(|e| e.starts_with("01:01:01:01:01:01:")),
        "{events:?}"
    );
    link.send_failure = None;
    core.tick(&mut link, at(base, 1), clock());
    assert_eq!(link.heartbeats(), 1);
    assert_eq!(link.speeds().len(), 1);
}

#[test]
fn target_changes_are_logged_at_most_once_in_ten_seconds_per_group() {
    let base = NOW;
    let mut link = Fake::new(reply(&[device(A, 2, 3, 206), device(B, 6, 2, 206)]));
    let mut core = Core::new(MASTER, 8);
    core.want(A, 50);
    core.want(B, 50);
    core.tick(&mut link, base, clock());
    let events = core.take_events();
    let targets: Vec<&String> = events.iter().filter(|e| e.contains(" target ")).collect();
    assert_eq!(targets.len(), 2);
    assert!(
        targets[0].ends_with("target 50% [128, 128, 128]"),
        "{}",
        targets[0]
    );
    assert!(
        targets[1].ends_with("target 50% [128, 128]"),
        "{}",
        targets[1]
    );

    for (i, percent) in [51u8, 52, 53].iter().enumerate() {
        core.want(A, *percent);
        core.tick(&mut link, at(base, 1 + i as u64), clock());
    }
    for second in 4..10 {
        core.tick(&mut link, at(base, second), clock());
    }
    assert!(core.take_events().iter().all(|e| !e.contains(" target ")));

    core.tick(&mut link, at(base, 10), clock());
    let events = core.take_events();
    let targets: Vec<&String> = events.iter().filter(|e| e.contains(" target ")).collect();
    assert_eq!(targets.len(), 1);
    assert!(
        targets[0].ends_with("target 53% [135, 135, 135] (2 earlier changes not logged)"),
        "{}",
        targets[0]
    );

    core.want(A, 55);
    core.tick(&mut link, at(base, 11), clock());
    core.want(A, 60);
    core.tick(&mut link, at(base, 20), clock());
    let events = core.take_events();
    let targets: Vec<&String> = events.iter().filter(|e| e.contains(" target ")).collect();
    assert_eq!(targets.len(), 1);
    assert!(
        targets[0].ends_with("target 60% [153, 153, 153] (1 earlier change not logged)"),
        "{}",
        targets[0]
    );
    assert_eq!(
        core.snapshot()
            .groups
            .iter()
            .find(|g| g.mac == A)
            .unwrap()
            .target,
        Some([153, 153, 153, 0])
    );
}

#[test]
fn a_released_group_is_left_alone_and_the_others_are_still_driven() {
    let base = NOW;
    let mut link = Fake::new(reply(&[device(A, 2, 3, 206), device(B, 6, 2, 206)]));
    let mut core = Core::new(MASTER, 8);
    core.want(A, 50);
    core.want(B, 50);
    core.tick(&mut link, base, clock());
    assert_eq!(link.speeds().len(), 2);

    core.release(A);
    let events = core.take_events();
    assert!(
        events
            .iter()
            .any(|e| e.ends_with("released; its fans keep their last duty")),
        "{events:?}"
    );
    core.tick(&mut link, at(base, 1), clock());
    let sent = link.speeds();
    assert_eq!(sent.len(), 3);
    assert_eq!(sent[2].receiver, 6);
    let a = core.snapshot().groups.iter().find(|g| g.mac == A).unwrap();
    assert_eq!(a.target, None);
    assert!(!a.acknowledged);

    core.release(A);
    assert!(core.take_events().is_empty());

    core.want(A, 40);
    core.tick(&mut link, at(base, 2), clock());
    assert_eq!(link.speeds().len(), 5);
    assert_eq!(
        core.snapshot()
            .groups
            .iter()
            .find(|g| g.mac == A)
            .unwrap()
            .target,
        Some([102, 102, 102, 0])
    );
}

#[test]
fn shutdown_resends_only_an_unconfirmed_target_and_leaves_the_rest() {
    let base = NOW;
    let a = device(A, 2, 3, 206);
    let b = device(B, 6, 2, 206);
    let mut link = Fake::new(reply(&[a, b]));
    let mut core = Core::new(MASTER, 8);
    core.want(A, 50);
    core.tick(&mut link, base, clock());
    assert_eq!(link.speeds().len(), 1);
    core.shutdown(&mut link, at(base, 1));
    let speeds = link.speeds();
    assert_eq!(speeds.len(), 2);
    assert!(speeds
        .iter()
        .all(|s| s.receiver == 2 && s.duty == [128, 128, 128, 0]));
    assert!(core.take_events().iter().any(|e| e.starts_with("stopping")));

    let mut applied = device(A, 2, 3, 128);
    applied.duty = [128, 128, 128, 0];
    let mut link = Fake::new(reply(&[applied, b]));
    let mut core = Core::new(MASTER, 8);
    core.want(A, 50);
    core.tick(&mut link, base, clock());
    core.shutdown(&mut link, at(base, 1));
    assert_eq!(link.speeds().len(), 1);
}
