use lianli_wireless::discovery::{Device, Reply};
use lianli_wireless::groups::{Tracker, FORGET_AFTER};
use std::time::Duration;

const MASTER: [u8; 6] = [9; 6];
const OTHER: [u8; 6] = [7; 6];

fn device(mac: [u8; 6], master: [u8; 6], device_type: u8, fans: u8) -> Device {
    Device {
        mac,
        master_mac: master,
        channel: 8,
        receiver: 2,
        device_type,
        fan_count: fans,
        right_attach: false,
        effect: [0; 4],
        fan_types: [43, 43, 43, 0],
        rpm: [1000; 4],
        duty: [100, 100, 100, 0],
        sequence: 1,
        pwm_line: false,
        light_sync: false,
    }
}

fn reply(devices: &[Device]) -> Reply {
    Reply {
        reported: devices.len() as u8,
        masters: Vec::new(),
        devices: devices.to_vec(),
        skipped: 0,
    }
}

/// A time to start from.
const NOW: u128 = 1_000_000_000_000;

fn at(base: u128, secs: u64) -> u128 {
    base + Duration::from_secs(secs).as_nanos()
}

#[test]
fn first_sightings_join_in_address_order() {
    let base = NOW;
    let mut t = Tracker::new(MASTER);
    let c = device([3; 6], MASTER, 0, 3);
    let a = device([1; 6], MASTER, 0, 3);
    let b = device([2; 6], MASTER, 0, 2);
    t.observe(&reply(&[c, a, b]), base);
    let order: Vec<[u8; 6]> = t.online().iter().map(|g| g.device.mac).collect();
    assert_eq!(order, vec![[1; 6], [2; 6], [3; 6]]);
    assert_eq!(t.slot(&[1; 6]), 1);
    assert_eq!(t.slot(&[2; 6]), 2);
    assert_eq!(t.slot(&[3; 6]), 3);
}

#[test]
fn later_arrivals_go_after_the_existing_order() {
    let base = NOW;
    let mut t = Tracker::new(MASTER);
    t.observe(&reply(&[device([5; 6], MASTER, 0, 3)]), base);
    t.observe(
        &reply(&[
            device([5; 6], MASTER, 0, 3),
            device([4; 6], MASTER, 0, 3),
            device([1; 6], MASTER, 0, 3),
        ]),
        at(base, 1),
    );
    let order: Vec<[u8; 6]> = t.online().iter().map(|g| g.device.mac).collect();
    assert_eq!(order, vec![[5; 6], [1; 6], [4; 6]]);
}

#[test]
fn live_fields_update_on_every_sighting() {
    let base = NOW;
    let mut t = Tracker::new(MASTER);
    t.observe(&reply(&[device([1; 6], MASTER, 0, 3)]), base);
    let mut seen = device([1; 6], MASTER, 0, 3);
    seen.rpm = [1500; 4];
    seen.duty = [200, 200, 200, 0];
    seen.sequence = 9;
    t.observe(&reply(&[seen]), at(base, 1));
    let g = t.group(&[1; 6]).unwrap();
    assert_eq!(g.device.rpm, [1500; 4]);
    assert_eq!(g.device.duty, [200, 200, 200, 0]);
    assert_eq!(g.device.sequence, 9);
    assert_eq!(g.last_seen, at(base, 1));
}

#[test]
fn identity_changes_need_three_agreeing_sightings() {
    let base = NOW;
    let mut t = Tracker::new(MASTER);
    t.observe(&reply(&[device([1; 6], MASTER, 0, 3)]), base);
    let mut moved = device([1; 6], MASTER, 0, 3);
    moved.channel = 12;
    t.observe(&reply(&[moved]), at(base, 1));
    assert_eq!(t.group(&[1; 6]).unwrap().device.channel, 8);
    t.observe(&reply(&[moved]), at(base, 2));
    assert_eq!(t.group(&[1; 6]).unwrap().device.channel, 8);
    t.observe(&reply(&[moved]), at(base, 3));
    assert_eq!(t.group(&[1; 6]).unwrap().device.channel, 12);
}

#[test]
fn a_disagreeing_sighting_restarts_the_count() {
    let base = NOW;
    let mut t = Tracker::new(MASTER);
    t.observe(&reply(&[device([1; 6], MASTER, 0, 3)]), base);
    let mut moved = device([1; 6], MASTER, 0, 3);
    moved.channel = 12;
    t.observe(&reply(&[moved]), at(base, 1));
    t.observe(&reply(&[moved]), at(base, 2));
    t.observe(&reply(&[device([1; 6], MASTER, 0, 3)]), at(base, 3));
    t.observe(&reply(&[moved]), at(base, 4));
    t.observe(&reply(&[moved]), at(base, 5));
    assert_eq!(t.group(&[1; 6]).unwrap().device.channel, 8);
    t.observe(&reply(&[moved]), at(base, 6));
    assert_eq!(t.group(&[1; 6]).unwrap().device.channel, 12);
}

#[test]
fn unheard_devices_go_offline_and_rejoin_at_the_end() {
    let base = NOW;
    let mut t = Tracker::new(MASTER);
    let a = device([1; 6], MASTER, 0, 3);
    let b = device([2; 6], MASTER, 0, 2);
    t.observe(&reply(&[a, b]), base);
    assert_eq!(t.slot(&[2; 6]), 2);
    t.observe(&reply(&[b]), at(base, 15));
    assert!(t.group(&[1; 6]).unwrap().online(at(base, 15)));
    assert_eq!(t.online().len(), 2);
    t.observe(&reply(&[b]), at(base, 16));
    assert!(!t.group(&[1; 6]).unwrap().online(at(base, 16)));
    assert_eq!(t.online().len(), 1);
    assert_eq!(t.slot(&[2; 6]), 1);
    assert_eq!(t.fans().len(), 1);
    let mut back = a;
    back.channel = 12;
    t.observe(&reply(&[b, back]), at(base, 20));
    let order: Vec<[u8; 6]> = t.online().iter().map(|g| g.device.mac).collect();
    assert_eq!(order, vec![[2; 6], [1; 6]]);
    assert_eq!(t.group(&[1; 6]).unwrap().device.channel, 12);
}

#[test]
fn sweep_marks_offline_without_a_reply_and_forgets_unbound() {
    let base = NOW;
    let mut t = Tracker::new(MASTER);
    t.observe(
        &reply(&[device([1; 6], MASTER, 0, 3), device([2; 6], OTHER, 0, 3)]),
        base,
    );
    assert_eq!(t.groups().len(), 2);
    assert_eq!(t.sweep(at(base, 16)), vec![[2; 6]]);
    assert_eq!(t.online().len(), 0);
    assert_eq!(t.groups().len(), 1);
    assert_eq!(t.groups()[0].device.mac, [1; 6]);
}

#[test]
fn a_bound_group_is_forgotten_after_a_long_silence() {
    let base = NOW;
    let mut t = Tracker::new(MASTER);
    t.observe(&reply(&[device([1; 6], MASTER, 0, 3)]), base);
    assert!(t
        .sweep(base + FORGET_AFTER - Duration::from_secs(1).as_nanos())
        .is_empty());
    assert_eq!(t.groups().len(), 1);
    assert_eq!(t.sweep(base + FORGET_AFTER), vec![[1; 6]]);
    assert!(t.groups().is_empty());
}

#[test]
fn a_single_odd_record_does_not_change_a_groups_shape() {
    let base = NOW;
    let mut t = Tracker::new(MASTER);
    t.observe(&reply(&[device([1; 6], MASTER, 0, 3)]), base);
    let mut odd = device([1; 6], MASTER, 0, 3);
    odd.fan_count = 0;
    odd.fan_types = [20, 20, 20, 0];
    odd.rpm = [900; 4];
    t.observe(&reply(&[odd]), at(base, 1));
    let g = t.group(&[1; 6]).unwrap();
    assert_eq!(g.device.fan_count, 3);
    assert_eq!(g.device.fan_types, [43, 43, 43, 0]);
    assert_eq!(g.device.rpm, [900; 4]);
    assert!(g.has_fans());
    t.observe(&reply(&[odd]), at(base, 2));
    assert_eq!(t.group(&[1; 6]).unwrap().device.fan_count, 3);
    t.observe(&reply(&[odd]), at(base, 3));
    let g = t.group(&[1; 6]).unwrap();
    assert_eq!(g.device.fan_count, 0);
    assert_eq!(g.device.fan_types, [20, 20, 20, 0]);
}

#[test]
fn foreign_and_lighting_devices_take_no_fan_role() {
    let base = NOW;
    let mut t = Tracker::new(MASTER);
    t.observe(
        &reply(&[
            device([1; 6], MASTER, 0, 3),
            device([2; 6], OTHER, 0, 3),
            device([3; 6], MASTER, 4, 0),
            device([4; 6], MASTER, 0, 2),
        ]),
        base,
    );
    let fans: Vec<[u8; 6]> = t.fans().iter().map(|g| g.device.mac).collect();
    assert_eq!(fans, vec![[1; 6], [4; 6]]);
    assert_eq!(t.slot(&[1; 6]), 1);
    assert_eq!(t.slot(&[3; 6]), 2);
    assert_eq!(t.slot(&[4; 6]), 3);
    assert_eq!(t.slot(&[2; 6]), 1);
}

#[test]
fn target_is_prepared_and_due_until_sent() {
    let base = NOW;
    let mut t = Tracker::new(MASTER);
    t.observe(&reply(&[device([1; 6], MASTER, 0, 3)]), base);
    assert!(t.set_target(&[8; 6], [200; 4]).is_none());
    assert_eq!(
        t.set_target(&[1; 6], [200, 1, 0, 255]),
        Some([200, 25, 0, 0])
    );
    let g = t.group(&[1; 6]).unwrap();
    assert!(g.due(base));
    assert!(!g.acknowledged(base));
    t.sent(&[1; 6], base);
    let g = t.group(&[1; 6]).unwrap();
    assert_eq!(g.unacknowledged, 1);
    assert!(g.due(base));
}

#[test]
fn acknowledged_target_waits_for_the_keepalive() {
    let base = NOW;
    let mut t = Tracker::new(MASTER);
    t.observe(&reply(&[device([1; 6], MASTER, 0, 3)]), base);
    t.set_target(&[1; 6], [200, 200, 200, 0]);
    t.sent(&[1; 6], base);
    let mut applied = device([1; 6], MASTER, 0, 3);
    applied.duty = [203, 198, 200, 0];
    t.observe(&reply(&[applied]), base + Duration::from_millis(300).as_nanos());
    let g = t.group(&[1; 6]).unwrap();
    assert!(g.acknowledged(base + Duration::from_millis(300).as_nanos()));
    assert_eq!(g.unacknowledged, 0);
    assert!(!g.due(base + Duration::from_millis(600).as_nanos()));
    assert!(g.due(at(base, 1)));
}

#[test]
fn a_stale_sighting_does_not_acknowledge() {
    let base = NOW;
    let mut t = Tracker::new(MASTER);
    t.observe(&reply(&[device([1; 6], MASTER, 0, 3)]), base);
    t.set_target(&[1; 6], [100, 100, 100, 0]);
    t.sent(&[1; 6], base);
    let g = t.group(&[1; 6]).unwrap();
    assert!(g.acknowledged(at(base, 3)));
    assert!(!g.acknowledged(at(base, 4)));
}

#[test]
fn a_new_target_resets_the_send_record() {
    let base = NOW;
    let mut t = Tracker::new(MASTER);
    t.observe(&reply(&[device([1; 6], MASTER, 0, 3)]), base);
    t.set_target(&[1; 6], [200; 4]);
    t.sent(&[1; 6], base);
    t.sent(&[1; 6], base);
    assert_eq!(t.set_target(&[1; 6], [200; 4]), Some([200, 200, 200, 0]));
    assert_eq!(t.group(&[1; 6]).unwrap().unacknowledged, 2);
    t.set_target(&[1; 6], [150; 4]);
    let g = t.group(&[1; 6]).unwrap();
    assert_eq!(g.unacknowledged, 0);
    assert!(g.last_sent.is_none());
}

#[test]
fn a_cleared_target_is_due_no_more() {
    let base = NOW;
    let mut t = Tracker::new(MASTER);
    t.observe(&reply(&[device([1; 6], MASTER, 0, 3)]), base);
    assert!(!t.clear_target(&[1; 6]));
    t.set_target(&[1; 6], [200; 4]);
    t.sent(&[1; 6], base);
    assert!(t.clear_target(&[1; 6]));
    let g = t.group(&[1; 6]).unwrap();
    assert_eq!(g.target, None);
    assert_eq!(g.unacknowledged, 0);
    assert!(!g.due(at(base, 60)));
    assert!(!g.acknowledged(base));
    assert!(!t.clear_target(&[1; 6]));
    assert!(!t.clear_target(&[8; 6]));
}

#[test]
fn a_device_heard_again_in_time_keeps_its_slot() {
    let base = NOW;
    let mut t = Tracker::new(MASTER);
    let a = device([1; 6], MASTER, 0, 3);
    let b = device([2; 6], MASTER, 0, 3);
    t.observe(&reply(&[b]), base);
    t.observe(&reply(&[a, b]), at(base, 1));
    t.observe(&reply(&[a]), at(base, 15));
    t.observe(&reply(&[a, b]), at(base, 16));
    let order: Vec<[u8; 6]> = t.online().iter().map(|g| g.device.mac).collect();
    assert_eq!(order, vec![[2; 6], [1; 6]]);
}

#[test]
fn a_sighting_ahead_of_the_clock_counts_as_fresh() {
    let base = NOW;
    let mut t = Tracker::new(MASTER);
    t.observe(&reply(&[device([1; 6], MASTER, 0, 3)]), at(base, 30));
    assert!(t.group(&[1; 6]).unwrap().online(base));
}

#[test]
fn an_address_sighted_twice_in_one_reply_is_one_group() {
    let base = NOW;
    let mut t = Tracker::new(MASTER);
    let mut again = device([1; 6], MASTER, 0, 3);
    again.rpm = [900; 4];
    t.observe(&reply(&[device([1; 6], MASTER, 0, 3), again]), base);
    assert_eq!(t.groups().len(), 1);
    assert_eq!(t.groups()[0].device.rpm, [900; 4]);
    assert_eq!(t.online().len(), 1);
}

#[test]
fn addresses_sort_byte_by_byte() {
    let base = NOW;
    let mut t = Tracker::new(MASTER);
    let macs = [
        [2, 0, 0, 0, 0, 0],
        [1, 255, 0, 0, 0, 9],
        [1, 255, 0, 0, 0, 8],
        [0, 255, 255, 255, 255, 255],
    ];
    let devices: Vec<Device> = macs.iter().map(|m| device(*m, MASTER, 0, 3)).collect();
    t.observe(&reply(&devices), base);
    let order: Vec<[u8; 6]> = t.online().iter().map(|g| g.device.mac).collect();
    let mut sorted = macs.to_vec();
    sorted.sort_unstable();
    assert_eq!(order, sorted);
}

#[test]
fn a_device_heard_again_after_it_went_offline_rejoins_at_the_end() {
    let base = NOW;
    let a = device([1; 6], MASTER, 0, 3);
    let b = device([2; 6], MASTER, 0, 3);
    let mut t = Tracker::new(MASTER);
    t.observe(&reply(&[a, b]), base);
    t.observe(&reply(&[b]), at(base, 10));
    t.observe(&reply(&[a, b]), at(base, 16));
    let order: Vec<[u8; 6]> = t.online().iter().map(|g| g.device.mac).collect();
    assert_eq!(order, vec![[2; 6], [1; 6]]);
    assert_eq!(t.slot(&[1; 6]), 2);
}
