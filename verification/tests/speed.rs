use lianli_wireless::discovery::Device;
use lianli_wireless::speed::{
    acknowledged, differs, duty_from_percent, min_duty, payload, percent_from_duty, prepare, slot,
};

const MASTER: [u8; 6] = [9; 6];

fn device(mac: u8, device_type: u8, model: u8, fans: u8, right_attach: bool) -> Device {
    Device {
        mac: [mac; 6],
        master_mac: MASTER,
        channel: 8,
        receiver: 2,
        device_type,
        fan_count: fans,
        right_attach,
        effect: [0; 4],
        fan_types: [model, model, model, 0],
        rpm: [0; 4],
        duty: [0; 4],
        sequence: 0,
        pwm_line: false,
        light_sync: false,
    }
}

#[test]
fn minimum_duty_follows_the_fan_model() {
    assert_eq!(min_duty(&device(1, 0, 20, 3, false)), 35);
    assert_eq!(min_duty(&device(1, 0, 43, 3, false)), 25);
    assert_eq!(min_duty(&device(1, 0, 36, 3, false)), 28);
    assert_eq!(min_duty(&device(1, 0, 63, 3, false)), 20);
    assert_eq!(min_duty(&device(1, 0, 0, 3, false)), 25);
    assert_eq!(min_duty(&device(1, 4, 0, 0, false)), 0);
    assert_eq!(min_duty(&device(1, 10, 0, 2, false)), 25);
}

#[test]
fn prepare_zeroes_unused_slots_and_raises_to_the_floor() {
    let d = device(1, 0, 20, 3, false);
    assert_eq!(prepare(&d, [0, 1, 255, 255]), [0, 35, 255, 0]);
    let d = device(1, 0, 43, 3, false);
    assert_eq!(prepare(&d, [1, 24, 25, 26]), [25, 25, 25, 0]);
    assert_eq!(prepare(&d, [26, 200, 0, 0]), [26, 200, 0, 0]);
}

#[test]
fn prepare_filters_cl_series_duties() {
    let d = device(1, 0, 40, 3, false);
    assert_eq!(prepare(&d, [153, 154, 155, 255]), [152, 152, 156, 0]);
    let d = device(1, 0, 43, 3, false);
    assert_eq!(prepare(&d, [153, 154, 155, 0]), [153, 154, 155, 0]);
    let d = device(1, 12, 126, 3, false);
    assert_eq!(prepare(&d, [153, 154, 155, 0]), [152, 152, 156, 0]);
    let d = device(1, 10, 40, 3, false);
    assert_eq!(prepare(&d, [153, 154, 155, 255]), [153, 154, 155, 255]);
}

#[test]
fn prepare_reverses_right_attached_chains() {
    let d = device(1, 0, 36, 3, true);
    assert_eq!(prepare(&d, [100, 150, 200, 255]), [200, 150, 100, 0]);
    let d = device(1, 0, 36, 2, true);
    assert_eq!(prepare(&d, [100, 150, 200, 255]), [150, 100, 0, 0]);
    let d = device(1, 0, 36, 1, true);
    assert_eq!(prepare(&d, [100, 150, 200, 255]), [100, 0, 0, 0]);
}

#[test]
fn prepare_keeps_a_coolers_pump_slot() {
    let d = device(1, 10, 0, 2, false);
    assert_eq!(prepare(&d, [255; 4]), [255, 255, 0, 255]);
}

#[test]
fn payload_has_the_command_layout() {
    let d = device(1, 0, 43, 3, false);
    let p = payload(&d, &MASTER, 8, 3, [6, 6, 6, 6]);
    assert_eq!(
        &p[..21],
        &[0x12, 0x10, 1, 1, 1, 1, 1, 1, 9, 9, 9, 9, 9, 9, 2, 8, 3, 6, 6, 6, 6]
    );
    assert_eq!(p.len(), 240);
    assert!(p[21..].iter().all(|b| *b == 0));
}

#[test]
fn slot_counts_bound_devices_in_list_order() {
    let mut foreign = device(3, 0, 43, 3, false);
    foreign.master_mac = [7; 6];
    let devices = [
        device(1, 0, 43, 3, false),
        foreign,
        device(4, 4, 0, 0, false),
        device(2, 0, 43, 2, false),
    ];
    assert_eq!(slot(&devices, &MASTER, &[1; 6]), 1);
    assert_eq!(slot(&devices, &MASTER, &[4; 6]), 2);
    assert_eq!(slot(&devices, &MASTER, &[2; 6]), 3);
    assert_eq!(slot(&devices, &MASTER, &[3; 6]), 1);
    assert_eq!(slot(&devices, &MASTER, &[5; 6]), 1);
}

#[test]
fn acknowledgement_allows_a_small_difference_above_ten() {
    assert!(acknowledged(&[205, 196, 201, 0], &[201, 201, 201, 0]));
    assert!(!acknowledged(&[207, 201, 201, 0], &[201, 201, 201, 0]));
    assert!(acknowledged(&[10, 0, 0, 0], &[10, 0, 0, 0]));
    assert!(!acknowledged(&[11, 0, 0, 0], &[10, 0, 0, 0]));
    assert!(!acknowledged(&[0, 0, 0, 0], &[5, 0, 0, 0]));
    assert!(differs(&[0, 0, 0, 0], &[5, 0, 0, 0]));
    assert!(!differs(&[201; 4], &[201; 4]));
}

#[test]
fn percentages_and_duties_match_to_the_nearest_step() {
    for (percent, duty) in [(0, 0), (1, 3), (30, 77), (50, 128), (81, 207), (99, 252), (100, 255)] {
        assert_eq!(duty_from_percent(percent), duty, "{percent}%");
        assert_eq!(percent_from_duty(duty), percent, "{duty}");
    }
    assert_eq!(duty_from_percent(200), 255);
    assert_eq!(percent_from_duty(206), 81);
    for percent in 0..=100 {
        assert_eq!(percent_from_duty(duty_from_percent(percent)), percent);
    }
}
