use lianli_wireless::frame::{
    channel_scan, connect_attempts, connect_request, discovery_reply_len, discovery_request,
    pages_for, parse_connect_reply, rf_frames, BROADCAST, RF_PAYLOAD_LEN,
};

const MAC: [u8; 6] = [0xbf, 0x3d, 0xca, 0xe5, 0x66, 0xe4];

fn good_reply() -> [u8; 64] {
    let mut reply = [0; 64];
    reply[0] = 0x11;
    reply[1..7].copy_from_slice(&MAC);
    reply[7..11].copy_from_slice(&[0, 0, 0, 2]);
    reply[11..13].copy_from_slice(&[1, 6]);
    reply
}

#[test]
fn connect_request_names_the_channel() {
    let frame = connect_request(8);
    assert_eq!(&frame[..2], &[0x11, 8]);
    assert!(frame[2..].iter().all(|b| *b == 0));
    assert_eq!(frame.len(), 64);
}

#[test]
fn connect_reply_yields_master_and_firmware() {
    let reply = parse_connect_reply(&good_reply()).unwrap();
    assert_eq!(reply.master_mac, MAC);
    assert_eq!(reply.firmware, 0x0106);
}

#[test]
fn connect_reply_accepts_exactly_thirteen_bytes() {
    assert!(parse_connect_reply(&good_reply()[..13]).is_some());
    assert!(parse_connect_reply(&good_reply()[..12]).is_none());
}

#[test]
fn connect_reply_rejects_wrong_command() {
    let mut reply = good_reply();
    reply[0] = 0x10;
    assert!(parse_connect_reply(&reply).is_none());
}

#[test]
fn connect_reply_rejects_zero_address() {
    let mut reply = good_reply();
    reply[1..7].fill(0);
    assert!(parse_connect_reply(&reply).is_none());
}

#[test]
fn connect_reply_rejects_low_status() {
    for status in [0u32, 1] {
        let mut reply = good_reply();
        reply[7..11].copy_from_slice(&status.to_be_bytes());
        assert!(parse_connect_reply(&reply).is_none());
    }
    let mut reply = good_reply();
    reply[7..11].copy_from_slice(&0x0100_0000u32.to_be_bytes());
    assert!(parse_connect_reply(&reply).is_some());
}

#[test]
fn channel_scan_is_default_then_even_then_odd() {
    let order: Vec<u8> = channel_scan();
    assert_eq!(order.len(), 39);
    assert_eq!(order[0], 8);
    assert_eq!(&order[1..5], &[2, 4, 6, 10]);
    assert_eq!(order[18], 38);
    assert_eq!(&order[19..22], &[1, 3, 5]);
    assert_eq!(order[38], 39);
    let mut sorted = order.clone();
    sorted.sort_unstable();
    sorted.dedup();
    assert_eq!(sorted, (1..=39).collect::<Vec<u8>>());
}

#[test]
fn default_channel_gets_three_attempts() {
    assert_eq!(connect_attempts(8), 3);
    assert_eq!(connect_attempts(2), 1);
    assert_eq!(connect_attempts(39), 1);
}

#[test]
fn discovery_request_names_the_page_count() {
    let frame = discovery_request(1);
    assert_eq!(&frame[..4], &[0x10, 1, 0, 0]);
    assert!(frame[4..].iter().all(|b| *b == 0));
    assert_eq!(discovery_request(0)[1], 1);
    assert_eq!(discovery_request(3)[1], 3);
    assert_eq!(discovery_request(200)[1], 26);
}

#[test]
fn discovery_reply_len_is_pages_of_512() {
    assert_eq!(discovery_reply_len(1), 512);
    assert_eq!(discovery_reply_len(0), 512);
    assert_eq!(discovery_reply_len(3), 1536);
    assert_eq!(discovery_reply_len(26), 26 * 512);
    assert_eq!(discovery_reply_len(255), 26 * 512);
}

#[test]
fn pages_for_rounds_devices_up() {
    assert_eq!(pages_for(0), 1);
    assert_eq!(pages_for(1), 1);
    assert_eq!(pages_for(10), 1);
    assert_eq!(pages_for(11), 2);
    assert_eq!(pages_for(255), 26);
}

#[test]
fn rf_frames_carry_the_payload_in_four_chunks() {
    let mut payload = [0; RF_PAYLOAD_LEN];
    for (i, b) in payload.iter_mut().enumerate() {
        *b = i as u8;
    }
    let frames = rf_frames(8, 2, &payload);
    assert_eq!(frames.len(), 4);
    for (index, frame) in frames.iter().enumerate() {
        assert_eq!(&frame[..4], &[0x10, index as u8, 8, 2]);
        assert_eq!(&frame[4..], &payload[index * 60..index * 60 + 60]);
    }
    assert_eq!(frames[3][63], 239);
}

#[test]
fn rf_frames_can_broadcast() {
    let frames = rf_frames(8, BROADCAST, &[0; RF_PAYLOAD_LEN]);
    assert!(frames.iter().all(|f| f[3] == 0xFF));
}
