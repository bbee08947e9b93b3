use lianli_wireless::heartbeat::{block, payload, Clock, Readings, BLOCK_LEN, INTERVAL};
use std::time::Duration;

const MASTER: [u8; 6] = [0xbf, 0x3d, 0xca, 0xe5, 0x66, 0xe4];

fn readings() -> Readings {
    Readings {
        cpu_temp: 61,
        cpu_load: 17,
        gpu_temp: 48,
        gpu_load: 99,
        cpu_mhz: 5225,
        gpu_mhz: 2820,
    }
}

fn clock() -> Clock {
    Clock {
        year: 2031,
        month: 12,
        day: 25,
        hour: 23,
        minute: 59,
        second: 58,
    }
}

fn numbered() -> [u8; BLOCK_LEN] {
    let mut block = [0; BLOCK_LEN];
    for (i, b) in block.iter_mut().enumerate() {
        *b = i as u8;
    }
    block
}

#[test]
fn block_places_readings_and_clock() {
    let b = block(&readings(), &clock());
    assert_eq!(&b[..8], &[61, 17, 48, 99, 0x14, 0x69, 0x0b, 0x04]);
    assert!(b[8..32].iter().all(|x| *x == 0));
    assert_eq!(&b[32..39], &[0x07, 0xef, 12, 25, 23, 59, 58]);
    assert!(b[39..].iter().all(|x| *x == 0));
}

#[test]
fn empty_readings_give_an_all_zero_block_but_the_clock() {
    let b = block(&Readings::default(), &clock());
    assert!(b[..32].iter().all(|x| *x == 0));
    assert_eq!(&b[32..39], &[0x07, 0xef, 12, 25, 23, 59, 58]);
    assert!(block(&Readings::default(), &Clock::default())
        .iter()
        .all(|x| *x == 0));
}

#[test]
fn steady_payload_carries_the_whole_block() {
    let p = payload(&MASTER, &numbered(), false);
    assert_eq!(&p[..2], &[0x12, 0x14]);
    assert!(p[2..8].iter().all(|x| *x == 0));
    assert_eq!(&p[8..14], &MASTER);
    assert_eq!(&p[14..234], &numbered()[..]);
    assert!(p[234..].iter().all(|x| *x == 0));
    assert_eq!(p.len(), 240);
}

#[test]
fn first_payload_marks_the_head_unset_and_keeps_the_tail() {
    let p = payload(&MASTER, &numbered(), true);
    assert_eq!(&p[..2], &[0x12, 0x14]);
    assert_eq!(&p[8..14], &MASTER);
    assert!(p[14..64].iter().all(|x| *x == 0x14));
    assert_eq!(&p[64..234], &numbered()[50..]);
    assert_eq!(p[64], 50);
    assert_eq!(p[233], 219);
    assert!(p[234..].iter().all(|x| *x == 0));
}

#[test]
fn interval_is_one_second() {
    assert_eq!(INTERVAL, Duration::from_secs(1).as_nanos());
}
