use lianli_wireless::log::{ChangeLog, FailLog, CHANGE_LOG_EVERY, REPEAT_LOG_EVERY};
use lianli_wireless::text::{decimal, mac, number, spell, utf16};
use lianli_wireless::time::SECOND;
use lianli_wireless::wanted::Wanted;

const A: [u8; 6] = [1; 6];
const B: [u8; 6] = [2; 6];
const NOW: u128 = 1_000 * SECOND;

#[test]
fn a_failure_is_said_once_and_then_counted() {
    let mut log = FailLog::new();
    assert_eq!(log.note("poll: lost", NOW).as_deref(), Some("poll: lost"));
    assert_eq!(log.note("poll: lost", NOW + SECOND), None);
    assert_eq!(log.note("poll: lost", NOW + 2 * SECOND), None);
    assert_eq!(log.note("heartbeat: lost", NOW).as_deref(), Some("heartbeat: lost"));
    assert_eq!(
        log.note("poll: lost", NOW + REPEAT_LOG_EVERY).as_deref(),
        Some("poll: lost (repeated 3 times)")
    );
    assert_eq!(log.note("poll: lost", NOW + REPEAT_LOG_EVERY), None);
    assert!(log.held_within(1));
    assert!(!log.held_within(0));
}

#[test]
fn failures_that_stopped_are_counted_out() {
    let mut log = FailLog::new();
    log.note("a", NOW);
    log.note("a", NOW);
    log.note("b", NOW);
    assert!(log.flush(NOW + REPEAT_LOG_EVERY - 1).is_empty());
    assert_eq!(log.flush(NOW + REPEAT_LOG_EVERY), ["a (repeated 1 times)"]);
    assert!(log.flush(NOW + 2 * REPEAT_LOG_EVERY).is_empty());
    assert_eq!(log.note("a", NOW + REPEAT_LOG_EVERY).as_deref(), Some("a"));
}

#[test]
fn a_targets_changes_are_said_every_ten_seconds_for_each_group() {
    let mut log = ChangeLog::new();
    assert_eq!(log.note(&A, "a 1".to_string(), NOW).as_deref(), Some("a 1"));
    assert_eq!(log.note(&A, "a 2".to_string(), NOW + SECOND), None);
    assert_eq!(log.note(&A, "a 3".to_string(), NOW + SECOND), None);
    assert_eq!(log.note(&B, "b 1".to_string(), NOW + SECOND).as_deref(), Some("b 1"));
    assert!(log.flush(NOW + CHANGE_LOG_EVERY - 1).is_empty());
    assert_eq!(
        log.flush(NOW + CHANGE_LOG_EVERY),
        ["a 3 (1 earlier change not logged)"]
    );
    assert_eq!(log.note(&A, "a 4".to_string(), NOW + CHANGE_LOG_EVERY), None);
}

#[test]
fn what_is_asked_of_a_group_is_its_own() {
    let mut wanted = Wanted::new();
    assert_eq!(wanted.get(&A), None);
    wanted.set(&A, 40);
    wanted.set(&B, 50);
    wanted.set(&A, 60);
    assert_eq!(wanted.get(&A), Some(60));
    assert_eq!(wanted.get(&B), Some(50));
    assert!(wanted.remove(&A));
    assert!(!wanted.remove(&A));
    assert_eq!(wanted.get(&A), None);
    assert_eq!(wanted.get(&B), Some(50));
}

#[test]
fn numbers_read_back() {
    for n in [0, 9, 10, 99, 100, 4095, u64::MAX] {
        assert_eq!(decimal(n), n.to_string());
        assert_eq!(number(&decimal(n), u64::MAX), Some(n));
    }
    assert_eq!(number("100", 99), None);
    assert_eq!(number("", 99), None);
    assert_eq!(number("+", 99), None);
    assert_eq!(number("18446744073709551616", u64::MAX), None);
    assert_eq!(number("007", 99), Some(7));
}

#[test]
fn text_survives_utf16() {
    let text = "h\u{e9}llo \u{1f300}\u{ffff}\u{10000}\u{10ffff}";
    assert_eq!(utf16(text), text.encode_utf16().collect::<Vec<u16>>());
    assert_eq!(spell(&utf16(text)), text);
}

#[test]
fn addresses_are_written_in_pairs_of_digits() {
    assert_eq!(mac(&[0x7c, 0x9c, 0x06, 0xf5, 0x17, 0xe1]), "7c:9c:06:f5:17:e1");
    assert_eq!(mac(&[0; 6]), "00:00:00:00:00:00");
}
