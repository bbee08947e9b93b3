use lianli_wireless::dongle::{Dongle, Error, Handles};
use lianli_wireless::enumerate::Role;
use lianli_wireless::frame::ConnectReply;
use lianli_wireless::groups::Group;
use lianli_wireless::heartbeat::Clock;
use lianli_wireless::scripted::{Reads, ScriptedPort};
use lianli_wireless::session::{
    awaited, heartbeat_failed, held_line, set_outcome, Applying, Awaited, Chore, Holding,
    SendError, Session,
};
use lianli_wireless::time::SECOND;
use lianli_wireless::win::WinError;

const MASTER: [u8; 6] = [9; 6];
const A: [u8; 6] = [0x7c, 0x9c, 0x06, 0xf5, 0x17, 0xe1];
const NOW: u128 = 1_000 * SECOND;

/// A record of a group with three fans that report `duty`.
fn record(duty: u8) -> Vec<u8> {
    let mut r = vec![0u8; 42];
    r[0..6].copy_from_slice(&A);
    r[6..12].copy_from_slice(&MASTER);
    r[12] = 8;
    r[13] = 2;
    r[19] = 3;
    r[24..28].copy_from_slice(&[46, 46, 46, 0]);
    for slot in 0..3 {
        r[28 + 2 * slot..30 + 2 * slot].copy_from_slice(&1800u16.to_be_bytes());
        r[36 + slot] = duty;
    }
    r[41] = 28;
    r
}

/// A discovery reply with that record in it, in frames.
fn reply(duty: u8) -> Reads {
    let mut bytes = vec![0x10, 1, 0, 0];
    bytes.extend(record(duty));
    bytes.resize(64, 0);
    vec![Ok(bytes)]
}

fn session(replies: Vec<Reads>) -> Session<ScriptedPort> {
    let dongle = Dongle {
        handles: Some(Handles {
            tx: ScriptedPort::new(Vec::new(), Vec::new()),
            rx: ScriptedPort::new(Vec::new(), replies),
        }),
        master: ConnectReply { master_mac: MASTER, firmware: 262 },
        channel: 8,
        pages: 1,
    };
    Session::new(dongle)
}

fn writes(session: &Session<ScriptedPort>) -> &Vec<Vec<u8>> {
    &session.dongle.handles.as_ref().unwrap().tx.writes
}

#[test]
fn a_session_beats_once_a_second() {
    let mut session = session(Vec::new());
    assert_eq!(session.heartbeat(NOW, &Clock::default()), Ok(()));
    assert_eq!(writes(&session).len(), 4);
    assert!(session.heartbeat_sent);
    assert_eq!(session.heartbeat(NOW + SECOND - 1, &Clock::default()), Ok(()));
    assert_eq!(writes(&session).len(), 4);
    assert_eq!(session.heartbeat(NOW + SECOND, &Clock::default()), Ok(()));
    assert_eq!(writes(&session).len(), 8);
    assert_eq!(session.last_heartbeat, Some(NOW + SECOND));
}

#[test]
fn a_heartbeat_that_failed_is_tried_again() {
    let lost = WinError { call: "WinUsb_WritePipe", code: 31 };
    let mut session = session(Vec::new());
    session.dongle.handles.as_mut().unwrap().tx.write_result = Some(Err(lost));
    assert_eq!(
        session.heartbeat(NOW, &Clock::default()),
        Err(Error::Transfer(Role::Transmitter, lost))
    );
    assert!(!session.heartbeat_sent);
    assert_eq!(session.last_heartbeat, None);
}

#[test]
fn a_target_is_set_sent_and_acknowledged() {
    let mut session = session(vec![reply(206), reply(128)]);
    session.poll(NOW).unwrap();
    assert_eq!(
        session.aim(&A, [128, 128, 128, 0], "set 50%"),
        Ok("set 50%: sending [128, 128, 128, 0] to slot 1".to_string())
    );
    assert_eq!(session.send_if_due(&A, NOW), Ok(Some([128, 128, 128, 0])));
    assert_eq!(writes(&session).len(), 4);
    assert_eq!(session.send_if_due(&A, NOW), Ok(Some([128, 128, 128, 0])));
    assert_eq!(writes(&session).len(), 8);
    assert_eq!(
        awaited(session.tracker.group(&A), "set 50%", 1, NOW, 0),
        Ok(Awaited::Again)
    );
    session.poll(NOW + SECOND / 2).unwrap();
    assert_eq!(session.send_if_due(&A, NOW + SECOND / 2), Ok(None));
    assert_eq!(
        awaited(session.tracker.group(&A), "set 50%", 2, NOW + SECOND, SECOND),
        Ok(Awaited::Applied(
            "set 50%: acknowledged after 2 polls, duty [128, 128, 128] rpm [1800, 1800, 1800]"
                .to_string()
        ))
    );
    assert_eq!(
        held_line(session.tracker.group(&A), NOW + SECOND, 7 * SECOND),
        Ok("  + 7s duty [128, 128, 128] rpm [1800, 1800, 1800]".to_string())
    );
}

#[test]
fn an_acknowledgement_that_does_not_come_in_time_is_given_up() {
    let mut session = session(vec![reply(206)]);
    session.poll(NOW).unwrap();
    session.aim(&A, [128, 128, 128, 0], "echo").unwrap();
    let group: Option<&Group> = session.tracker.group(&A);
    assert_eq!(awaited(group, "echo", 19, NOW, 5 * SECOND - 1), Ok(Awaited::Again));
    assert_eq!(
        awaited(group, "echo", 20, NOW, 5 * SECOND),
        Err("echo: not acknowledged within 5 s; group reports duty [206, 206, 206]".to_string())
    );
    assert_eq!(
        held_line(group, NOW, 12 * SECOND),
        Ok("  +12s duty [206, 206, 206] rpm [1800, 1800, 1800] (not acknowledged)".to_string())
    );
}

#[test]
fn a_group_that_is_not_known_is_said_to_be_gone() {
    let mut session = session(Vec::new());
    assert_eq!(
        session.aim(&A, [0; 4], "echo"),
        Err("group 7c:9c:06:f5:17:e1 unknown".to_string())
    );
    assert_eq!(session.send_if_due(&A, NOW), Err(SendError::Vanished));
    assert_eq!(awaited(None, "echo", 1, NOW, 0), Err("group vanished".to_string()));
    assert_eq!(held_line(None, NOW, 0), Err("group vanished".to_string()));
}

#[test]
fn a_send_that_failed_leaves_the_target_due() {
    let lost = WinError { call: "WinUsb_WritePipe", code: 31 };
    let mut session = session(vec![reply(206)]);
    session.poll(NOW).unwrap();
    session.aim(&A, [128, 128, 128, 0], "echo").unwrap();
    session.dongle.handles.as_mut().unwrap().tx.write_result = Some(Err(lost));
    assert_eq!(
        session.send_if_due(&A, NOW),
        Err(SendError::Dongle(Error::Transfer(Role::Transmitter, lost)))
    );
    assert!(session.tracker.group(&A).unwrap().due(NOW));
    assert_eq!(session.poll(NOW), Err(Error::Reply(lianli_wireless::discovery::Error::Short)));
}

#[test]
fn polls_are_counted_while_a_target_is_applied() {
    let mut session = session(vec![reply(206), reply(128)]);
    session.poll(NOW).unwrap();
    session.aim(&A, [128, 128, 128, 0], "set 50%").unwrap();
    session.send_if_due(&A, NOW).unwrap();
    let mut applying = Applying::new("set 50%", NOW);
    assert_eq!(applying.polled(session.tracker.group(&A), NOW + 1), Ok(Awaited::Again));
    session.poll(NOW + SECOND / 4).unwrap();
    assert_eq!(
        applying.polled(session.tracker.group(&A), NOW + SECOND / 4),
        Ok(Awaited::Applied(
            "set 50%: acknowledged after 2 polls, duty [128, 128, 128] rpm [1800, 1800, 1800]"
                .to_string()
        ))
    );
    assert_eq!(applying.polls, 2);
    assert_eq!(applying.polled(None, NOW), Err("group vanished".to_string()));
}

#[test]
fn a_target_is_held_for_as_long_as_asked() {
    let mut session = session(vec![reply(206)]);
    session.poll(NOW).unwrap();
    let holding = Holding { started: NOW, hold: 2 * SECOND };
    let (line, over) = holding.polled(session.tracker.group(&A), NOW + SECOND).unwrap();
    assert_eq!(line, "  + 1s duty [206, 206, 206] rpm [1800, 1800, 1800] (not acknowledged)");
    assert!(!over);
    assert!(holding.polled(session.tracker.group(&A), NOW + 2 * SECOND).unwrap().1);
}

#[test]
fn a_set_fails_with_the_first_thing_that_went_wrong() {
    let failed = |what: &str| Err(what.to_string());
    assert_eq!(set_outcome(Ok(()), Ok(())), Ok(()));
    assert_eq!(set_outcome(Ok(()), failed("restore")), failed("restore"));
    assert_eq!(set_outcome(failed("hold"), Ok(())), failed("hold"));
    assert_eq!(set_outcome(failed("hold"), failed("restore")), failed("hold"));
}

#[test]
fn a_round_beats_sends_rests_polls_and_looks() {
    let mut chore = Chore::first();
    let mut round = vec![chore];
    for _ in 0..5 {
        chore = chore.next();
        round.push(chore);
    }
    assert_eq!(
        round,
        [Chore::Beat, Chore::Send, Chore::Rest, Chore::Poll, Chore::Look, Chore::Beat]
    );
}

#[test]
fn what_stops_a_round_is_said() {
    assert_eq!(heartbeat_failed("words"), "heartbeat: words");
    assert_eq!(SendError::Vanished.text(&A, ""), "group 7c:9c:06:f5:17:e1 vanished");
    assert_eq!(SendError::Dongle(Error::Closed).text(&A, "words"), "words");
}
