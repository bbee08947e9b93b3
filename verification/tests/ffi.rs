use lianli_wireless::discovery::{Device, Reply};
use lianli_wireless::dongle;
use lianli_wireless::engine::{started_line, Core, Snapshot, STOPPED_LINE, TICK};
use lianli_wireless::enumerate::Role;
use lianli_wireless::ffi::{
    clear_arguments, close_argument, fitting, lianli_version, open_argument, open_failed,
    open_service, panicked, read_state_arguments, read_state_size, set_percent_arguments, stopped,
    take_log_arguments, Group, HostLog, Refusal, State, ERR_ARGUMENT, ERR_DONGLE, ERR_LCONNECT,
    ERR_PANIC, ERR_SIZE, ERR_WINDOWS, LOG_CAPACITY, MAX_GROUPS, OK, STATE_SIZE,
};
use lianli_wireless::heartbeat::Clock;
use lianli_wireless::model::GroupState;
use lianli_wireless::scripted::ScriptedLink;
use lianli_wireless::win::WinError;

const MASTER: [u8; 6] = [9; 6];
const A: [u8; 6] = [1; 6];

fn device(mac: [u8; 6], receiver: u8, fans: u8, duty: u8) -> Device {
    let mut duties = [0; 4];
    let mut rpm = [0; 4];
    for slot in 0..usize::from(fans) {
        duties[slot] = duty;
        rpm[slot] = 1800;
    }
    Device {
        mac,
        master_mac: MASTER,
        channel: 8,
        receiver,
        device_type: 0,
        fan_count: fans,
        right_attach: false,
        effect: [0; 4],
        fan_types: [46, 46, 46, 0],
        rpm,
        duty: duties,
        sequence: 0,
        pwm_line: false,
        light_sync: false,
    }
}

/// The code a call answers with, and what it leaves as the last error.
fn answer(r: Result<(), Refusal>) -> (i32, String) {
    match r {
        Ok(()) => (OK, String::new()),
        Err(refusal) => (refusal.code, refusal.message),
    }
}

#[test]
fn layouts_are_fixed() {
    assert_eq!(std::mem::size_of::<Group>(), 32);
    assert_eq!(std::mem::size_of::<State>(), 48 + 32 * MAX_GROUPS);
    assert_eq!(STATE_SIZE as usize, 48 + 32 * MAX_GROUPS);
    assert_eq!(lianli_version(), 1);
}

#[test]
fn null_arguments_are_refused_with_a_message() {
    assert_eq!(answer(open_argument(true)), (ERR_ARGUMENT, "open: out is null".to_string()));
    assert_eq!(answer(close_argument(true)), (ERR_ARGUMENT, "close: handle is null".to_string()));
    assert_eq!(
        answer(set_percent_arguments(true, 50)),
        (ERR_ARGUMENT, "set_percent: handle or mac is null".to_string())
    );
    assert_eq!(
        answer(clear_arguments(true)),
        (ERR_ARGUMENT, "clear: handle or mac is null".to_string())
    );
    assert_eq!(
        answer(read_state_arguments(true)),
        (ERR_ARGUMENT, "read_state: handle or state is null".to_string())
    );
    let null = (ERR_ARGUMENT, "take_log: handle or buffer is null, or length is 0".to_string());
    assert_eq!(answer(take_log_arguments(true, 8)), null);
    assert_eq!(answer(take_log_arguments(false, 0)), null);
}

#[test]
fn arguments_in_range_are_taken() {
    assert_eq!(answer(open_argument(false)).0, OK);
    assert_eq!(answer(close_argument(false)).0, OK);
    assert_eq!(answer(set_percent_arguments(false, 0)).0, OK);
    assert_eq!(answer(set_percent_arguments(false, 100)).0, OK);
    assert_eq!(answer(clear_arguments(false)).0, OK);
    assert_eq!(answer(read_state_arguments(false)).0, OK);
    assert_eq!(answer(read_state_size(560)).0, OK);
    assert_eq!(answer(read_state_size(561)).0, OK);
    assert_eq!(answer(take_log_arguments(false, 1)).0, OK);
    assert_eq!(
        answer(set_percent_arguments(false, 101)),
        (ERR_ARGUMENT, "set_percent: 101 is over 100".to_string())
    );
}

#[test]
fn a_handle_reports_state_and_log_and_closes() {
    let reply = Reply {
        reported: 1,
        masters: Vec::new(),
        devices: vec![device(A, 2, 3, 206)],
        skipped: 0,
    };
    let mut link = ScriptedLink::new(MASTER, 8, reply);
    let mut core = Core::new(MASTER, 8);
    let mut log = HostLog::new();
    log.push(&started_line(&MASTER, 8));

    assert_eq!(answer(set_percent_arguments(false, 101)).0, ERR_ARGUMENT);
    assert_eq!(answer(set_percent_arguments(false, 50)).0, OK);
    core.want(A, 50);
    let mut now = 1_000_000_000_000;
    for _ in 0..2 {
        core.tick(&mut link, now, Clock::default());
        for line in core.take_events() {
            log.push(&line);
        }
        now += TICK;
    }

    let state = State::from(core.snapshot());
    assert_eq!(state.version, 1);
    assert_eq!(state.master_mac, [9; 6]);
    assert_eq!(state.channel, 8);
    assert!(state.ticks >= 2);
    assert_eq!(state.group_count, 1);
    let g = state.groups[0];
    assert_eq!(g.mac, A);
    assert_eq!(g.fan_count, 3);
    assert_eq!(g.online, 1);
    assert_eq!(g.has_target, 1);
    assert_eq!(g.target, [128, 128, 128, 0]);
    assert_eq!(g.rpm, [1800, 1800, 1800, 0]);

    let (code, message) = answer(read_state_size(8));
    assert_eq!(code, ERR_SIZE);
    assert!(message.contains("8 bytes"));
    assert_eq!(message, "read_state: state is 8 bytes, this library needs 560");

    core.shutdown(&mut link, now);
    for line in core.take_events() {
        log.push(&line);
    }
    log.push(STOPPED_LINE);
    let first = log.take().unwrap();
    assert!(first.starts_with("engine started"), "{first}");
    let mut lines = vec![first];
    while let Some(line) = log.take() {
        lines.push(line);
    }
    assert!(lines.len() >= 3, "{lines:?}");
    assert_eq!(lines[lines.len() - 1], "engine stopped");
    assert_eq!(answer(close_argument(false)).0, OK);
}

#[test]
fn long_text_is_cut_to_the_buffer_on_a_character_boundary() {
    let bytes = fitting("h\u{e9}llo world", 5);
    assert_eq!(bytes.len(), 4);
    assert_eq!(std::str::from_utf8(&bytes).unwrap(), "h\u{e9}l");
    assert_eq!(fitting("h\u{e9}", 3).len(), 1);
    assert_eq!(fitting("", 3).len(), 0);
    assert_eq!(fitting("fits", 5), b"fits");
    assert_eq!(fitting("fits", 4), b"fit");
    assert_eq!(fitting("\u{1f300}", 4).len(), 0);
}

#[test]
fn a_panic_inside_a_call_becomes_a_code() {
    let refusal = panicked("test", "boom");
    assert_eq!(refusal.code, ERR_PANIC);
    assert_eq!(refusal.message, "test: boom");
}

#[test]
fn a_call_on_a_stopped_engine_is_refused() {
    let refusal = stopped("set_percent");
    assert_eq!(refusal.code, ERR_ARGUMENT);
    assert_eq!(refusal.message, "set_percent: engine stopped");
}

#[test]
fn opening_is_refused_while_the_service_runs() {
    assert_eq!(
        answer(open_service(Ok(true), "")),
        (ERR_LCONNECT, "L-Connect-Service.exe is running and owns the dongle".to_string())
    );
    assert_eq!(answer(open_service(Ok(false), "")).0, OK);
    let error = WinError { call: "CreateToolhelp32Snapshot", code: 5 };
    let (code, message) = answer(open_service(Err(error), "Access is denied."));
    assert_eq!(code, ERR_WINDOWS);
    assert!(message.contains("Access is denied."), "{message}");
    assert!(message.contains("CreateToolhelp32Snapshot"), "{message}");
}

#[test]
fn a_dongle_that_does_not_open_is_described() {
    let refusal = open_failed(&dongle::Error::NoMaster, "");
    assert_eq!(refusal.code, ERR_DONGLE);
    assert_eq!(refusal.message, "the transmitter answered on no channel");
    let refusal = open_failed(&dongle::Error::ShortWrite(Role::Receiver, 3), "");
    assert_eq!(refusal.message, "receiver took 3 of 64 bytes");
}

#[test]
fn a_state_carries_sixteen_groups_at_most() {
    let mut snapshot = Snapshot::before_the_first_tick(MASTER, 8);
    for i in 0..20u8 {
        snapshot.groups.push(GroupState {
            mac: [i; 6],
            receiver: i,
            fan_count: 3,
            model: 46,
            online: i % 2 == 0,
            rpm: [900, 901, 902, 0],
            duty: [1, 2, 3, 0],
            target: if i == 0 { None } else { Some([4, 5, 6, 0]) },
            acknowledged: i == 2,
            unacknowledged: 7,
        });
    }
    let state = State::from(&snapshot);
    assert_eq!(state.size, 560);
    assert_eq!(state.alarm, 0);
    assert_eq!(state.group_count, 16);
    assert_eq!(
        state.groups[2],
        Group {
            mac: [2; 6],
            receiver: 2,
            fan_count: 3,
            model: 46,
            online: 1,
            acknowledged: 1,
            has_target: 1,
            unacknowledged: 7,
            rpm: [900, 901, 902, 0],
            duty: [1, 2, 3, 0],
            target: [4, 5, 6, 0],
        }
    );
    assert_eq!(state.groups[0].has_target, 0);
    assert_eq!(state.groups[0].target, [0; 4]);
    assert_eq!(state.groups[15].mac, [15; 6]);
    snapshot.groups.truncate(1);
    let state = State::from(&snapshot);
    assert_eq!(state.group_count, 1);
    assert_eq!(state.groups[1], Group::default());
}

#[test]
fn a_full_log_drops_its_oldest_line() {
    let mut log = HostLog::new();
    assert_eq!(log.take(), None);
    for i in 0..LOG_CAPACITY + 2 {
        log.push(&i.to_string());
    }
    assert_eq!(log.take().as_deref(), Some("2"));
    let mut count = 1;
    let mut last = String::new();
    while let Some(line) = log.take() {
        count += 1;
        last = line;
    }
    assert_eq!(count, 1000);
    assert_eq!(last, "1001");
}
