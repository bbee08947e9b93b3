use lianli_wireless::discovery::{Device, Master, Reply};
use lianli_wireless::engine::{spread, Alarm, Snapshot};
use lianli_wireless::groups::Tracker;
use lianli_wireless::heartbeat::Clock;
use lianli_wireless::model::GroupState;
use lianli_wireless::probe::{
    asked_line, choose_fans, chosen_line, confirm_name, connected_line, describe, describe_master,
    fans, first_tick, group_status_line, parse_assignment, parse_discover, parse_run, parse_set,
    poll_block, read_typed, refusal, resolve, run_outcome, set_name, share_hint, stamp, stamped,
    starting_line, status_line, to_confirm, DiscoverOptions, RunOptions, SetOptions, Typed,
    ECHO_NAME, RESTORE_NAME,
};
use lianli_wireless::run::{closing_line, first_asked, status_block, Run};
use lianli_wireless::time::SECOND;

const A: [u8; 6] = [0x7c, 0x9c, 0x06, 0xf5, 0x17, 0xe1];
const B: [u8; 6] = [0x7c, 0x9c, 0x06, 0x00, 0x00, 0x01];
const C: [u8; 6] = [0x10, 0, 0, 0, 0, 0x2f];

fn args(words: &[&str]) -> Vec<String> {
    words.iter().map(|w| w.to_string()).collect()
}

fn group(mac: [u8; 6]) -> GroupState {
    GroupState {
        mac,
        receiver: 2,
        fan_count: 3,
        model: 46,
        online: true,
        rpm: [1800, 1801, 1802, 0],
        duty: [206, 206, 205, 0],
        target: None,
        acknowledged: false,
        unacknowledged: 0,
    }
}

fn snapshot(groups: Vec<GroupState>) -> Snapshot {
    let mut snapshot = Snapshot::before_the_first_tick([9; 6], 8);
    snapshot.groups = groups;
    snapshot
}

fn device() -> Device {
    Device {
        mac: A,
        master_mac: [0xbf, 0x3d, 0xca, 0xe5, 0x66, 0xe4],
        channel: 8,
        receiver: 2,
        device_type: 0,
        fan_count: 3,
        right_attach: false,
        effect: [0; 4],
        fan_types: [46, 46, 46, 0],
        rpm: [1800, 1810, 1820, 0],
        duty: [206, 206, 206, 0],
        sequence: 5,
        pwm_line: false,
        light_sync: false,
    }
}

#[test]
fn discover_polls_five_times_unless_told_otherwise() {
    assert_eq!(parse_discover(&args(&[])), Ok(DiscoverOptions { polls: 5, share: false }));
    assert_eq!(
        parse_discover(&args(&["--share", "--polls", "12"])),
        Ok(DiscoverOptions { polls: 12, share: true })
    );
    assert_eq!(
        parse_discover(&args(&["--polls", "3", "--polls", "+4"])),
        Ok(DiscoverOptions { polls: 4, share: false })
    );
}

#[test]
fn discover_refuses_what_it_cannot_read() {
    let refused = |words: &[&str]| parse_discover(&args(words)).unwrap_err();
    assert_eq!(refused(&["--polls"]), "--polls needs a number");
    assert_eq!(refused(&["--polls", "0"]), "--polls: '0' is not a positive number");
    assert_eq!(refused(&["--polls", "x"]), "--polls: 'x' is not a positive number");
    assert_eq!(
        refused(&["--polls", "4294967296"]),
        "--polls: '4294967296' is not a positive number"
    );
    assert_eq!(refused(&["--poll"]), "unknown option '--poll'");
}

#[test]
fn set_takes_a_group_a_percent_and_seconds() {
    assert_eq!(
        parse_set(&args(&["7C:9c", "0"])),
        Ok(SetOptions { group: "7c:9c".to_string(), percent: 0, hold: 10 * SECOND })
    );
    assert_eq!(
        parse_set(&args(&["7c", "100", "3"])),
        Ok(SetOptions { group: "7c".to_string(), percent: 100, hold: 3 * SECOND })
    );
}

#[test]
fn set_refuses_what_it_cannot_read() {
    let refused = |words: &[&str]| parse_set(&args(words)).unwrap_err();
    assert_eq!(refused(&[]), "set needs a group address prefix");
    assert_eq!(refused(&["7c"]), "set needs a percent");
    assert_eq!(refused(&["7c", "101"]), "'101' is not a percent from 0 to 100");
    assert_eq!(refused(&["7c", "-1"]), "'-1' is not a percent from 0 to 100");
    assert_eq!(refused(&["7c", "50", "0"]), "'0' is not a positive number of seconds");
    assert_eq!(refused(&["7c", "50", "5", "6"]), "unexpected argument '6'");
}

#[test]
fn run_takes_minutes_and_options_in_any_order() {
    assert_eq!(
        parse_run(&args(&[])),
        Ok(RunOptions {
            length: 3600 * SECOND,
            every: 10 * SECOND,
            initial: Vec::new(),
            leave: false,
        })
    );
    assert_eq!(
        parse_run(&args(&["--set", "7C=40", "5", "--leave", "--every", "2", "--set", "10=50"])),
        Ok(RunOptions {
            length: 300 * SECOND,
            every: 2 * SECOND,
            initial: vec![("7c".to_string(), 40), ("10".to_string(), 50)],
            leave: true,
        })
    );
}

#[test]
fn run_refuses_what_it_cannot_read() {
    let refused = |words: &[&str]| parse_run(&args(words)).unwrap_err();
    assert_eq!(refused(&["--every"]), "--every needs a number of seconds");
    assert_eq!(refused(&["--every", "0"]), "--every: '0' is not a positive number");
    assert_eq!(refused(&["--set"]), "--set needs <group>=<percent>");
    assert_eq!(refused(&["--set", "7c"]), "'7c' is not <group>=<percent>");
    assert_eq!(refused(&["--set", "7c=101"]), "'101' is not a percent from 0 to 100");
    assert_eq!(refused(&["0"]), "'0' is not a positive number of minutes");
    assert_eq!(refused(&["soon"]), "'soon' is not a positive number of minutes");
    assert_eq!(refused(&["5", "6"]), "unexpected argument '6'");
    assert_eq!(refused(&["--stay"]), "unexpected argument '--stay'");
}

#[test]
fn an_assignment_is_cut_at_its_first_equals_sign() {
    assert_eq!(parse_assignment("7C=30"), Ok(("7c".to_string(), 30)));
    assert_eq!(parse_assignment("=30"), Ok((String::new(), 30)));
    assert_eq!(
        parse_assignment("a=b=30"),
        Err("'b=30' is not a percent from 0 to 100".to_string())
    );
}

#[test]
fn a_stamp_has_two_digits_for_each_part() {
    let clock = Clock { year: 2025, month: 1, day: 2, hour: 7, minute: 5, second: 59 };
    assert_eq!(stamp(&clock), "07:05:59");
}

#[test]
fn at_least_one_value_is_shown_and_at_most_four() {
    let values = [4u8, 5, 6, 7];
    assert_eq!(fans(&values, 0), [4]);
    assert_eq!(fans(&values, 3), [4, 5, 6]);
    assert_eq!(fans(&values, 9), [4, 5, 6, 7]);
}

#[test]
fn devices_and_masters_are_described_in_one_line() {
    assert_eq!(
        describe(&device()),
        "7c:9c:06:f5:17:e1 rx 2 ch 8 type 0 fans 3 rpm [1800, 1810, 1820] duty [206, 206, 206] \
         (81%) seq 5 model [46, 46, 46, 0] bound to bf:3d:ca:e5:66:e4"
    );
    let mut loose = device();
    loose.right_attach = true;
    loose.fan_count = 0;
    loose.master_mac = [0; 6];
    assert_eq!(
        describe(&loose),
        "7c:9c:06:f5:17:e1 rx 2 ch 8 type 0 fans 0 right-attach rpm [1800] duty [206] \
         (81%) seq 5 model [46, 46, 46, 0] unbound"
    );
    let master = Master { mac: C, channel: 12 };
    assert_eq!(describe_master(&master), "master 10:00:00:00:00:2f channel 12");
}

#[test]
fn a_prefix_names_a_group_if_it_fits_one_only() {
    let snapshot = snapshot(vec![group(A), group(B), group(C)]);
    assert_eq!(resolve(&snapshot, "10"), Ok(C));
    assert_eq!(resolve(&snapshot, "7c:9c:06:f"), Ok(A));
    assert_eq!(resolve(&snapshot, "7c:9c:06:f5:17:e1"), Ok(A));
    assert_eq!(
        resolve(&snapshot, "7c"),
        Err("'7c' matches 7c:9c:06:f5:17:e1, 7c:9c:06:00:00:01".to_string())
    );
    assert_eq!(
        resolve(&snapshot, "ff"),
        Err("no group starts with 'ff'; groups: 7c:9c:06:f5:17:e1, 7c:9c:06:00:00:01, \
             10:00:00:00:00:2f"
            .to_string())
    );
}

#[test]
fn a_fan_group_is_chosen_by_its_prefix() {
    let mut tracker = Tracker::new([0xbf, 0x3d, 0xca, 0xe5, 0x66, 0xe4]);
    let reply = lianli_wireless::discovery::Reply {
        reported: 1,
        masters: Vec::new(),
        devices: vec![device()],
        skipped: 0,
    };
    tracker.observe(&reply, 1000 * SECOND);
    let fans = tracker.fans();
    assert_eq!(choose_fans(&fans, "7c").map(|d| d.mac), Ok(A));
    assert_eq!(
        choose_fans(&fans, "8").map(|d| d.mac),
        Err("no fan group starts with '8'; groups: 7c:9c:06:f5:17:e1".to_string())
    );
}

#[test]
fn a_status_line_counts_minutes_and_names_the_failsafe() {
    let mut snap = snapshot(Vec::new());
    snap.ticks = 75;
    snap.polls = 70;
    snap.poll_failures = 5;
    assert_eq!(status_line(&snap, 75 * SECOND), "  1:15 ticks 75 polls 70 failed 5");
    snap.alarm = Some(Alarm::Dongle);
    assert_eq!(
        status_line(&snap, 60_000 * SECOND),
        "1000:00 ticks 75 polls 70 failed 5 FAILSAFE (3 polls failed in a row)"
    );
}

#[test]
fn a_group_line_says_what_is_not_confirmed() {
    let mut g = group(A);
    assert_eq!(
        group_status_line(&g),
        "  7c:9c:06:f5:17:e1 online  duty [206, 206, 205] target none rpm [1800, 1801, 1802]"
    );
    g.online = false;
    g.target = Some([128, 128, 128, 0]);
    g.unacknowledged = 2;
    assert_eq!(
        group_status_line(&g),
        "  7c:9c:06:f5:17:e1 OFFLINE duty [206, 206, 205] target [128, 128, 128] \
         (unacknowledged) rpm [1800, 1801, 1802] sent 2 times without confirmation"
    );
    g.acknowledged = true;
    g.unacknowledged = 1;
    assert_eq!(
        group_status_line(&g),
        "  7c:9c:06:f5:17:e1 OFFLINE duty [206, 206, 205] target [128, 128, 128] \
         rpm [1800, 1801, 1802]"
    );
}

#[test]
fn typed_lines_ask_quit_or_are_answered() {
    let snapshot = snapshot(vec![group(A), group(C)]);
    assert_eq!(read_typed(&snapshot, " Q \n"), Typed::Quit);
    assert_eq!(read_typed(&snapshot, "quit\r\n"), Typed::Quit);
    assert_eq!(read_typed(&snapshot, "\n"), Typed::Nothing);
    assert_eq!(read_typed(&snapshot, "7C  40\n"), Typed::Ask(A, 40));
    assert_eq!(read_typed(&snapshot, "10 0"), Typed::Ask(C, 0));
    assert_eq!(
        read_typed(&snapshot, "10 101"),
        Typed::Say("'101' is not a percent from 0 to 100".to_string())
    );
    assert_eq!(
        read_typed(&snapshot, "ff 50"),
        Typed::Say(
            "no group starts with 'ff'; groups: 7c:9c:06:f5:17:e1, 10:00:00:00:00:2f".to_string()
        )
    );
    assert_eq!(
        read_typed(&snapshot, "faster"),
        Typed::Say("type '<group> <percent>' or 'q'".to_string())
    );
    assert_eq!(asked_line(&A, 40), "you asked for 40% on 7c:9c:06:f5:17:e1");
}

#[test]
fn the_first_tick_is_awaited_for_ten_seconds() {
    assert_eq!(first_tick(0, 10 * SECOND), Ok(false));
    assert_eq!(first_tick(1, 3 * SECOND), Ok(true));
    assert_eq!(
        first_tick(1, 10 * SECOND + 1),
        Err("the engine did not tick within 10 s".to_string())
    );
}

#[test]
fn a_run_starts_and_ends_with_the_duties_it_found() {
    let first = snapshot(vec![group(A), group(C)]);
    assert_eq!(
        starting_line(&first),
        "2 groups; starting duties 7c:9c:06:f5:17:e1 [206, 206, 205], \
         10:00:00:00:00:2f [206, 206, 205]"
    );
    let mut changed = group(C);
    changed.duty = [128; 4];
    changed.target = Some([128, 128, 128, 0]);
    let last = snapshot(vec![group(A), changed]);
    assert_eq!(
        to_confirm(false, &first, &last),
        vec![(A, [206, 206, 205, 0]), (C, [206, 206, 205, 0])]
    );
    assert_eq!(to_confirm(true, &first, &last), vec![(C, [128, 128, 128, 0])]);
}

#[test]
fn a_run_fails_with_every_failure() {
    assert_eq!(run_outcome(&[]), Ok(()));
    assert_eq!(run_outcome(&args(&["one", "two"])), Err("one; two".to_string()));
}

#[test]
fn the_service_is_named_where_it_stands_in_the_way() {
    assert_eq!(
        refusal(true).as_deref(),
        Some("L-Connect-Service.exe is running and owns the dongle; stop it first")
    );
    assert_eq!(refusal(false), None);
}

#[test]
fn a_percentage_is_spread_over_the_fans_there_are() {
    assert_eq!(spread(50, 3), [128, 128, 128, 0]);
    assert_eq!(spread(0, 4), [0; 4]);
    assert_eq!(spread(100, 9), [255; 4]);
}

#[test]
fn a_run_lasts_as_long_as_asked_unless_told_to_stop() {
    let options = parse_run(&args(&["1", "--every", "5"])).unwrap();
    let snap = snapshot(vec![group(A)]);
    let start = 1_000 * SECOND;
    let mut run = Run::new(&options, start);
    assert!(run.goes_on(start));
    assert!(run.goes_on(start + 60 * SECOND - 1));
    assert!(!run.goes_on(start + 60 * SECOND));
    assert_eq!(run.typed(&snap, "7c 40"), Typed::Ask(A, 40));
    assert!(run.goes_on(start));
    assert_eq!(run.typed(&snap, "q"), Typed::Quit);
    assert!(!run.goes_on(start));
}

#[test]
fn a_run_shows_its_status_at_once_and_then_every_so_often() {
    let options = parse_run(&args(&["1", "--every", "5"])).unwrap();
    let snap = snapshot(vec![group(A), group(C)]);
    let start = 1_000 * SECOND;
    let mut run = Run::new(&options, start);
    let block = run.status(&snap, start + SECOND).unwrap();
    assert_eq!(block.len(), 3);
    assert_eq!(block[0], status_line(&snap, SECOND));
    assert_eq!(block[1], group_status_line(&group(A)));
    assert_eq!(block[2], group_status_line(&group(C)));
    assert_eq!(run.status(&snap, start + 6 * SECOND - 1), None);
    assert_eq!(run.status(&snap, start + 6 * SECOND), Some(status_block(&snap, 6 * SECOND)));
}

#[test]
fn a_run_begins_and_ends_with_what_was_asked() {
    let snap = snapshot(vec![group(A), group(C)]);
    assert_eq!(first_asked(&snap, "10", 45), Typed::Ask(C, 45));
    assert_eq!(
        first_asked(&snap, "11", 45),
        Typed::Say(
            "no group starts with '11'; groups: 7c:9c:06:f5:17:e1, 10:00:00:00:00:2f".to_string()
        )
    );
    assert_eq!(closing_line(true), "confirming the last targets");
    assert_eq!(closing_line(false), "putting the groups back");
}

#[test]
fn a_poll_is_printed_with_its_counts_its_dongles_and_its_devices() {
    let master = Master { mac: [0xbf, 0x3d, 0xca, 0xe5, 0x66, 0xe4], channel: 8 };
    let reply = Reply { reported: 3, masters: vec![master], devices: vec![device()], skipped: 1 };
    assert_eq!(
        poll_block(2, &reply),
        [
            String::from("poll 2: 3 reported, 1 master, 1 devices"),
            String::from("  master bf:3d:ca:e5:66:e4 channel 8"),
            format!("  {}", describe(&device())),
        ]
    );
    assert_eq!(connected_line(&master, 513), "master bf:3d:ca:e5:66:e4 channel 8 firmware 513");
}

#[test]
fn lines_of_a_session_name_what_is_done() {
    assert_eq!(chosen_line(&device()), format!("group {}", describe(&device())));
    assert_eq!(set_name(45), "set 45%");
    assert_eq!(confirm_name(&C), "confirm 10:00:00:00:00:2f");
    assert_eq!(ECHO_NAME, "echo");
    assert_eq!(RESTORE_NAME, "restore");
    assert_eq!(share_hint("refused"), "refused, or pass --share to try anyway");
    let clock = Clock { hour: 7, minute: 5, second: 9, ..Clock::default() };
    assert_eq!(stamped(&clock, "line"), "07:05:09 | line");
}
