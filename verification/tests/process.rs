use lianli_wireless::clock::clock_from;
use lianli_wireless::heartbeat::Clock;
use lianli_wireless::process::{entry_name, running, walk_end, LCONNECT_SERVICE};
use lianli_wireless::win::{WinError, ERROR_NO_MORE_FILES};

fn listing() -> Vec<String> {
    vec!["System".to_string(), "explorer.exe".to_string(), "l-connect-service.EXE".to_string()]
}

#[test]
fn a_process_is_found_whatever_its_case() {
    assert_eq!(running(Ok(listing()), "EXPLORER.exe"), Ok(true));
    assert_eq!(running(Ok(listing()), LCONNECT_SERVICE), Ok(true));
    assert_eq!(running(Ok(listing()), "no-such-program-4f2a9c.exe"), Ok(false));
    assert_eq!(running(Ok(listing()), "explorer"), Ok(false));
    assert_eq!(running(Ok(Vec::new()), LCONNECT_SERVICE), Ok(false));
    assert_eq!(LCONNECT_SERVICE, "L-Connect-Service.exe");
}

#[test]
fn a_failed_listing_is_passed_on() {
    let error = WinError { call: "CreateToolhelp32Snapshot", code: 5 };
    assert_eq!(running(Err(error), LCONNECT_SERVICE), Err(error));
}

#[test]
fn an_entry_name_ends_at_its_zero() {
    let mut units: Vec<u16> = "explorer.exe".encode_utf16().collect();
    units.extend([0, 0x58, 0x59]);
    assert_eq!(entry_name(&units), "explorer.exe");
    assert_eq!(entry_name(&[]), "");
}

#[test]
fn the_walk_through_the_processes_ends_where_they_do() {
    let end = WinError { call: "Process32NextW", code: ERROR_NO_MORE_FILES };
    assert_eq!(walk_end(end), Ok(()));
    let error = WinError { call: "Process32NextW", code: 5 };
    assert_eq!(walk_end(error), Err(error));
}

#[test]
fn a_system_time_becomes_a_clock() {
    assert_eq!(
        clock_from(2025, 12, 31, 23, 59, 58),
        Clock { year: 2025, month: 12, day: 31, hour: 23, minute: 59, second: 58 }
    );
    assert_eq!(clock_from(0, 257, 0, 0, 0, 0).month, 1);
}
