use lianli_wireless::enumerate::{
    classify, detail_path, detail_words, find, interface_guid, pair, size_asked, walk_end, Dongles,
    Error, Event, Role, Step, Walk,
};
use lianli_wireless::win::{
    wide, WinError, ERROR_ACCESS_DENIED, ERROR_INSUFFICIENT_BUFFER, ERROR_NO_MORE_ITEMS,
};

const TX: &str =
    r"\\?\usb#vid_0416&pid_8040#b&25613874&0&3#{1d4b2365-4749-48ea-b38a-7c6fdddd7e26}";
const RX: &str =
    r"\\?\usb#vid_0416&pid_8041#b&25613874&0&2#{1d4b2365-4749-48ea-b38a-7c6fdddd7e26}";

#[test]
fn interface_guid_reads_back_as_its_text() {
    let g = interface_guid();
    let text = format!(
        "{{{:08X}-{:04X}-{:04X}-{:02X}{:02X}-{:02X}{:02X}{:02X}{:02X}{:02X}{:02X}}}",
        g.Data1,
        g.Data2,
        g.Data3,
        g.Data4[0],
        g.Data4[1],
        g.Data4[2],
        g.Data4[3],
        g.Data4[4],
        g.Data4[5],
        g.Data4[6],
        g.Data4[7]
    );
    assert_eq!(text, "{1D4B2365-4749-48EA-B38A-7C6FDDDD7E26}");
}

#[test]
fn paths_are_classified_by_product_id() {
    assert_eq!(classify(TX), Some(Role::Transmitter));
    assert_eq!(classify(RX), Some(Role::Receiver));
    assert_eq!(classify(&TX.to_uppercase()), Some(Role::Transmitter));
    assert_eq!(classify(r"\\?\usb#vid_0416&pid_8042#x#{g}"), None);
    assert_eq!(classify(r"\\?\usb#vid_1a86&pid_8040#x#{g}"), None);
    assert_eq!(classify(r"\\?\usb#vid_0416&pid_80#x"), None);
    assert_eq!(classify(""), None);
}

#[test]
fn pair_takes_one_of_each() {
    let paths = vec![RX.to_string(), "other".to_string(), TX.to_string()];
    assert_eq!(
        pair(&paths),
        Ok(Dongles {
            transmitter: TX.to_string(),
            receiver: RX.to_string()
        })
    );
}

#[test]
fn pair_reports_what_is_missing_or_doubled() {
    assert_eq!(
        pair(&[RX.to_string()]),
        Err(Error::Missing(Role::Transmitter))
    );
    assert_eq!(pair(&[TX.to_string()]), Err(Error::Missing(Role::Receiver)));
    assert_eq!(pair(&[]), Err(Error::Missing(Role::Transmitter)));
    assert_eq!(
        pair(&[TX.to_string(), RX.to_string(), RX.to_string()]),
        Err(Error::Several(Role::Receiver, 2))
    );
    assert_eq!(
        Error::Several(Role::Receiver, 2).text(""),
        "2 receiver dongles are attached"
    );
    assert_eq!(
        Error::Missing(Role::Transmitter).text(""),
        "no transmitter dongle is attached"
    );
}

#[test]
fn find_passes_on_a_failed_listing() {
    let refused = WinError {
        call: "SetupDiGetClassDevsW",
        code: ERROR_ACCESS_DENIED,
    };
    assert_eq!(find(Err(refused)), Err(Error::Windows(refused)));
    assert_eq!(Error::Windows(refused).code(), Some(5));
    assert_eq!(
        Error::Windows(refused).text("Access is denied."),
        "SetupDiGetClassDevsW failed with error 5: Access is denied."
    );
    assert_eq!(
        find(Ok(vec![TX.to_string(), RX.to_string()])),
        Ok(Dongles {
            transmitter: TX.to_string(),
            receiver: RX.to_string()
        })
    );
}

#[test]
fn the_first_vendor_mark_counts() {
    assert_eq!(
        classify("vid_0416&pid_9999#vid_0416&pid_8040"),
        None
    );
    assert_eq!(classify("xxVID_0416&PID_8041"), Some(Role::Receiver));
    assert_eq!(classify("vid_0416&pid_+804"), None);
    assert_eq!(classify("vid_0416&pid_80\u{e9}0"), None);
}

#[test]
fn the_walk_ends_where_the_interfaces_do() {
    let end = WinError {
        call: "SetupDiEnumDeviceInterfaces",
        code: ERROR_NO_MORE_ITEMS,
    };
    let fault = WinError {
        call: "SetupDiEnumDeviceInterfaces",
        code: ERROR_ACCESS_DENIED,
    };
    assert_eq!(walk_end(end), Ok(()));
    assert_eq!(walk_end(fault), Err(fault));
    let small = WinError {
        call: "SetupDiGetDeviceInterfaceDetailW",
        code: ERROR_INSUFFICIENT_BUFFER,
    };
    assert_eq!(size_asked(small), Ok(()));
    assert_eq!(size_asked(fault), Err(fault));
}

#[test]
fn a_detail_record_holds_the_path_behind_its_size() {
    assert_eq!(detail_words(0), 2);
    assert_eq!(detail_words(8), 2);
    assert_eq!(detail_words(9), 3);
    assert_eq!(detail_words(u32::MAX), 1 << 30);
    let mut record = vec![8u8, 0, 0, 0];
    for unit in wide("usb#\u{1F300}x") {
        record.extend_from_slice(&unit.to_le_bytes());
    }
    record.extend_from_slice(&[0x41, 0, 7]);
    assert_eq!(detail_path(&record), "usb#\u{1F300}x");
    assert_eq!(detail_path(&[8, 0, 0, 0, 0x61, 0]), "a");
    assert_eq!(detail_path(&[8, 0, 0, 0, 0, 0xD8, 0x61, 0]), "\u{FFFD}a");
}

#[test]
fn a_walk_lists_the_path_of_each_interface() {
    let error = |code: u32| WinError { call: "X", code };
    let record = |path: &str| {
        let mut bytes = vec![8, 0, 0, 0];
        bytes.extend(wide(path).iter().flat_map(|unit| unit.to_le_bytes()));
        bytes
    };
    let mut walk = Walk::new();
    assert_eq!(walk.index, 0);
    for (i, path) in [TX, RX].into_iter().enumerate() {
        assert_eq!(walk.next(Event::Found), Ok(Step::Measure));
        let bytes = record(path);
        assert_eq!(
            walk.next(Event::Measured(bytes.len() as u32, error(ERROR_INSUFFICIENT_BUFFER))),
            Ok(Step::Read(bytes.len().div_ceil(4)))
        );
        assert_eq!(walk.next(Event::Record(bytes)), Ok(Step::Find(i as u32 + 1)));
    }
    assert_eq!(walk.next(Event::NotFound(error(ERROR_NO_MORE_ITEMS))), Ok(Step::Listed));
    assert_eq!(walk.paths, [TX, RX]);
}

#[test]
fn a_walk_fails_with_whatever_else_goes_wrong() {
    let denied = WinError { call: "X", code: ERROR_ACCESS_DENIED };
    let mut walk = Walk::new();
    assert_eq!(walk.next(Event::NotFound(denied)), Err(denied));
    assert_eq!(walk.next(Event::Measured(40, denied)), Err(denied));
    assert_eq!(walk.next(Event::Unread(denied)), Err(denied));
    assert!(walk.paths.is_empty());
}
