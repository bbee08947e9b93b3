use lianli_wireless::text::{decimal, hex, list, mac, spell, trim};
use lianli_wireless::enumerate::interface_guid;
use lianli_wireless::win::{
    message, until_zero, wide, WinError, DEVICE_INTERFACE_DATA_SIZE, ERROR_FILE_NOT_FOUND,
    GUID_SIZE, INTERFACE_DESCRIPTOR_SIZE, PIPE_INFORMATION_SIZE, SP_DEVICE_INTERFACE_DATA,
    USB_INTERFACE_DESCRIPTOR, USBD_PIPE_TYPE_INTERRUPT, WINUSB_PIPE_INFORMATION,
};

#[test]
fn structures_have_their_windows_sizes() {
    assert_eq!(GUID_SIZE, 16);
    assert_eq!(DEVICE_INTERFACE_DATA_SIZE, 32);
    assert_eq!(INTERFACE_DESCRIPTOR_SIZE, 9);
    assert_eq!(PIPE_INFORMATION_SIZE, 12);
    assert_eq!(interface_guid().bytes().len(), 16);
    assert_eq!(SP_DEVICE_INTERFACE_DATA::blank(interface_guid()).bytes().len(), 32);
}

#[test]
fn structures_are_laid_out_as_windows_wants_them() {
    let guid = [
        0x65, 0x23, 0x4b, 0x1d, 0x49, 0x47, 0xea, 0x48, 0xb3, 0x8a, 0x7c, 0x6f, 0xdd, 0xdd, 0x7e,
        0x26,
    ];
    assert_eq!(interface_guid().bytes(), guid);
    let data = SP_DEVICE_INTERFACE_DATA::blank(interface_guid());
    assert_eq!(data.cbSize, 32);
    let bytes = data.bytes();
    assert_eq!(bytes[..4], [32, 0, 0, 0]);
    assert_eq!(bytes[4..20], guid);
    assert_eq!(bytes[20..], [0; 12]);
    let marked = SP_DEVICE_INTERFACE_DATA { Reserved: 0x0102_0304_0506_0708, ..data };
    assert_eq!(marked.bytes()[24..], [8, 7, 6, 5, 4, 3, 2, 1]);
}

#[test]
fn structures_are_read_from_their_bytes() {
    let descriptor = USB_INTERFACE_DESCRIPTOR::from_bytes(&[9, 4, 0, 0, 2, 255, 1, 2, 3]);
    assert_eq!(descriptor.bLength, 9);
    assert_eq!(descriptor.bNumEndpoints, 2);
    assert_eq!(descriptor.iInterface, 3);
    let raw = [3, 0, 0, 0, 0x81, 0xaa, 0x40, 0x01, 1, 0xbb, 0xbb, 0xbb];
    assert_eq!(
        WINUSB_PIPE_INFORMATION::from_bytes(&raw),
        WINUSB_PIPE_INFORMATION {
            PipeType: USBD_PIPE_TYPE_INTERRUPT,
            PipeId: 0x81,
            MaximumPacketSize: 320,
            Interval: 1,
        }
    );
    let mut odd = raw;
    odd[..4].copy_from_slice(&(-2i32).to_le_bytes());
    assert_eq!(WINUSB_PIPE_INFORMATION::from_bytes(&odd).PipeType, -2);
}

#[test]
fn error_names_the_call_and_code() {
    let error = WinError {
        call: "CreateFileW",
        code: ERROR_FILE_NOT_FOUND,
    };
    let text = error.text("The system cannot find the file specified.");
    assert!(text.starts_with("CreateFileW failed with error 2"), "{text}");
    assert_eq!(
        text,
        "CreateFileW failed with error 2: The system cannot find the file specified."
    );
}

#[test]
fn unknown_code_has_no_message() {
    let error = WinError {
        call: "X",
        code: 0xFFFF_FFF0,
    };
    assert_eq!(message(&[]), "");
    assert_eq!(error.text(""), "X failed with error 4294967280");
}

#[test]
fn wide_strings_end_in_zero() {
    assert_eq!(wide("ab"), vec![0x61, 0x62, 0]);
    assert_eq!(wide(""), vec![0]);
}

#[test]
fn wide_strings_hold_surrogate_pairs() {
    let text = "a\u{e9}\u{FFFF}\u{10000}\u{1F300}\u{10FFFF}";
    let mut expected: Vec<u16> = text.encode_utf16().collect();
    assert_eq!(spell(&expected), text);
    expected.push(0);
    assert_eq!(wide(text), expected);
}

#[test]
fn lone_surrogates_read_as_the_replacement_character() {
    for units in [
        vec![0xD800u16, 0x61],
        vec![0xDC00, 0xD800],
        vec![0x61, 0xD83C],
        vec![0xD83C, 0xD83C, 0xDF00],
        vec![0xDFFF, 0xE000, 0xD7FF],
    ] {
        assert_eq!(spell(&units), String::from_utf16_lossy(&units));
    }
}

#[test]
fn a_message_loses_the_white_space_at_its_end() {
    assert_eq!(message(&[0x20, 0x48, 0x69, 0x2E, 0x0D, 0x0A]), " Hi.");
    assert_eq!(message(&[0x0D, 0x0A, 0x20]), "");
}

#[test]
fn units_end_at_the_first_zero() {
    assert_eq!(until_zero(&[1, 2, 0, 3, 0]), vec![1, 2]);
    assert_eq!(until_zero(&[0, 1]), Vec::<u16>::new());
    assert_eq!(until_zero(&[1, 2]), vec![1, 2]);
}

#[test]
fn white_space_is_what_std_takes_off() {
    for code in 0..0x11_0000u32 {
        if let Some(c) = char::from_u32(code) {
            assert_eq!(lianli_wireless::text::space(c), c.is_whitespace(), "{code:x}");
        }
    }
    let text = "\u{a0}\t a b \u{3000}\n";
    let trimmed: String = trim(text).into_iter().collect();
    assert_eq!(trimmed, text.trim());
}

#[test]
fn numbers_addresses_and_lists_read_as_usual() {
    for n in [0u64, 7, 10, 99, 100, 4_294_967_280, u64::MAX] {
        assert_eq!(decimal(n), format!("{n}"));
    }
    assert_eq!(lianli_wireless::text::signed(-2_147_483_648), "-2147483648");
    assert_eq!(lianli_wireless::text::two_digits(7), "07");
    assert_eq!(lianli_wireless::text::two_digits(123), "123");
    assert_eq!(hex(0x0a), "0a");
    assert_eq!(hex(0xf5), "f5");
    assert_eq!(mac(&[0x7c, 0x9c, 0x06, 0xf5, 0x17, 0xe1]), "7c:9c:06:f5:17:e1");
    assert_eq!(list(&[]), format!("{:?}", Vec::<u8>::new()));
    assert_eq!(list(&[128]), "[128]");
    assert_eq!(list(&[128, 0, 7]), format!("{:?}", [128u8, 0, 7]));
}
