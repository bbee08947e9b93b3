//! What the library knows of Windows: error codes, flags and policies, the
//! records it reads, and text the way Windows writes it. The calls
//! themselves are made by the host.

#![allow(non_camel_case_types, non_snake_case)]

use crate::bytes;
use crate::bytes::{array_at, from_le32, le16_bytes, le32_bytes, put};
use crate::text;
use vstd::prelude::*;

verus! {

pub type DWORD = u32;

pub const ERROR_FILE_NOT_FOUND: DWORD = 2;

pub const ERROR_ACCESS_DENIED: DWORD = 5;

pub const ERROR_INVALID_HANDLE: DWORD = 6;

pub const ERROR_NO_MORE_FILES: DWORD = 18;

pub const ERROR_GEN_FAILURE: DWORD = 31;

pub const ERROR_SHARING_VIOLATION: DWORD = 32;

pub const ERROR_SEM_TIMEOUT: DWORD = 121;

pub const ERROR_INSUFFICIENT_BUFFER: DWORD = 122;

pub const ERROR_NO_MORE_ITEMS: DWORD = 259;

pub const ERROR_OPERATION_ABORTED: DWORD = 995;

pub const ERROR_DEVICE_NOT_CONNECTED: DWORD = 1167;

pub const ERROR_DEVICE_REMOVED: DWORD = 1617;

pub const GENERIC_READ: DWORD = 0x8000_0000;

pub const GENERIC_WRITE: DWORD = 0x4000_0000;

pub const FILE_SHARE_READ: DWORD = 0x0001;

pub const FILE_SHARE_WRITE: DWORD = 0x0002;

pub const OPEN_EXISTING: DWORD = 3;

pub const FILE_ATTRIBUTE_NORMAL: DWORD = 0x0080;

pub const FILE_FLAG_OVERLAPPED: DWORD = 0x4000_0000;

pub const FORMAT_MESSAGE_IGNORE_INSERTS: DWORD = 0x0000_0200;

pub const FORMAT_MESSAGE_FROM_SYSTEM: DWORD = 0x0000_1000;

pub const DIGCF_PRESENT: DWORD = 0x0000_0002;

pub const DIGCF_DEVICEINTERFACE: DWORD = 0x0000_0010;

/// WinUSB pipe policies, for `WinUsb_SetPipePolicy`.
pub const SHORT_PACKET_TERMINATE: DWORD = 0x01;

pub const AUTO_CLEAR_STALL: DWORD = 0x02;

pub const PIPE_TRANSFER_TIMEOUT: DWORD = 0x03;

pub const IGNORE_SHORT_PACKETS: DWORD = 0x04;

pub const ALLOW_PARTIAL_READS: DWORD = 0x05;

pub const AUTO_FLUSH: DWORD = 0x06;

pub const RAW_IO: DWORD = 0x07;

/// Pipe types in `WINUSB_PIPE_INFORMATION::PipeType`.
pub const USBD_PIPE_TYPE_CONTROL: i32 = 0;

pub const USBD_PIPE_TYPE_ISOCHRONOUS: i32 = 1;

pub const USBD_PIPE_TYPE_BULK: i32 = 2;

pub const USBD_PIPE_TYPE_INTERRUPT: i32 = 3;

/// Bit set in a pipe id for an IN (device to host) endpoint.
pub const ENDPOINT_DIRECTION_IN: u8 = 0x80;

/// `cbSize` of `SP_DEVICE_INTERFACE_DETAIL_DATA_W` on 64-bit Windows: the
/// `DWORD` plus one `WCHAR`, padded to the structure's alignment.
pub const DEVICE_INTERFACE_DETAIL_CB_SIZE: DWORD = 8;

/// Byte offset of `DevicePath` inside `SP_DEVICE_INTERFACE_DETAIL_DATA_W`.
pub const DEVICE_INTERFACE_DETAIL_PATH_OFFSET: usize = 4;

/// Bytes of a `GUID` as Windows lays it out.
pub const GUID_SIZE: usize = 16;

/// Bytes of an `SP_DEVICE_INTERFACE_DATA` on 64-bit Windows.
pub const DEVICE_INTERFACE_DATA_SIZE: usize = 32;

/// Bytes of a `USB_INTERFACE_DESCRIPTOR`.
pub const INTERFACE_DESCRIPTOR_SIZE: usize = 9;

/// Bytes of a `WINUSB_PIPE_INFORMATION`, with the padding behind its fields.
pub const PIPE_INFORMATION_SIZE: usize = 12;

/// The name of a device interface.
#[derive(Clone, Copy, PartialEq, Eq, Debug)]
pub struct GUID {
    pub Data1: u32,
    pub Data2: u16,
    pub Data3: u16,
    pub Data4: [u8; 8],
}

impl GUID {
    /// The bytes that Windows wants.
    pub open spec fn laid_out(self) -> Seq<u8> {
        bytes::le32(self.Data1) + bytes::le16(self.Data2) + bytes::le16(self.Data3) + self.Data4@
    }

    /// The bytes that Windows wants.
    pub fn bytes(&self) -> (r: [u8; GUID_SIZE])
        ensures
            r@ == self.laid_out(),
    {
        let mut r = [0u8; GUID_SIZE];
        put(&mut r, 0, &le32_bytes(self.Data1));
        put(&mut r, 4, &le16_bytes(self.Data2));
        put(&mut r, 6, &le16_bytes(self.Data3));
        put(&mut r, 8, &self.Data4);
        assert(r@ =~= self.laid_out());
        r
    }
}

/// One device interface of a list that is walked.
#[derive(Clone, Copy, PartialEq, Eq, Debug)]
pub struct SP_DEVICE_INTERFACE_DATA {
    pub cbSize: DWORD,
    pub InterfaceClassGuid: GUID,
    pub Flags: DWORD,
    pub Reserved: u64,
}

impl SP_DEVICE_INTERFACE_DATA {
    /// The record to be filled for an interface of a class.
    pub fn blank(class: GUID) -> (r: Self)
        ensures
            r == (SP_DEVICE_INTERFACE_DATA {
                cbSize: DEVICE_INTERFACE_DATA_SIZE as u32,
                InterfaceClassGuid: class,
                Flags: 0,
                Reserved: 0,
            }),
    {
        SP_DEVICE_INTERFACE_DATA {
            cbSize: DEVICE_INTERFACE_DATA_SIZE as u32,
            InterfaceClassGuid: class,
            Flags: 0,
            Reserved: 0,
        }
    }

    /// The bytes that Windows wants.
    pub open spec fn laid_out(self) -> Seq<u8> {
        bytes::le32(self.cbSize) + self.InterfaceClassGuid.laid_out() + bytes::le32(self.Flags)
            + bytes::le32((self.Reserved % 0x1_0000_0000) as u32) + bytes::le32(
            (self.Reserved / 0x1_0000_0000) as u32,
        )
    }

    /// The bytes that Windows wants.
    pub fn bytes(&self) -> (r: [u8; DEVICE_INTERFACE_DATA_SIZE])
        ensures
            r@ == self.laid_out(),
    {
        let mut r = [0u8; DEVICE_INTERFACE_DATA_SIZE];
        put(&mut r, 0, &le32_bytes(self.cbSize));
        put(&mut r, 4, &self.InterfaceClassGuid.bytes());
        put(&mut r, 20, &le32_bytes(self.Flags));
        put(&mut r, 24, &le32_bytes((self.Reserved % 0x1_0000_0000) as u32));
        put(&mut r, 28, &le32_bytes((self.Reserved / 0x1_0000_0000) as u32));
        assert(r@ =~= self.laid_out());
        r
    }
}

/// What a device tells of its interface.
#[derive(Clone, Copy, PartialEq, Eq, Debug)]
pub struct USB_INTERFACE_DESCRIPTOR {
    pub bLength: u8,
    pub bDescriptorType: u8,
    pub bInterfaceNumber: u8,
    pub bAlternateSetting: u8,
    pub bNumEndpoints: u8,
    pub bInterfaceClass: u8,
    pub bInterfaceSubClass: u8,
    pub bInterfaceProtocol: u8,
    pub iInterface: u8,
}

impl USB_INTERFACE_DESCRIPTOR {
    /// Reads a descriptor out of its bytes.
    pub fn from_bytes(raw: &[u8; INTERFACE_DESCRIPTOR_SIZE]) -> (r: Self)
        ensures
            raw@ == seq![
                r.bLength,
                r.bDescriptorType,
                r.bInterfaceNumber,
                r.bAlternateSetting,
                r.bNumEndpoints,
                r.bInterfaceClass,
                r.bInterfaceSubClass,
                r.bInterfaceProtocol,
                r.iInterface,
            ],
    {
        USB_INTERFACE_DESCRIPTOR {
            bLength: raw[0],
            bDescriptorType: raw[1],
            bInterfaceNumber: raw[2],
            bAlternateSetting: raw[3],
            bNumEndpoints: raw[4],
            bInterfaceClass: raw[5],
            bInterfaceSubClass: raw[6],
            bInterfaceProtocol: raw[7],
            iInterface: raw[8],
        }
    }
}

/// What Windows tells of one pipe of a device.
#[derive(Clone, Copy, PartialEq, Eq, Debug)]
pub struct WINUSB_PIPE_INFORMATION {
    pub PipeType: i32,
    pub PipeId: u8,
    pub MaximumPacketSize: u16,
    pub Interval: u8,
}

/// A number whose topmost bit is its sign.
pub open spec fn signed_of(n: u32) -> i32 {
    if n < 0x8000_0000 {
        n as i32
    } else {
        (n - 0x1_0000_0000) as i32
    }
}

impl WINUSB_PIPE_INFORMATION {
    /// What the bytes tell of a pipe: its kind in four, its address behind
    /// them, its packet size from the seventh on, its interval behind that.
    pub open spec fn told_in(raw: Seq<u8>) -> WINUSB_PIPE_INFORMATION {
        WINUSB_PIPE_INFORMATION {
            PipeType: signed_of(bytes::in_le32(raw.take(4))),
            PipeId: raw[4],
            MaximumPacketSize: bytes::in_le16(raw[6], raw[7]),
            Interval: raw[8],
        }
    }

    /// Reads what Windows tells of a pipe out of its bytes.
    pub fn from_bytes(raw: &[u8; PIPE_INFORMATION_SIZE]) -> (r: Self)
        ensures
            r == WINUSB_PIPE_INFORMATION::told_in(raw@),
    {
        let head: [u8; 4] = array_at(raw, 0);
        assert(head@ =~= raw@.take(4));
        let kind: u32 = from_le32(&head);
        WINUSB_PIPE_INFORMATION {
            PipeType: if kind < 0x8000_0000 {
                kind as i32
            } else {
                (kind as i64 - 0x1_0000_0000) as i32
            },
            PipeId: raw[4],
            MaximumPacketSize: raw[7] as u16 * 256 + raw[6] as u16,
            Interval: raw[8],
        }
    }
}

/// A failed Win32 call: which one, and the error code it left.
#[derive(Debug, Clone, Copy, PartialEq, Eq)]
pub struct WinError {
    /// Name of the call that failed.
    pub call: &'static str,
    /// The error code from `GetLastError`.
    pub code: DWORD,
}

impl WinError {
    /// The error as text, where the system describes its code as `message`.
    pub open spec fn text_of(self, message: Seq<char>) -> Seq<char> {
        let plain = self.call@ + " failed with error "@ + text::decimal_of(self.code as nat);
        if message.len() == 0 {
            plain
        } else {
            plain + ": "@ + message
        }
    }

    /// The error as text: the call and the code, then the system's
    /// description of the code, unless that is empty.
    pub fn text(&self, message: &str) -> (r: String)
        ensures
            r@ == self.text_of(message@),
    {
        let mut r = text::owned(self.call);
        r.append(" failed with error ");
        r.append(text::decimal(self.code as u64).as_str());
        let chars = text::chars_of(message);
        if chars.len() > 0 {
            r.append(": ");
            r.append(message);
        }
        r
    }
}

/// The system's description of an error code, from the units it wrote: the
/// white space at the end is taken off.
pub fn message(units: &[u16]) -> (r: String)
    ensures
        r@ == text::trimmed_end(text::spelled(units@, 0)),
{
    let written = text::spell(units);
    let mut chars = text::chars_of(written.as_str());
    text::trim_end(&mut chars);
    text::text_of(&chars)
}

/// A string as Windows wants it: UTF-16 with a terminating zero.
pub fn wide(text: &str) -> (units: Vec<u16>)
    ensures
        units@ == text::utf16_of(text@).push(0),
{
    let mut units = text::utf16(text);
    units.push(0);
    units
}

/// The units before the first zero, or all of them where there is none.
pub open spec fn before_zero(units: Seq<u16>) -> Seq<u16>
    decreases units.len(),
{
    if units.len() == 0 {
        units
    } else {
        let front = before_zero(units.drop_last());
        if front.len() < units.len() - 1 || units.last() == 0 {
            front
        } else {
            units
        }
    }
}

/// What stands in `units` before the first zero.
pub fn until_zero(units: &[u16]) -> (r: Vec<u16>)
    ensures
        r@ == before_zero(units@),
{
    let mut r: Vec<u16> = Vec::new();
    let mut i: usize = 0;
    while i < units.len() && units[i] != 0
        invariant
            0 <= i <= units.len(),
            r@ =~= units@.take(i as int),
            before_zero(units@.take(i as int)) == units@.take(i as int),
        decreases units.len() - i,
    {
        r.push(units[i]);
        assert(units@.take(i + 1).drop_last() =~= units@.take(i as int));
        i += 1;
    }
    proof {
        if i < units.len() {
            zero_ends(units@, i as int);
        } else {
            assert(units@.take(i as int) =~= units@);
        }
    }
    r
}

/// A zero behind units without one ends them.
proof fn zero_ends(units: Seq<u16>, at: int)
    requires
        0 <= at < units.len(),
        units[at] == 0,
        before_zero(units.take(at)) == units.take(at),
    ensures
        before_zero(units) == units.take(at),
    decreases units.len(),
{
    if at == units.len() - 1 {
        assert(units.drop_last() =~= units.take(at));
    } else {
        assert(units.drop_last().take(at) =~= units.take(at));
        zero_ends(units.drop_last(), at);
    }
}

/// The part before the first zero holds none, and the unit behind it, where
/// there is one, is zero.
pub proof fn zero_free_before_the_first_zero(units: Seq<u16>)
    ensures
        before_zero(units).is_prefix_of(units),
        !before_zero(units).contains(0u16),
        before_zero(units).len() < units.len() ==> units[before_zero(units).len() as int] == 0,
    decreases units.len(),
{
    if units.len() > 0 {
        let front = units.drop_last();
        zero_free_before_the_first_zero(front);
        let kept = before_zero(front);
        if kept.len() < front.len() {
            assert(front[kept.len() as int] == 0);
        } else {
            assert(kept =~= front);
            if units.last() != 0 {
                assert forall|i: int| 0 <= i < units.len() implies units[i] != 0 by {
                    if i < front.len() {
                        assert(kept[i] == units[i]);
                        assert(kept.contains(kept[i]));
                    }
                }
            }
        }
    }
}

} // verus!
