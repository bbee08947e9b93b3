//! Finding the two dongles among the devices Windows lists.
//!
//! Both dongles register the same device interface. They are told apart
//! by the product id in their device paths.

use crate::text;
use crate::win;
use crate::win::{
    WinError, DEVICE_INTERFACE_DETAIL_PATH_OFFSET, ERROR_INSUFFICIENT_BUFFER, ERROR_NO_MORE_ITEMS,
    GUID,
};
use vstd::prelude::*;

verus! {

/// USB vendor id of the dongles.
pub const VENDOR: u16 = 0x0416;

/// USB product id of the transmitter.
pub const TRANSMITTER: u16 = 0x8040;

/// USB product id of the receiver.
pub const RECEIVER: u16 = 0x8041;

/// The device interface both dongles register,
/// `{1D4B2365-4749-48EA-B38A-7C6FDDDD7E26}`.
pub fn interface_guid() -> (guid: GUID)
    ensures
        guid == (GUID {
            Data1: 0x1D4B_2365,
            Data2: 0x4749,
            Data3: 0x48EA,
            Data4: [0xB3, 0x8A, 0x7C, 0x6F, 0xDD, 0xDD, 0x7E, 0x26],
        }),
{
    GUID {
        Data1: 0x1D4B_2365,
        Data2: 0x4749,
        Data3: 0x48EA,
        Data4: [0xB3, 0x8A, 0x7C, 0x6F, 0xDD, 0xDD, 0x7E, 0x26],
    }
}

/// Which half of the dongle pair a device is.
#[derive(Debug, Clone, Copy, PartialEq, Eq, Structural)]
pub enum Role {
    /// Carries frames to the fans.
    Transmitter,
    /// Answers discovery requests.
    Receiver,
}

impl Role {
    /// The role's name.
    pub open spec fn text_of(self) -> Seq<char> {
        match self {
            Role::Transmitter => "transmitter"@,
            Role::Receiver => "receiver"@,
        }
    }

    /// The role's name.
    pub fn text(&self) -> (r: &'static str)
        ensures
            r@ == self.text_of(),
    {
        match self {
            Role::Transmitter => "transmitter",
            Role::Receiver => "receiver",
        }
    }
}

/// Device paths of the two dongles.
#[derive(Debug, Clone, PartialEq, Eq)]
pub struct Dongles {
    /// Path to open the transmitter.
    pub transmitter: String,
    /// Path to open the receiver.
    pub receiver: String,
}

/// Why the dongles could not be found.
#[derive(Debug, Clone, Copy, PartialEq, Eq)]
pub enum Error {
    /// Windows refused to list devices.
    Windows(WinError),
    /// No device with this role is attached.
    Missing(Role),
    /// More than one device with this role is attached.
    Several(Role, usize),
}

impl Error {
    /// The error code of Windows in it, where there is one.
    pub open spec fn code_of(self) -> Option<u32> {
        match self {
            Error::Windows(error) => Some(error.code),
            _ => None,
        }
    }

    /// The error as text, where the system describes its code as `message`.
    pub open spec fn text_of(self, message: Seq<char>) -> Seq<char> {
        match self {
            Error::Windows(error) => error.text_of(message),
            Error::Missing(role) => "no "@ + role.text_of() + " dongle is attached"@,
            Error::Several(role, count) => text::decimal_of(count as nat) + " "@ + role.text_of()
                + " dongles are attached"@,
        }
    }

    /// The error code of Windows in it, where there is one.
    pub fn code(&self) -> (r: Option<u32>)
        ensures
            r == self.code_of(),
    {
        match self {
            Error::Windows(error) => Some(error.code),
            _ => None,
        }
    }

    /// The error as text, where the system describes its code as `message`.
    pub fn text(&self, message: &str) -> (r: String)
        ensures
            r@ == self.text_of(message@),
    {
        match self {
            Error::Windows(error) => error.text(message),
            Error::Missing(role) => text::owned("no ").concat(role.text()).concat(
                " dongle is attached",
            ),
            Error::Several(role, count) => text::decimal(*count as u64).concat(" ").concat(
                role.text(),
            ).concat(" dongles are attached"),
        }
    }
}

/// Four hexadecimal digits.
pub open spec fn hex4_of(value: u16) -> Seq<char> {
    text::hex_of((value / 256) as u8) + text::hex_of((value % 256) as u8)
}

fn hex4(value: u16) -> (r: String)
    ensures
        r@ == hex4_of(value),
{
    text::hex((value / 256) as u8).concat(text::hex((value % 256) as u8).as_str())
}

/// What stands before the product id in a dongle's path.
pub open spec fn vendor_mark() -> Seq<char> {
    "vid_"@ + hex4_of(VENDOR) + "&pid_"@
}

/// The role that a device path names: in lower case, the four characters
/// behind the first vendor mark are the product id.
pub open spec fn role_of(path: Seq<char>) -> Option<Role> {
    let lower = text::lowered_of(path);
    match text::place_of(lower, vendor_mark(), 0) {
        None => None,
        Some(at) => {
            let rest = lower.skip(at + vendor_mark().len());
            if rest.len() < 4 {
                None
            } else if rest.take(4) == hex4_of(TRANSMITTER) {
                Some(Role::Transmitter)
            } else if rest.take(4) == hex4_of(RECEIVER) {
                Some(Role::Receiver)
            } else {
                None
            }
        },
    }
}

/// The role a device path names, from its vendor and product ids.
pub fn classify(path: &str) -> (role: Option<Role>)
    ensures
        role == role_of(path@),
{
    let lower = text::lowered(path);
    let mark = text::chars_of(
        text::owned("vid_").concat(hex4(VENDOR).as_str()).concat("&pid_").as_str(),
    );
    let at: usize = match text::place(&lower, &mark) {
        Some(at) => at,
        None => {
            return None;
        },
    };
    let start: usize = at + mark.len();
    if lower.len() - start < 4 {
        return None;
    }
    let product = vstd::slice::slice_subrange(&lower, start, start + 4);
    assert(product@ =~= lower@.skip(start as int).take(4));
    if text::same_chars(product, &text::chars_of(hex4(TRANSMITTER).as_str())) {
        Some(Role::Transmitter)
    } else if text::same_chars(product, &text::chars_of(hex4(RECEIVER).as_str())) {
        Some(Role::Receiver)
    } else {
        None
    }
}

/// The paths that name a role, in their order.
pub open spec fn with_role(paths: Seq<Seq<char>>, role: Role) -> Seq<Seq<char>> {
    paths.filter(|p: Seq<char>| role_of(p) == Some(role))
}

/// The one path that names a role.
pub open spec fn only_one(paths: Seq<Seq<char>>, role: Role) -> Result<Seq<char>, Error> {
    let matching = with_role(paths, role);
    if matching.len() == 0 {
        Err(Error::Missing(role))
    } else if matching.len() == 1 {
        Ok(matching[0])
    } else {
        Err(Error::Several(role, matching.len() as usize))
    }
}

/// The transmitter's and the receiver's path among `paths`.
pub open spec fn paired(paths: Seq<Seq<char>>) -> Result<(Seq<char>, Seq<char>), Error> {
    match only_one(paths, Role::Transmitter) {
        Err(error) => Err(error),
        Ok(transmitter) => match only_one(paths, Role::Receiver) {
            Err(error) => Err(error),
            Ok(receiver) => Ok((transmitter, receiver)),
        },
    }
}

fn one(paths: &[String], role: Role) -> (r: Result<String, Error>)
    ensures
        match r {
            Ok(path) => only_one(text::texts(paths@), role) == Ok::<Seq<char>, Error>(path@),
            Err(error) => only_one(text::texts(paths@), role) == Err::<Seq<char>, Error>(error),
        },
{
    let mut first: Option<String> = None;
    let mut count: usize = 0;
    let mut i: usize = 0;
    proof {
        reveal(Seq::filter);
        assert(text::texts(paths@).take(0) =~= Seq::<Seq<char>>::empty());
    }
    while i < paths.len()
        invariant
            0 <= i <= paths.len(),
            count <= i,
            count == with_role(text::texts(paths@).take(i as int), role).len(),
            count == 0 ==> first is None,
            count > 0 ==> (first matches Some(path) && path@ == with_role(
                text::texts(paths@).take(i as int),
                role,
            )[0]),
        decreases paths.len() - i,
    {
        proof {
            let next = text::texts(paths@).take(i + 1);
            assert(next.drop_last() =~= text::texts(paths@).take(i as int));
            reveal(Seq::filter);
        }
        let matches_role = match classify(paths[i].as_str()) {
            Some(found) => found == role,
            None => false,
        };
        if matches_role {
            if count == 0 {
                first = Some(paths[i].clone());
            }
            count += 1;
        }
        i += 1;
    }
    assert(text::texts(paths@).take(i as int) =~= text::texts(paths@));
    match first {
        None => Err(Error::Missing(role)),
        Some(path) => if count == 1 {
            Ok(path)
        } else {
            Err(Error::Several(role, count))
        },
    }
}

/// Picks the transmitter and receiver out of a list of device paths.
pub fn pair(paths: &[String]) -> (r: Result<Dongles, Error>)
    ensures
        match r {
            Ok(dongles) => paired(text::texts(paths@)) == Ok::<(Seq<char>, Seq<char>), Error>(
                (dongles.transmitter@, dongles.receiver@),
            ),
            Err(error) => paired(text::texts(paths@)) == Err::<(Seq<char>, Seq<char>), Error>(error),
        },
{
    let transmitter = match one(paths, Role::Transmitter) {
        Ok(path) => path,
        Err(error) => {
            return Err(error);
        },
    };
    let receiver = match one(paths, Role::Receiver) {
        Ok(path) => path,
        Err(error) => {
            return Err(error);
        },
    };
    Ok(Dongles { transmitter, receiver })
}

/// Finds the transmitter and receiver among the interfaces listed, where
/// listing them did not fail.
pub fn find(listed: Result<Vec<String>, WinError>) -> (r: Result<Dongles, Error>)
    ensures
        match listed {
            Err(error) => r == Err::<Dongles, Error>(Error::Windows(error)),
            Ok(paths) => match r {
                Ok(dongles) => paired(text::texts(paths@)) == Ok::<(Seq<char>, Seq<char>), Error>(
                    (dongles.transmitter@, dongles.receiver@),
                ),
                Err(error) => paired(text::texts(paths@)) == Err::<(Seq<char>, Seq<char>), Error>(
                    error,
                ),
            },
        },
{
    match listed {
        Ok(paths) => pair(&paths),
        Err(error) => Err(Error::Windows(error)),
    }
}

/// What the end of the walk through the interfaces means: running out of
/// them is none, anything else fails the listing.
pub fn walk_end(error: WinError) -> (r: Result<(), WinError>)
    ensures
        r == if error.code == ERROR_NO_MORE_ITEMS {
            Ok::<(), WinError>(())
        } else {
            Err(error)
        },
{
    if error.code == ERROR_NO_MORE_ITEMS {
        Ok(())
    } else {
        Err(error)
    }
}

/// What the answer to the question for a detail record's size means: the
/// buffer, of which there was none, must have been too small.
pub fn size_asked(error: WinError) -> (r: Result<(), WinError>)
    ensures
        r == if error.code == ERROR_INSUFFICIENT_BUFFER {
            Ok::<(), WinError>(())
        } else {
            Err(error)
        },
{
    if error.code != ERROR_INSUFFICIENT_BUFFER {
        Err(error)
    } else {
        Ok(())
    }
}

/// How many four-byte words hold a detail record of `required` bytes: two at
/// least.
pub fn detail_words(required: u32) -> (words: usize)
    ensures
        words == words_for(required),
{
    if required <= 8 {
        2
    } else {
        ((required as u64 + 3) / 4) as usize
    }
}

/// The little-endian units in `bytes`; an odd byte at the end is left out.
pub open spec fn units_in(bytes: Seq<u8>) -> Seq<u16> {
    Seq::new(bytes.len() / 2, |i: int| (bytes[2 * i] + bytes[2 * i + 1] * 256) as u16)
}

/// The path in a detail record: UTF-16 behind the first four bytes, up to a
/// zero.
pub fn detail_path(record: &[u8]) -> (path: String)
    requires
        record.len() >= DEVICE_INTERFACE_DETAIL_PATH_OFFSET,
    ensures
        path@ == path_in(record@),
{
    let count: usize = (record.len() - DEVICE_INTERFACE_DETAIL_PATH_OFFSET) / 2;
    let mut units: Vec<u16> = Vec::new();
    let mut i: usize = 0;
    while i < count
        invariant
            0 <= i <= count,
            count == (record.len() - 4) / 2,
            record.len() >= 4,
            units@ =~= units_in(record@.skip(4)).take(i as int),
        decreases count - i,
    {
        let at: usize = DEVICE_INTERFACE_DETAIL_PATH_OFFSET + 2 * i;
        units.push(record[at] as u16 + record[at + 1] as u16 * 256);
        i += 1;
    }
    assert(units@ =~= units_in(record@.skip(4)));
    text::spell(&win::until_zero(&units))
}

/// A walk through the interfaces that are present, one after the other.
pub struct Walk {
    /// Which interface is asked for next.
    pub index: u32,
    /// The paths of those found.
    pub paths: Vec<String>,
}

/// What a walk does next.
#[derive(Debug, Clone, Copy, PartialEq, Eq)]
pub enum Step {
    /// Asks whether there is an interface with this index.
    Find(u32),
    /// Asks how long the detail record of the one found is.
    Measure,
    /// Reads the detail record into this many four-byte words.
    Read(usize),
    /// Nothing: every interface is listed.
    Listed,
}

/// What came back of a step.
pub enum Event {
    /// There is an interface with the index.
    Found,
    /// There is none, or the question failed.
    NotFound(WinError),
    /// The record is this long, and the question left this error.
    Measured(u32, WinError),
    /// The record was read.
    Record(Vec<u8>),
    /// The record could not be read.
    Unread(WinError),
}

/// The path that a detail record holds.
pub open spec fn path_in(record: Seq<u8>) -> Seq<char> {
    text::spelled(win::before_zero(units_in(record.skip(4))), 0)
}

/// How many words hold a detail record.
pub open spec fn words_for(required: u32) -> int {
    if required <= 8 {
        2
    } else {
        (required + 3) / 4
    }
}

/// What a walk does after an event.
pub open spec fn step_after(index: u32, event: Event) -> Result<Step, WinError> {
    match event {
        Event::Found => Ok(Step::Measure),
        Event::NotFound(error) => if error.code == ERROR_NO_MORE_ITEMS {
            Ok(Step::Listed)
        } else {
            Err(error)
        },
        Event::Measured(required, error) => if error.code == ERROR_INSUFFICIENT_BUFFER {
            Ok(Step::Read(words_for(required) as usize))
        } else {
            Err(error)
        },
        Event::Record(_) => Ok(Step::Find((index + 1) as u32)),
        Event::Unread(error) => Err(error),
    }
}

impl Walk {
    /// A walk that has not begun: it starts by asking for the first
    /// interface.
    pub fn new() -> (walk: Self)
        ensures
            walk.index == 0,
            walk.paths@ == Seq::<String>::empty(),
    {
        Walk { index: 0, paths: Vec::new() }
    }

    /// What the walk does next, after `event`. A record that was read adds
    /// its path; running out of interfaces ends the walk, any other failure
    /// fails it.
    pub fn next(&mut self, event: Event) -> (r: Result<Step, WinError>)
        requires
            old(self).index < u32::MAX,
            event matches Event::Record(record) ==> record.len()
                >= DEVICE_INTERFACE_DETAIL_PATH_OFFSET,
        ensures
            r == step_after(old(self).index, event),
            match event {
                Event::Record(record) => final(self).index == old(self).index + 1 && text::texts(
                    final(self).paths@,
                ) == text::texts(old(self).paths@).push(path_in(record@)),
                _ => *final(self) == *old(self),
            },
    {
        match event {
            Event::Found => Ok(Step::Measure),
            Event::NotFound(error) => match walk_end(error) {
                Ok(_) => Ok(Step::Listed),
                Err(error) => Err(error),
            },
            Event::Measured(required, error) => match size_asked(error) {
                Ok(_) => Ok(Step::Read(detail_words(required))),
                Err(error) => Err(error),
            },
            Event::Record(record) => {
                self.paths.push(detail_path(&record));
                self.index = self.index + 1;
                assert(text::texts(self.paths@) =~= text::texts(old(self).paths@).push(
                    path_in(record@),
                ));
                Ok(Step::Find(self.index))
            },
            Event::Unread(error) => Err(error),
        }
    }
}

/// A pair is found if and only if each role is named exactly once.
pub proof fn a_pair_is_one_of_each(paths: Seq<Seq<char>>)
    ensures
        paired(paths) is Ok <==> with_role(paths, Role::Transmitter).len() == 1 && with_role(
            paths,
            Role::Receiver,
        ).len() == 1,
{
}

} // verus!
