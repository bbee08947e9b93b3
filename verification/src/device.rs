//! One open dongle: what its pipes must be, how its timeouts are set, what
//! a read that ran out of time means.
//!
//! Both dongles present one interface with an OUT pipe at `0x01` and an
//! IN pipe at `0x81`. Whether a pipe is bulk or interrupt is read from the
//! descriptor rather than assumed.

use crate::text;
use crate::win::{
    WinError, ALLOW_PARTIAL_READS, AUTO_CLEAR_STALL, DWORD, ERROR_SEM_TIMEOUT,
    USBD_PIPE_TYPE_BULK, USBD_PIPE_TYPE_INTERRUPT, USB_INTERFACE_DESCRIPTOR,
    WINUSB_PIPE_INFORMATION,
};
use vstd::prelude::*;

verus! {

/// The pipe frames are written to.
pub const OUT_PIPE: u8 = 0x01;

/// The pipe replies are read from.
pub const IN_PIPE: u8 = 0x81;

/// Timeout for ordinary transfers, in nanoseconds.
pub const TIMEOUT: u128 = 5_000_000_000;

/// How long a flush waits for each stale frame, in nanoseconds.
pub const FLUSH_WAIT: u128 = 5_000_000;

/// What kind of transfer a pipe carries.
#[derive(Debug, Clone, Copy, PartialEq, Eq, Structural)]
pub enum Transfer {
    /// Bulk transfers.
    Bulk,
    /// Interrupt transfers, polled at the pipe's interval.
    Interrupt,
}

/// One endpoint as the descriptor describes it.
#[derive(Debug, Clone, Copy, PartialEq, Eq, Structural)]
pub struct Pipe {
    /// Endpoint address, with the direction bit.
    pub id: u8,
    /// Bulk or interrupt.
    pub transfer: Transfer,
    /// Largest packet the endpoint moves at once.
    pub max_packet: u16,
}

/// Why a device could not be opened.
#[derive(Debug, Clone, Copy, PartialEq, Eq)]
pub enum Error {
    /// A Windows call failed.
    Windows(WinError),
    /// The interface has no pipe with this address.
    NoPipe(u8),
    /// A pipe is neither bulk nor interrupt.
    PipeType(u8, i32),
}

impl Error {
    /// The error code of Windows in it, where there is one.
    pub open spec fn code_of(self) -> Option<u32> {
        match self {
            Error::Windows(error) => Some(error.code),
            _ => None,
        }
    }

    /// The error as text, where the system describes its code as `message`.
    pub open spec fn text_of(self, message: Seq<char>) -> Seq<char> {
        match self {
            Error::Windows(error) => error.text_of(message),
            Error::NoPipe(id) => "the device has no pipe 0x"@ + text::hex_of(id),
            Error::PipeType(id, kind) => "pipe 0x"@ + text::hex_of(id)
                + " has unusable transfer type "@ + text::signed_of(kind as int),
        }
    }

    /// The error code of Windows in it, where there is one.
    pub fn code(&self) -> (r: Option<u32>)
        ensures
            r == self.code_of(),
    {
        match self {
            Error::Windows(error) => Some(error.code),
            _ => None,
        }
    }

    /// The error as text, where the system describes its code as `message`.
    pub fn text(&self, message: &str) -> (r: String)
        ensures
            r@ == self.text_of(message@),
    {
        match self {
            Error::Windows(error) => error.text(message),
            Error::NoPipe(id) => text::owned("the device has no pipe 0x").concat(
                text::hex(*id).as_str(),
            ),
            Error::PipeType(id, kind) => text::owned("pipe 0x").concat(
                text::hex(*id).as_str(),
            ).concat(" has unusable transfer type ").concat(text::signed(*kind).as_str()),
        }
    }
}

/// A pipe from what Windows tells of it, unless it is neither bulk nor
/// interrupt.
pub open spec fn pipe_in(info: WINUSB_PIPE_INFORMATION) -> Result<Pipe, Error> {
    let of = |transfer: Transfer|
        Pipe { id: info.PipeId, transfer, max_packet: info.MaximumPacketSize };
    if info.PipeType == USBD_PIPE_TYPE_BULK {
        Ok(of(Transfer::Bulk))
    } else if info.PipeType == USBD_PIPE_TYPE_INTERRUPT {
        Ok(of(Transfer::Interrupt))
    } else {
        Err(Error::PipeType(info.PipeId, info.PipeType))
    }
}

/// A pipe from what Windows tells of it, unless it is neither bulk nor
/// interrupt.
pub fn pipe_from(info: &WINUSB_PIPE_INFORMATION) -> (r: Result<Pipe, Error>)
    ensures
        r == pipe_in(*info),
{
    let transfer = if info.PipeType == USBD_PIPE_TYPE_BULK {
        Transfer::Bulk
    } else if info.PipeType == USBD_PIPE_TYPE_INTERRUPT {
        Transfer::Interrupt
    } else {
        return Err(Error::PipeType(info.PipeId, info.PipeType));
    };
    Ok(Pipe { id: info.PipeId, transfer, max_packet: info.MaximumPacketSize })
}

/// The first pipe with an address.
pub open spec fn pipe_with(pipes: Seq<Pipe>, id: u8) -> Option<Pipe>
    decreases pipes.len(),
{
    if pipes.len() == 0 {
        None
    } else {
        match pipe_with(pipes.drop_last(), id) {
            Some(pipe) => Some(pipe),
            None => if pipes.last().id == id {
                Some(pipes.last())
            } else {
                None
            },
        }
    }
}

fn find_pipe(pipes: &[Pipe], id: u8) -> (r: Option<Pipe>)
    ensures
        r == pipe_with(pipes@, id),
{
    let mut found: Option<Pipe> = None;
    let mut i: usize = 0;
    assert(pipes@.take(0) =~= Seq::<Pipe>::empty());
    while i < pipes.len()
        invariant
            0 <= i <= pipes.len(),
            found == pipe_with(pipes@.take(i as int), id),
        decreases pipes.len() - i,
    {
        assert(pipes@.take(i + 1).drop_last() =~= pipes@.take(i as int));
        if found.is_none() && pipes[i].id == id {
            found = Some(pipes[i]);
        }
        i += 1;
    }
    assert(pipes@.take(i as int) =~= pipes@);
    found
}

/// The pipe frames go out on and the one replies come in on, the first with
/// each address.
pub open spec fn chosen_of(pipes: Seq<Pipe>) -> Result<(Pipe, Pipe), Error> {
    match (pipe_with(pipes, OUT_PIPE), pipe_with(pipes, IN_PIPE)) {
        (Some(out_pipe), Some(in_pipe)) => Ok((out_pipe, in_pipe)),
        (None, _) => Err(Error::NoPipe(OUT_PIPE)),
        (Some(_), None) => Err(Error::NoPipe(IN_PIPE)),
    }
}

/// The pipe frames go out on and the one replies come in on, the first with
/// each address.
pub fn choose_pipes(pipes: &[Pipe]) -> (r: Result<(Pipe, Pipe), Error>)
    ensures
        r == chosen_of(pipes@),
{
    let out_pipe = match find_pipe(pipes, OUT_PIPE) {
        Some(pipe) => pipe,
        None => {
            return Err(Error::NoPipe(OUT_PIPE));
        },
    };
    match find_pipe(pipes, IN_PIPE) {
        Some(in_pipe) => Ok((out_pipe, in_pipe)),
        None => Err(Error::NoPipe(IN_PIPE)),
    }
}

/// The policies set on the pipe that replies come in on, in their order,
/// before anything goes through it: a stall clears itself, and a read may
/// take a part of what arrived.
pub fn open_policies() -> (policies: [DWORD; 2])
    ensures
        policies@ == seq![AUTO_CLEAR_STALL, ALLOW_PARTIAL_READS],
{
    let policies = [AUTO_CLEAR_STALL, ALLOW_PARTIAL_READS];
    assert(policies@ =~= seq![AUTO_CLEAR_STALL, ALLOW_PARTIAL_READS]);
    policies
}

/// A device that is opened, while it is asked for its pipes one by one.
pub struct Setup {
    /// How many pipes it has.
    pub count: u8,
    /// The pipes it told of.
    pub pipes: Vec<Pipe>,
}

impl Setup {
    /// Whether no more pipes were told of than there are.
    pub open spec fn valid(&self) -> bool {
        self.pipes.len() <= self.count
    }

    /// A device whose interface is described and that told of no pipe yet.
    pub fn new(descriptor: &USB_INTERFACE_DESCRIPTOR) -> (setup: Self)
        ensures
            setup.count == descriptor.bNumEndpoints,
            setup.pipes@ == Seq::<Pipe>::empty(),
            setup.valid(),
    {
        Setup { count: descriptor.bNumEndpoints, pipes: Vec::new() }
    }

    /// Which pipe to ask for next, while there is one.
    pub fn next_pipe(&self) -> (index: Option<u8>)
        requires
            self.valid(),
        ensures
            index == if self.pipes@.len() < self.count {
                Some(self.pipes@.len() as u8)
            } else {
                None
            },
    {
        if self.pipes.len() < self.count as usize {
            Some(self.pipes.len() as u8)
        } else {
            None
        }
    }

    /// Takes in what the device told of that pipe. One that is neither bulk
    /// nor interrupt ends the opening.
    pub fn take(&mut self, info: &WINUSB_PIPE_INFORMATION) -> (r: Result<(), Error>)
        requires
            old(self).pipes@.len() < old(self).count,
        ensures
            final(self).valid(),
            final(self).count == old(self).count,
            match pipe_in(*info) {
                Ok(pipe) => r is Ok && final(self).pipes@ == old(self).pipes@.push(pipe),
                Err(error) => r == Err::<(), Error>(error) && final(self).pipes@
                    == old(self).pipes@,
            },
    {
        match pipe_from(info) {
            Ok(pipe) => {
                self.pipes.push(pipe);
                Ok(())
            },
            Err(error) => Err(error),
        }
    }

    /// The pipe frames go out on and the one replies come in on, once the
    /// device told of all.
    pub fn chosen(&self) -> (r: Result<(Pipe, Pipe), Error>)
        ensures
            r == chosen_of(self.pipes@),
    {
        choose_pipes(&self.pipes)
    }
}

/// A timeout in whole milliseconds: one at least, and no more than fits.
pub open spec fn millis_of(timeout: u128) -> u32 {
    let whole: int = timeout as int / 1_000_000;
    if whole < 1 {
        1
    } else if whole > u32::MAX {
        u32::MAX
    } else {
        whole as u32
    }
}

/// A timeout in whole milliseconds: one at least, and no more than fits.
pub fn timeout_millis(timeout: u128) -> (millis: u32)
    ensures
        millis == millis_of(timeout),
{
    let whole: u128 = timeout / 1_000_000;
    if whole < 1 {
        1
    } else if whole > u32::MAX as u128 {
        u32::MAX
    } else {
        whole as u32
    }
}

/// The milliseconds that a pipe's timeout must be set to before a transfer,
/// or `None` where `cached` says that they are set already.
pub fn timeout_to_set(cached: Option<u32>, timeout: u128) -> (r: Option<u32>)
    ensures
        r == if cached == Some(millis_of(timeout)) {
            None::<u32>
        } else {
            Some(millis_of(timeout))
        },
{
    let millis: u32 = timeout_millis(timeout);
    match cached {
        Some(set) if set == millis => None,
        _ => Some(millis),
    }
}

/// The timeouts that the two pipes are set to, where they are.
#[derive(Debug, Clone, Copy, PartialEq, Eq)]
pub struct Timeouts {
    /// Milliseconds a read may take.
    pub read: Option<u32>,
    /// Milliseconds a write may take.
    pub write: Option<u32>,
}

impl Timeouts {
    /// What a pipe is set to.
    pub open spec fn of(self, pipe: u8) -> Option<u32> {
        if pipe == IN_PIPE {
            self.read
        } else {
            self.write
        }
    }

    /// Neither pipe is set to anything yet.
    pub fn new() -> (timeouts: Self)
        ensures
            timeouts == (Timeouts { read: None, write: None }),
    {
        Timeouts { read: None, write: None }
    }

    /// The milliseconds that a pipe must be set to before a transfer within
    /// `timeout`, unless it is set to them already.
    pub fn to_set(&self, pipe: u8, timeout: u128) -> (r: Option<u32>)
        ensures
            r == if self.of(pipe) == Some(millis_of(timeout)) {
                None::<u32>
            } else {
                Some(millis_of(timeout))
            },
    {
        timeout_to_set(
            if pipe == IN_PIPE {
                self.read
            } else {
                self.write
            },
            timeout,
        )
    }

    /// Takes down that a pipe was set to `millis`.
    pub fn set(&mut self, pipe: u8, millis: u32)
        ensures
            *final(self) == if pipe == IN_PIPE {
                Timeouts { read: Some(millis), ..*old(self) }
            } else {
                Timeouts { write: Some(millis), ..*old(self) }
            },
    {
        if pipe == IN_PIPE {
            self.read = Some(millis);
        } else {
            self.write = Some(millis);
        }
    }
}

/// A timeout is set once and then left alone until another is wanted, on each
/// pipe for itself.
pub proof fn a_timeout_is_set_once(
    before: Timeouts,
    after: Timeouts,
    pipe: u8,
    other: u8,
    timeout: u128,
)
    requires
        after == if pipe == IN_PIPE {
            Timeouts { read: Some(millis_of(timeout)), ..before }
        } else {
            Timeouts { write: Some(millis_of(timeout)), ..before }
        },
    ensures
        after.of(pipe) == Some(millis_of(timeout)),
        (other == IN_PIPE) != (pipe == IN_PIPE) ==> after.of(other) == before.of(other),
{
}

/// What a read came to: one that ran out of time read nothing.
pub fn read_outcome(result: Result<usize, WinError>) -> (r: Result<usize, WinError>)
    ensures
        r == match result {
            Err(error) if error.code == ERROR_SEM_TIMEOUT => Ok::<usize, WinError>(0),
            other => other,
        },
{
    match result {
        Err(error) => if error.code == ERROR_SEM_TIMEOUT {
            Ok(0)
        } else {
            Err(error)
        },
        Ok(read) => Ok(read),
    }
}

} // verus!
