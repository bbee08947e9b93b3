//! Scripted stand-ins for a port and for the dongle, for tests of anything
//! built on them.

use crate::bytes::array_at;
use crate::discovery::Reply;
use crate::dongle;
use crate::dongle::{Port, PortCall};
use crate::engine::Link;
use crate::frame::RfPayload;
use crate::model::LinkCall;
use crate::win::WinError;
use std::collections::VecDeque;
use vstd::prelude::*;

verus! {

/// What a scripted port serves to reads, in order.
pub type Reads = Vec<Result<Vec<u8>, WinError>>;

/// A scripted port. Reads serve what is waiting; a write records the
/// frame and queues the reads scripted for that write. An exhausted
/// queue reads as silence.
pub struct ScriptedPort {
    /// What waits to be read.
    pub waiting: VecDeque<Result<Vec<u8>, WinError>>,
    /// What each further write queues.
    pub per_write: VecDeque<Reads>,
    /// What every write returns in place of its frame's length.
    pub write_result: Option<Result<usize, WinError>>,
    /// The frames written.
    pub writes: Vec<Vec<u8>>,
    /// The timeouts reads were given.
    pub timeouts: Vec<u128>,
    /// The gaps waited.
    pub waits: Vec<u128>,
    /// The calls made, for proofs.
    pub calls: Ghost<Seq<PortCall>>,
}

fn queued<T>(items: Vec<T>) -> (queue: VecDeque<T>)
    ensures
        queue@ == items@,
{
    let mut items = items;
    let ghost all = items@;
    let mut queue: VecDeque<T> = VecDeque::new();
    while items.len() > 0
        invariant
            items@ + queue@ =~= all,
        decreases items.len(),
    {
        if let Some(item) = items.pop() {
            queue.push_front(item);
        }
    }
    queue
}

impl ScriptedPort {
    /// A port that serves `waiting` and takes every write, queueing for each
    /// what `per_write` holds for it.
    pub fn new(waiting: Reads, per_write: Vec<Reads>) -> (port: Self)
        ensures
            port.waiting@ == waiting@,
            port.per_write@ == per_write@,
            port.write_result is None,
            port.writes@.len() == 0,
            port.timeouts@.len() == 0,
            port.waits@.len() == 0,
            port.trace().len() == 0,
    {
        ScriptedPort {
            waiting: queued(waiting),
            per_write: queued(per_write),
            write_result: None,
            writes: Vec::new(),
            timeouts: Vec::new(),
            waits: Vec::new(),
            calls: Ghost(Seq::empty()),
        }
    }
}

impl Port for ScriptedPort {
    open spec fn trace(&self) -> Seq<PortCall> {
        self.calls@
    }

    fn write(&mut self, frame: &[u8], timeout: u128) -> (r: Result<usize, WinError>)
        ensures
            final(self).writes@.len() == old(self).writes@.len() + 1,
            final(self).writes@.last()@ == frame@,
            final(self).waiting@ == if old(self).per_write@.len() > 0 {
                old(self).per_write@[0]@
            } else {
                Seq::empty()
            },
            r == match old(self).write_result {
                Some(result) => result,
                None => Ok::<usize, WinError>(frame.len()),
            },
    {
        self.writes.push(vstd::slice::slice_to_vec(frame));
        self.waiting = match self.per_write.pop_front() {
            Some(reads) => queued(reads),
            None => VecDeque::new(),
        };
        let r: Result<usize, WinError> = match self.write_result {
            Some(result) => result,
            None => Ok(frame.len()),
        };
        self.calls = Ghost(self.calls@.push(PortCall::Write { frame: frame@, timeout, result: r }));
        r
    }

    fn read(&mut self, buffer: &mut [u8], timeout: u128) -> (r: Result<usize, WinError>)
        ensures
            final(self).timeouts@ == old(self).timeouts@.push(timeout),
            old(self).waiting@.len() == 0 ==> r == Ok::<usize, WinError>(0),
            old(self).waiting@.len() > 0 ==> (match old(self).waiting@[0] {
                Err(error) => r == Err::<usize, WinError>(error),
                Ok(bytes) => r matches Ok(n) && n == (if bytes@.len() <= old(buffer)@.len() {
                    bytes@.len()
                } else {
                    old(buffer)@.len()
                }) && final(buffer)@ == bytes@.take(n as int) + old(buffer)@.skip(n as int),
            }),
    {
        self.timeouts.push(timeout);
        let ghost blank = buffer@;
        let r: Result<usize, WinError> = match self.waiting.pop_front() {
            None => Ok(0),
            Some(Err(error)) => Err(error),
            Some(Ok(bytes)) => {
                let n: usize = if bytes.len() <= buffer.len() {
                    bytes.len()
                } else {
                    buffer.len()
                };
                let mut i: usize = 0;
                assert(buffer@ =~= bytes@.take(0) + blank.skip(0));
                while i < n
                    invariant
                        0 <= i <= n,
                        n <= bytes.len(),
                        n <= blank.len(),
                        buffer@ == bytes@.take(i as int) + blank.skip(i as int),
                    decreases n - i,
                {
                    buffer[i] = bytes[i];
                    i += 1;
                    assert(buffer@ =~= bytes@.take(i as int) + blank.skip(i as int));
                }
                Ok(n)
            },
        };
        self.calls = Ghost(self.calls@.push(PortCall::Read { buffer: buffer@, timeout, result: r }));
        r
    }

    fn wait(&mut self, gap: u128)
        ensures
            final(self).waits@ == old(self).waits@.push(gap),
    {
        self.waits.push(gap);
        self.calls = Ghost(self.calls@.push(PortCall::Wait { gap }));
    }
}

/// A payload that a scripted link was given to send.
#[derive(Debug, Clone, Copy, PartialEq, Eq)]
pub struct Sent {
    /// The channel it was to go out on.
    pub channel: u8,
    /// The receiver type addressed.
    pub receiver: u8,
    /// The command byte.
    pub command: u8,
    /// The duties of a speed command.
    pub duty: [u8; 4],
}

/// A scripted dongle. Polls serve the replies scripted, then the last one
/// again and again; reconnects come to what is scripted, then succeed.
pub struct ScriptedLink {
    /// The dongle's address.
    pub master: [u8; 6],
    /// The dongle's channel.
    pub channel: u8,
    /// What further polls come to.
    pub replies: VecDeque<Result<Reply, dongle::Error>>,
    /// What polls come to when nothing is scripted.
    pub last: Reply,
    /// The payloads sent.
    pub sent: Vec<Sent>,
    /// What every send comes to, where it fails.
    pub send_failure: Option<dongle::Error>,
    /// What further reconnects come to.
    pub reconnects: VecDeque<Result<(), dongle::Error>>,
    /// The reconnects asked for: whether each was to try every channel.
    pub reconnect_calls: Vec<bool>,
    /// Set by a failed reconnect, as the real dongle gives up its
    /// handles before trying to open again; cleared by a successful
    /// one. Every transfer fails meanwhile.
    pub closed: bool,
    /// What the system says of any error code.
    pub words: String,
    /// The calls made, for proofs.
    pub calls: Ghost<Seq<LinkCall>>,
}

/// Whether what was sent is recorded behind what was sent before.
pub open spec fn records(
    before: Seq<Sent>,
    after: Seq<Sent>,
    channel: u8,
    receiver: u8,
    payload: Seq<u8>,
) -> bool {
    &&& after.len() == before.len() + 1
    &&& after.drop_last() == before
    &&& after.last().channel == channel
    &&& after.last().receiver == receiver
    &&& after.last().command == payload[1]
    &&& after.last().duty@ == payload.subrange(17, 21)
}

/// Whether a poll came to a reply.
pub open spec fn serves(r: Result<Reply, dongle::Error>, reply: Reply) -> bool {
    r matches Ok(served) && served@ == reply@
}

impl ScriptedLink {
    /// A link to a dongle with an address, on a channel, whose polls serve
    /// `first`.
    pub fn new(master: [u8; 6], channel: u8, first: Reply) -> (link: Self)
        ensures
            link.master == master,
            link.channel == channel,
            link.replies@.len() == 0,
            link.last == first,
            link.sent@.len() == 0,
            link.send_failure is None,
            link.reconnects@.len() == 0,
            link.reconnect_calls@.len() == 0,
            !link.closed,
            link.words@.len() == 0,
            link.calls@.len() == 0,
    {
        ScriptedLink {
            master,
            channel,
            replies: VecDeque::new(),
            last: first,
            sent: Vec::new(),
            send_failure: None,
            reconnects: VecDeque::new(),
            reconnect_calls: Vec::new(),
            closed: false,
            words: String::new(),
            calls: Ghost(Seq::empty()),
        }
    }

    /// Scripts what one further poll comes to.
    pub fn serve(&mut self, reply: Result<Reply, dongle::Error>)
        ensures
            final(self).replies@ == old(self).replies@.push(reply),
            *final(self) == (ScriptedLink { replies: final(self).replies, ..*old(self) }),
    {
        self.replies.push_back(reply);
    }

    /// Scripts what one further reconnect comes to.
    pub fn serve_reconnect(&mut self, outcome: Result<(), dongle::Error>)
        ensures
            final(self).reconnects@ == old(self).reconnects@.push(outcome),
            *final(self) == (ScriptedLink { reconnects: final(self).reconnects, ..*old(self) }),
    {
        self.reconnects.push_back(outcome);
    }
}

impl Link for ScriptedLink {
    open spec fn trace(&self) -> Seq<LinkCall> {
        self.calls@
    }

    open spec fn master(&self) -> [u8; 6] {
        self.master
    }

    open spec fn on_channel(&self) -> u8 {
        self.channel
    }

    fn master_mac(&self) -> (r: [u8; 6]) {
        self.master
    }

    fn channel(&self) -> (r: u8) {
        self.channel
    }

    fn poll(&mut self) -> (r: Result<Reply, dongle::Error>)
        ensures
            final(self).replies@ == if old(self).replies@.len() > 0 {
                old(self).replies@.skip(1)
            } else {
                old(self).replies@
            },
            if old(self).closed {
                r == Err::<Reply, dongle::Error>(dongle::Error::Closed)
            } else if old(self).replies@.len() == 0 {
                serves(r, old(self).last) && final(self).last@ == old(self).last@
            } else {
                match old(self).replies@[0] {
                    Ok(reply) => serves(r, reply) && final(self).last@ == reply@,
                    Err(error) => r == Err::<Reply, dongle::Error>(error),
                }
            },
    {
        let next = self.replies.pop_front();
        let r: Result<Reply, dongle::Error> = if self.closed {
            Err(dongle::Error::Closed)
        } else {
            match next {
                None => Ok(self.last.copy()),
                Some(Ok(reply)) => {
                    self.last = reply.copy();
                    Ok(reply)
                },
                Some(Err(error)) => Err(error),
            }
        };
        self.calls = Ghost(self.calls@.push(LinkCall::Poll { result: dongle::as_state(r) }));
        r
    }

    fn send(&mut self, channel: u8, receiver: u8, payload: &RfPayload) -> (r: Result<
        (),
        dongle::Error,
    >)
        ensures
            r == if old(self).closed {
                Err::<(), dongle::Error>(dongle::Error::Closed)
            } else {
                match old(self).send_failure {
                    Some(error) => Err(error),
                    None => Ok(()),
                }
            },
            r is Ok ==> records(
                old(self).sent@,
                final(self).sent@,
                channel,
                receiver,
                payload@,
            ),
            r is Err ==> final(self).sent@ == old(self).sent@,
    {
        let r: Result<(), dongle::Error> = if self.closed {
            Err(dongle::Error::Closed)
        } else {
            match self.send_failure {
                Some(error) => Err(error),
                None => Ok(()),
            }
        };
        if r.is_ok() {
            self.sent.push(
                Sent { channel, receiver, command: payload[1], duty: array_at(payload, 17) },
            );
            assert(self.sent@.drop_last() =~= old(self).sent@);
        }
        self.calls = Ghost(
            self.calls@.push(LinkCall::Send { channel, receiver, payload: payload@, result: r }),
        );
        r
    }

    fn reconnect(&mut self, every_channel: bool) -> (r: Result<(), dongle::Error>)
        ensures
            final(self).reconnect_calls@ == old(self).reconnect_calls@.push(every_channel),
            final(self).closed == (r is Err),
            r == if old(self).reconnects@.len() > 0 {
                old(self).reconnects@[0]
            } else {
                Ok::<(), dongle::Error>(())
            },
    {
        self.reconnect_calls.push(every_channel);
        let r = match self.reconnects.pop_front() {
            Some(outcome) => outcome,
            None => Ok(()),
        };
        self.closed = r.is_err();
        self.calls = Ghost(
            self.calls@.push(
                LinkCall::Reconnect {
                    every_channel,
                    result: r,
                    master: self.master,
                    channel: self.channel,
                },
            ),
        );
        r
    }

    fn message(&mut self, code: u32) -> (r: String)
        ensures
            r@ == old(self).words@,
    {
        let r = self.words.clone();
        self.calls = Ghost(self.calls@.push(LinkCall::Message { code, text: r@ }));
        r
    }
}

} // verus!
