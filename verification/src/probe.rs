//! The command-line diagnostic: what its arguments mean, what it prints, and
//! what it decides between two calls on the dongle.

use crate::address;
use crate::bytes;
use crate::bytes::is_zero;
use crate::discovery::{Device, Master, Reply, ReplyState, FANS_PER_GROUP};
use crate::engine::Snapshot;
use crate::groups;
use crate::groups::Group;
use crate::heartbeat::Clock;
use crate::lists;
use crate::model;
use crate::model::{GroupState, SnapshotState};
use crate::process::LCONNECT_SERVICE;
use crate::speed;
use crate::text;
use crate::time::SECOND;
use vstd::prelude::*;

verus! {

/// Polls of a discovery where none are asked for.
pub const DEFAULT_POLLS: u32 = 5;

/// Seconds a duty is held where none are asked for.
pub const DEFAULT_HOLD: u64 = 10;

/// Minutes a run lasts where none are asked for.
pub const DEFAULT_RUN_MINUTES: u64 = 60;

/// Seconds between status lines where none are asked for.
pub const DEFAULT_STATUS_EVERY: u64 = 10;

/// Gap between polls.
pub const POLL_GAP: u128 = 1_000_000_000;

/// Gap between polls while an acknowledgement is awaited.
pub const ACK_POLL_GAP: u128 = 250_000_000;

/// How long an acknowledgement is awaited.
pub const ACK_LIMIT: u128 = 5_000_000_000;

/// How long the engine's first tick is awaited.
pub const FIRST_TICK_LIMIT: u128 = 10_000_000_000;

/// A text in quotes, in a sentence.
pub open spec fn quoted(before: Seq<char>, value: Seq<char>, after: Seq<char>) -> Seq<char> {
    before + "'"@ + value + "'"@ + after
}

fn quote(before: &str, value: &str, after: &str) -> (r: String)
    ensures
        r@ == quoted(before@, value@, after@),
{
    text::owned(before).concat("'").concat(value).concat("'").concat(after)
}

/// What a refusal to share the dongle says, where the L-Connect service
/// runs.
pub fn refusal(service_runs: bool) -> (r: Option<String>)
    ensures
        r is Some <==> service_runs,
        r matches Some(text) ==> text@ == LCONNECT_SERVICE@
            + " is running and owns the dongle; stop it first"@,
{
    if service_runs {
        Some(
            text::owned(LCONNECT_SERVICE).concat(" is running and owns the dongle; stop it first"),
        )
    } else {
        None
    }
}

/// What is asked of a discovery.
#[derive(Debug, Clone, Copy, PartialEq, Eq)]
pub struct DiscoverOptions {
    /// How many polls.
    pub polls: u32,
    /// Whether to run beside the L-Connect service.
    pub share: bool,
}

/// What the arguments of a discovery ask for, on top of `options`.
pub open spec fn discover_of(args: Seq<Seq<char>>, options: DiscoverOptions) -> Result<
    DiscoverOptions,
    Seq<char>,
>
    decreases args.len(),
{
    if args.len() == 0 {
        Ok(options)
    } else if args[0] == "--share"@ {
        discover_of(args.skip(1), DiscoverOptions { share: true, ..options })
    } else if args[0] == "--polls"@ {
        if args.len() < 2 {
            Err("--polls needs a number"@)
        } else {
            match text::number_of(args[1], u32::MAX as int) {
                Some(n) => if n > 0 {
                    discover_of(args.skip(2), DiscoverOptions { polls: n as u32, ..options })
                } else {
                    Err(quoted("--polls: "@, args[1], " is not a positive number"@))
                },
                None => Err(quoted("--polls: "@, args[1], " is not a positive number"@)),
            }
        }
    } else {
        Err(quoted("unknown option "@, args[0], ""@))
    }
}

/// A result whose error is a text, as a value.
pub open spec fn told<T>(r: Result<T, String>) -> Result<T, Seq<char>> {
    match r {
        Ok(value) => Ok(value),
        Err(message) => Err(message@),
    }
}

/// Reads the arguments of a discovery.
pub fn parse_discover(args: &[String]) -> (r: Result<DiscoverOptions, String>)
    ensures
        told(r) == discover_of(
            text::texts(args@),
            (DiscoverOptions { polls: DEFAULT_POLLS, share: false }),
        ),
{
    let mut options = DiscoverOptions { polls: DEFAULT_POLLS, share: false };
    let ghost start = options;
    let ghost all = text::texts(args@);
    let mut i: usize = 0;
    assert(all.skip(0) =~= all);
    while i < args.len()
        invariant
            0 <= i <= args.len(),
            all == text::texts(args@),
            start == (DiscoverOptions { polls: DEFAULT_POLLS, share: false }),
            discover_of(all, start) == discover_of(all.skip(i as int), options),
        decreases args.len() - i,
    {
        let arg = args[i].as_str();
        proof {
            assert(all.skip(i as int)[0] == arg@);
            assert(all.skip(i as int).skip(1) =~= all.skip(i + 1));
        }
        if text::same(arg, "--share") {
            options.share = true;
            i += 1;
        } else if text::same(arg, "--polls") {
            if i + 1 >= args.len() {
                return Err(text::owned("--polls needs a number"));
            }
            let value = args[i + 1].as_str();
            proof {
                assert(all.skip(i as int)[1] == value@);
                assert(all.skip(i as int).skip(2) =~= all.skip(i + 2));
            }
            match text::number(value, u32::MAX as u64) {
                Some(n) if n > 0 => {
                    options.polls = n as u32;
                },
                _ => {
                    return Err(quote("--polls: ", value, " is not a positive number"));
                },
            }
            i += 2;
        } else {
            return Err(quote("unknown option ", arg, ""));
        }
    }
    Ok(options)
}

/// What is asked of a set.
#[derive(Debug, Clone, PartialEq, Eq)]
pub struct SetOptions {
    /// The start of the group's address.
    pub group: String,
    /// The percentage.
    pub percent: u8,
    /// How long to hold it, in nanoseconds.
    pub hold: u128,
}

/// What is asked of a set, as a value.
#[verifier::ext_equal]
pub struct SetState {
    pub group: Seq<char>,
    pub percent: u8,
    pub hold: u128,
}

impl View for SetOptions {
    type V = SetState;

    open spec fn view(&self) -> SetState {
        SetState { group: self.group@, percent: self.percent, hold: self.hold }
    }
}

/// What the arguments of a set ask for: a group, a percentage, and for how
/// many seconds.
pub open spec fn set_of(args: Seq<Seq<char>>) -> Result<SetState, Seq<char>> {
    if args.len() < 1 {
        Err("set needs a group address prefix"@)
    } else if args.len() < 2 {
        Err("set needs a percent"@)
    } else {
        match text::number_of(args[1], 100) {
            None => Err(quoted(""@, args[1], " is not a percent from 0 to 100"@)),
            Some(percent) => {
                let hold = if args.len() < 3 {
                    Some(DEFAULT_HOLD as int)
                } else {
                    text::number_of(args[2], u64::MAX as int)
                };
                if hold is None || hold->0 == 0 {
                    Err(quoted(""@, args[2], " is not a positive number of seconds"@))
                } else if args.len() > 3 {
                    Err(quoted("unexpected argument "@, args[3], ""@))
                } else {
                    Ok(
                        SetState {
                            group: text::lowered_of(args[0]),
                            percent: percent as u8,
                            hold: (hold->0 * SECOND) as u128,
                        },
                    )
                }
            },
        }
    }
}

/// Reads the arguments of a set.
pub fn parse_set(args: &[String]) -> (r: Result<SetOptions, String>)
    ensures
        match r {
            Ok(options) => set_of(text::texts(args@)) == Ok::<SetState, Seq<char>>(options@),
            Err(message) => set_of(text::texts(args@)) == Err::<SetState, Seq<char>>(message@),
        },
{
    let ghost all = text::texts(args@);
    if args.len() < 1 {
        return Err(text::owned("set needs a group address prefix"));
    }
    if args.len() < 2 {
        return Err(text::owned("set needs a percent"));
    }
    assert(all[0] == args@[0]@ && all[1] == args@[1]@);
    let percent: u8 = match text::number(args[1].as_str(), 100) {
        Some(percent) => percent as u8,
        None => {
            return Err(quote("", args[1].as_str(), " is not a percent from 0 to 100"));
        },
    };
    let hold: u64 = if args.len() < 3 {
        DEFAULT_HOLD
    } else {
        assert(all[2] == args@[2]@);
        match text::number(args[2].as_str(), u64::MAX) {
            Some(seconds) if seconds > 0 => seconds,
            _ => {
                return Err(quote("", args[2].as_str(), " is not a positive number of seconds"));
            },
        }
    };
    if args.len() > 3 {
        assert(all[3] == args@[3]@);
        return Err(quote("unexpected argument ", args[3].as_str(), ""));
    }
    let options = SetOptions {
        group: text::text_of(&text::lowered(args[0].as_str())),
        percent,
        hold: hold as u128 * SECOND,
    };
    assert(set_of(all) is Ok);
    assert(options@ =~= set_of(all)->Ok_0);
    Ok(options)
}

/// A group and the percentage asked of it, from `<group>=<percent>`.
pub open spec fn assignment_of(text: Seq<char>) -> Result<(Seq<char>, u8), Seq<char>> {
    match text::place_of(text, seq!['='], 0) {
        None => Err(quoted(""@, text, " is not <group>=<percent>"@)),
        Some(at) => match text::number_of(text.skip(at + 1), 100) {
            Some(percent) => Ok((text::lowered_of(text.take(at)), percent as u8)),
            None => Err(quoted(""@, text.skip(at + 1), " is not a percent from 0 to 100"@)),
        },
    }
}

/// What stands before and behind the first `mark` in a text.
fn split_once(text: &str, mark: char) -> (r: Option<(String, String)>)
    ensures
        match r {
            Some((front, rest)) => text::place_of(text@, seq![mark], 0) matches Some(at) && front@
                == text@.take(at) && rest@ == text@.skip(at + 1),
            None => text::place_of(text@, seq![mark], 0) is None,
        },
{
    let chars = text::chars_of(text);
    let marks = [mark];
    assert(marks@ =~= seq![mark]);
    match text::place(&chars, &marks) {
        Some(at) => {
            let front = vstd::slice::slice_subrange(&chars, 0, at);
            let rest = vstd::slice::slice_subrange(&chars, at + 1, chars.len());
            assert(front@ =~= text@.take(at as int));
            assert(rest@ =~= text@.skip(at + 1));
            Some((text::text_of(front), text::text_of(rest)))
        },
        None => None,
    }
}

/// Reads a `<group>=<percent>`.
pub fn parse_assignment(text: &str) -> (r: Result<(String, u8), String>)
    ensures
        match r {
            Ok((group, percent)) => assignment_of(text@) == Ok::<(Seq<char>, u8), Seq<char>>(
                (group@, percent),
            ),
            Err(message) => assignment_of(text@) == Err::<(Seq<char>, u8), Seq<char>>(message@),
        },
{
    let (group, percent) = match split_once(text, '=') {
        Some(parts) => parts,
        None => {
            return Err(quote("", text, " is not <group>=<percent>"));
        },
    };
    match text::number(percent.as_str(), 100) {
        Some(n) => Ok((text::text_of(&text::lowered(group.as_str())), n as u8)),
        None => Err(quote("", percent.as_str(), " is not a percent from 0 to 100")),
    }
}

/// What is asked of a run.
#[derive(Debug, Clone, PartialEq, Eq)]
pub struct RunOptions {
    /// How long it lasts, in nanoseconds.
    pub length: u128,
    /// How long between status lines, in nanoseconds.
    pub every: u128,
    /// The percentages asked of groups at the start.
    pub initial: Vec<(String, u8)>,
    /// Whether the last targets stay in place afterwards.
    pub leave: bool,
}

/// What is asked of a run, as a value.
#[verifier::ext_equal]
pub struct RunState {
    pub length: u128,
    pub every: u128,
    pub initial: Seq<(Seq<char>, u8)>,
    pub leave: bool,
}

impl View for RunOptions {
    type V = RunState;

    open spec fn view(&self) -> RunState {
        RunState {
            length: self.length,
            every: self.every,
            initial: self.initial@.map_values(|a: (String, u8)| (a.0@, a.1)),
            leave: self.leave,
        }
    }
}

/// What a run does where nothing is asked for.
pub open spec fn usual_run() -> RunState {
    RunState {
        length: (DEFAULT_RUN_MINUTES * 60 * SECOND) as u128,
        every: (DEFAULT_STATUS_EVERY * SECOND) as u128,
        initial: Seq::empty(),
        leave: false,
    }
}

/// What the arguments of a run ask for, on top of `options`. The minutes may
/// be given once.
pub open spec fn run_of(args: Seq<Seq<char>>, options: RunState, minutes_given: bool) -> Result<
    RunState,
    Seq<char>,
>
    decreases args.len(),
{
    if args.len() == 0 {
        Ok(options)
    } else if args[0] == "--leave"@ {
        run_of(args.skip(1), RunState { leave: true, ..options }, minutes_given)
    } else if args[0] == "--every"@ {
        if args.len() < 2 {
            Err("--every needs a number of seconds"@)
        } else {
            match text::number_of(args[1], u64::MAX as int) {
                Some(n) => if n > 0 {
                    run_of(
                        args.skip(2),
                        RunState { every: (n * SECOND) as u128, ..options },
                        minutes_given,
                    )
                } else {
                    Err(quoted("--every: "@, args[1], " is not a positive number"@))
                },
                None => Err(quoted("--every: "@, args[1], " is not a positive number"@)),
            }
        }
    } else if args[0] == "--set"@ {
        if args.len() < 2 {
            Err("--set needs <group>=<percent>"@)
        } else {
            match assignment_of(args[1]) {
                Ok(assignment) => run_of(
                    args.skip(2),
                    RunState { initial: options.initial.push(assignment), ..options },
                    minutes_given,
                ),
                Err(message) => Err(message),
            }
        }
    } else if !minutes_given && !"--"@.is_prefix_of(args[0]) {
        match text::number_of(args[0], u64::MAX as int) {
            Some(n) => if n > 0 {
                run_of(
                    args.skip(1),
                    RunState { length: (n * 60 * SECOND) as u128, ..options },
                    true,
                )
            } else {
                Err(quoted(""@, args[0], " is not a positive number of minutes"@))
            },
            None => Err(quoted(""@, args[0], " is not a positive number of minutes"@)),
        }
    } else {
        Err(quoted("unexpected argument "@, args[0], ""@))
    }
}

/// Reads the arguments of a run.
pub fn parse_run(args: &[String]) -> (r: Result<RunOptions, String>)
    ensures
        match r {
            Ok(options) => run_of(text::texts(args@), usual_run(), false) == Ok::<
                RunState,
                Seq<char>,
            >(options@),
            Err(message) => run_of(text::texts(args@), usual_run(), false) == Err::<
                RunState,
                Seq<char>,
            >(message@),
        },
{
    let mut options = RunOptions {
        length: DEFAULT_RUN_MINUTES as u128 * 60 * SECOND,
        every: DEFAULT_STATUS_EVERY as u128 * SECOND,
        initial: Vec::new(),
        leave: false,
    };
    let mut minutes_given = false;
    let ghost all = text::texts(args@);
    let mut i: usize = 0;
    proof {
        assert(options@ =~= usual_run());
        assert(all.skip(0) =~= all);
    }
    while i < args.len()
        invariant
            0 <= i <= args.len(),
            all == text::texts(args@),
            run_of(all, usual_run(), false) == run_of(all.skip(i as int), options@, minutes_given),
        decreases args.len() - i,
    {
        let ghost before = options@;
        let arg = args[i].as_str();
        proof {
            assert(all.skip(i as int)[0] == arg@);
            assert(all.skip(i as int).skip(1) =~= all.skip(i + 1));
            if i + 1 < args.len() {
                assert(all.skip(i as int)[1] == args@[i + 1]@);
                assert(all.skip(i as int).skip(2) =~= all.skip(i + 2));
            }
        }
        if text::same(arg, "--leave") {
            options.leave = true;
            assert(options@ =~= (RunState { leave: true, ..before }));
            i += 1;
        } else if text::same(arg, "--every") {
            if i + 1 >= args.len() {
                return Err(text::owned("--every needs a number of seconds"));
            }
            match text::number(args[i + 1].as_str(), u64::MAX) {
                Some(n) if n > 0 => {
                    options.every = n as u128 * SECOND;
                    assert(options@ =~= (RunState { every: (n * SECOND) as u128, ..before }));
                },
                _ => {
                    return Err(
                        quote("--every: ", args[i + 1].as_str(), " is not a positive number"),
                    );
                },
            }
            i += 2;
        } else if text::same(arg, "--set") {
            if i + 1 >= args.len() {
                return Err(text::owned("--set needs <group>=<percent>"));
            }
            match parse_assignment(args[i + 1].as_str()) {
                Ok(assignment) => {
                    let ghost added = (assignment.0@, assignment.1);
                    options.initial.push(assignment);
                    assert(options@ =~= (RunState {
                        initial: before.initial.push(added),
                        ..before
                    }));
                },
                Err(message) => {
                    return Err(message);
                },
            }
            i += 2;
        } else if !minutes_given && !text::starts_with(arg, "--") {
            match text::number(arg, u64::MAX) {
                Some(n) if n > 0 => {
                    options.length = n as u128 * 60 * SECOND;
                    assert(options@ =~= (RunState { length: (n * 60 * SECOND) as u128, ..before }));
                },
                _ => {
                    return Err(quote("", arg, " is not a positive number of minutes"));
                },
            }
            minutes_given = true;
            i += 1;
        } else {
            return Err(quote("unexpected argument ", arg, ""));
        }
    }
    Ok(options)
}

/// The time of day, such as `07:05:09`.
pub open spec fn stamp_of(clock: Clock) -> Seq<char> {
    text::two_digits_of(clock.hour as nat) + ":"@ + text::two_digits_of(clock.minute as nat) + ":"@
        + text::two_digits_of(clock.second as nat)
}

/// The time of day, such as `07:05:09`.
pub fn stamp(clock: &Clock) -> (r: String)
    ensures
        r@ == stamp_of(*clock),
{
    text::two_digits(clock.hour as u64).concat(":").concat(
        text::two_digits(clock.minute as u64).as_str(),
    ).concat(":").concat(text::two_digits(clock.second as u64).as_str())
}

/// How many of a group's four values are shown: one for each fan, one at
/// least.
pub fn shown(count: u8) -> (n: usize)
    ensures
        n == model::said_count(count),
        1 <= n <= FANS_PER_GROUP,
{
    if count < 1 {
        1
    } else if count as usize > FANS_PER_GROUP {
        FANS_PER_GROUP
    } else {
        count as usize
    }
}

/// The values of a group's fans.
pub fn fans<T: Copy>(values: &[T; FANS_PER_GROUP], count: u8) -> (r: Vec<T>)
    ensures
        r@ == values@.take(model::said_count(count)),
{
    let n: usize = shown(count);
    let mut r: Vec<T> = Vec::new();
    let mut i: usize = 0;
    while i < n
        invariant
            0 <= i <= n <= FANS_PER_GROUP,
            r@ =~= values@.take(i as int),
        decreases n - i,
    {
        r.push(values[i]);
        i += 1;
    }
    r
}

/// A line behind the time of day.
pub fn stamped(clock: &Clock, line: &str) -> (r: String)
    ensures
        r@ == stamp_of(*clock) + " | "@ + line@,
{
    stamp(clock).concat(" | ").concat(line)
}

/// What is said where a discovery is refused.
pub fn share_hint(refused: &str) -> (r: String)
    ensures
        r@ == refused@ + ", or pass --share to try anyway"@,
{
    text::owned(refused).concat(", or pass --share to try anyway")
}

/// A dongle's entry, as printed.
pub open spec fn master_of(master: Master) -> Seq<char> {
    "master "@ + text::mac_of(master.mac) + " channel "@ + text::decimal_of(master.channel as nat)
}

/// A dongle's entry, as printed.
pub fn describe_master(master: &Master) -> (r: String)
    ensures
        r@ == master_of(*master),
{
    text::owned("master ").concat(text::mac(&master.mac).as_str()).concat(" channel ").concat(
        text::decimal(master.channel as u64).as_str(),
    )
}

/// What is said of the dongle that a discovery is connected to.
pub fn connected_line(master: &Master, firmware: u16) -> (r: String)
    ensures
        r@ == master_of(*master) + " firmware "@ + text::decimal_of(firmware as nat),
{
    describe_master(master).concat(" firmware ").concat(text::decimal(firmware as u64).as_str())
}

/// A device, as printed.
pub open spec fn description(d: Device) -> Seq<char> {
    text::mac_of(d.mac) + " rx "@ + text::decimal_of(d.receiver as nat) + " ch "@
        + text::decimal_of(d.channel as nat) + " type "@ + text::decimal_of(d.device_type as nat)
        + " fans "@ + text::decimal_of(d.fan_count as nat) + (if d.right_attach {
        " right-attach"@
    } else {
        ""@
    }) + " rpm "@ + text::speeds_of(d.rpm@.take(model::said_count(d.fan_count))) + " duty "@
        + text::list_of(d.duty@.take(model::said_count(d.fan_count))) + " ("@ + text::decimal_of(
        speed::duty_percent(d.duty[0]) as nat,
    ) + "%) seq "@ + text::decimal_of(d.sequence as nat) + " model "@ + text::list_of(d.fan_types@)
        + " "@ + (if d.master_mac@ == bytes::zeros(6) {
        "unbound"@
    } else {
        "bound to "@ + text::mac_of(d.master_mac)
    })
}

/// A device, as printed.
pub fn describe(d: &Device) -> (r: String)
    ensures
        r@ == description(*d),
{
    let attach = if d.right_attach {
        " right-attach"
    } else {
        ""
    };
    let bound = if is_zero(&d.master_mac) {
        text::owned("unbound")
    } else {
        text::owned("bound to ").concat(text::mac(&d.master_mac).as_str())
    };
    text::mac(&d.mac).concat(" rx ").concat(text::decimal(d.receiver as u64).as_str()).concat(
        " ch ",
    ).concat(text::decimal(d.channel as u64).as_str()).concat(" type ").concat(
        text::decimal(d.device_type as u64).as_str(),
    ).concat(" fans ").concat(text::decimal(d.fan_count as u64).as_str()).concat(attach).concat(
        " rpm ",
    ).concat(text::speeds(&fans(&d.rpm, d.fan_count)).as_str()).concat(" duty ").concat(
        text::list(&fans(&d.duty, d.fan_count)).as_str(),
    ).concat(" (").concat(
        text::decimal(speed::percent_from_duty(d.duty[0]) as u64).as_str(),
    ).concat("%) seq ").concat(text::decimal(d.sequence as u64).as_str()).concat(" model ").concat(
        text::list(&d.fan_types).as_str(),
    ).concat(" ").concat(bound.as_str())
}

/// What is printed of a poll: a line that counts, then one for each dongle
/// and one for each device.
pub open spec fn poll_of(poll: u32, reply: ReplyState) -> Seq<Seq<char>> {
    seq![
        "poll "@ + text::decimal_of(poll as nat) + ": "@ + text::decimal_of(reply.reported as nat)
            + " reported, "@ + text::decimal_of(reply.masters.len()) + " master, "@
            + text::decimal_of(reply.devices.len()) + " devices"@,
    ] + reply.masters.map_values(|m: Master| "  "@ + master_of(m)) + reply.devices.map_values(
        |d: Device| "  "@ + description(d),
    )
}

/// What is printed of a poll.
pub fn poll_block(poll: u32, reply: &Reply) -> (lines: Vec<String>)
    ensures
        text::texts(lines@) == poll_of(poll, reply@),
{
    let ghost all = poll_of(poll, reply@);
    let mut lines: Vec<String> = Vec::new();
    lines.push(
        text::owned("poll ").concat(text::decimal(poll as u64).as_str()).concat(": ").concat(
            text::decimal(reply.reported as u64).as_str(),
        ).concat(" reported, ").concat(
            text::decimal(reply.masters.len() as u64).as_str(),
        ).concat(" master, ").concat(text::decimal(reply.devices.len() as u64).as_str()).concat(
            " devices",
        ),
    );
    assert(text::texts(lines@) =~= all.take(1));
    let mut i: usize = 0;
    while i < reply.masters.len()
        invariant
            0 <= i <= reply.masters.len(),
            all == poll_of(poll, reply@),
            text::texts(lines@) == all.take(1 + i),
        decreases reply.masters.len() - i,
    {
        let ghost before = text::texts(lines@);
        lines.push(text::owned("  ").concat(describe_master(&reply.masters[i]).as_str()));
        assert(text::texts(lines@) =~= before.push(all[1 + i]));
        assert(text::texts(lines@) =~= all.take(2 + i));
        i += 1;
    }
    let mut k: usize = 0;
    while k < reply.devices.len()
        invariant
            0 <= k <= reply.devices.len(),
            i == reply.masters.len(),
            all == poll_of(poll, reply@),
            text::texts(lines@) == all.take(1 + i + k),
        decreases reply.devices.len() - k,
    {
        let ghost before = text::texts(lines@);
        lines.push(text::owned("  ").concat(describe(&reply.devices[k]).as_str()));
        assert(text::texts(lines@) =~= before.push(all[1 + i + k]));
        assert(text::texts(lines@) =~= all.take(2 + i + k));
        k += 1;
    }
    assert(all.take(1 + i + k) =~= all);
    lines
}

/// What is said of the group that was chosen.
pub fn chosen_line(device: &Device) -> (r: String)
    ensures
        r@ == "group "@ + description(*device),
{
    text::owned("group ").concat(describe(device).as_str())
}

/// What setting the duty that a group reports is called.
pub const ECHO_NAME: &'static str = "echo";

/// What putting a group's duty back is called.
pub const RESTORE_NAME: &'static str = "restore";

/// What setting a percentage is called.
pub fn set_name(percent: u8) -> (r: String)
    ensures
        r@ == "set "@ + text::decimal_of(percent as nat) + "%"@,
{
    text::owned("set ").concat(text::decimal(percent as u64).as_str()).concat("%")
}

/// What confirming a group's duty after a run is called.
pub fn confirm_name(mac: &[u8; 6]) -> (r: String)
    ensures
        r@ == "confirm "@ + text::mac_of(*mac),
{
    text::owned("confirm ").concat(text::mac(mac).as_str())
}

/// Addresses as texts.
pub open spec fn names_of(macs: Seq<[u8; 6]>) -> Seq<Seq<char>> {
    macs.map_values(|mac: [u8; 6]| text::mac_of(mac))
}

/// Addresses with commas in between.
pub fn names(macs: &[[u8; 6]]) -> (r: String)
    ensures
        r@ == text::joined_of(names_of(macs@), ", "@),
{
    let mut parts: Vec<String> = Vec::new();
    let mut i: usize = 0;
    while i < macs.len()
        invariant
            0 <= i <= macs.len(),
            text::texts(parts@) =~= names_of(macs@).take(i as int),
        decreases macs.len() - i,
    {
        let ghost before = text::texts(parts@);
        parts.push(text::mac(&macs[i]));
        assert(text::texts(parts@) =~= before.push(names_of(macs@)[i as int]));
        i += 1;
    }
    assert(text::texts(parts@) =~= names_of(macs@));
    text::joined(&parts, ", ")
}

/// The addresses that start with a text.
pub open spec fn matching_of(macs: Seq<[u8; 6]>, prefix: Seq<char>) -> Seq<[u8; 6]> {
    macs.filter(|mac: [u8; 6]| prefix.is_prefix_of(text::mac_of(mac)))
}

/// The one address that starts with a text; `what` says what the addresses
/// are of.
pub open spec fn resolved(macs: Seq<[u8; 6]>, prefix: Seq<char>, what: Seq<char>) -> Result<
    [u8; 6],
    Seq<char>,
> {
    let matching = matching_of(macs, prefix);
    if matching.len() == 1 {
        Ok(matching[0])
    } else if matching.len() == 0 {
        Err(
            quoted("no "@ + what + " starts with "@, prefix, "; groups: "@) + text::joined_of(
                names_of(macs),
                ", "@,
            ),
        )
    } else {
        Err(quoted(""@, prefix, " matches "@) + text::joined_of(names_of(matching), ", "@))
    }
}

/// The one address that starts with a text; `what` says what the addresses
/// are of.
pub fn resolve_among(macs: &[[u8; 6]], prefix: &str, what: &str) -> (r: Result<[u8; 6], String>)
    ensures
        told(r) == resolved(macs@, prefix@, what@),
{
    let ghost starts = |mac: [u8; 6]| prefix@.is_prefix_of(text::mac_of(mac));
    let mut matching: Vec<[u8; 6]> = Vec::new();
    let mut i: usize = 0;
    proof {
        reveal(Seq::filter);
        assert(macs@.take(0) =~= Seq::<[u8; 6]>::empty());
    }
    while i < macs.len()
        invariant
            0 <= i <= macs.len(),
            starts == (|mac: [u8; 6]| prefix@.is_prefix_of(text::mac_of(mac))),
            matching@ =~= macs@.take(i as int).filter(starts),
        decreases macs.len() - i,
    {
        proof {
            assert(macs@.take(i + 1).drop_last() =~= macs@.take(i as int));
            reveal(Seq::filter);
        }
        if text::starts_with(text::mac(&macs[i]).as_str(), prefix) {
            matching.push(macs[i]);
        }
        i += 1;
    }
    assert(macs@.take(i as int) =~= macs@);
    if matching.len() == 1 {
        Ok(matching[0])
    } else if matching.len() == 0 {
        Err(
            quote(
                text::owned("no ").concat(what).concat(" starts with ").as_str(),
                prefix,
                "; groups: ",
            ).concat(names(macs).as_str()),
        )
    } else {
        Err(quote("", prefix, " matches ").concat(names(&matching).as_str()))
    }
}

/// A whole address names the group that has it, whatever other groups there
/// are.
pub proof fn a_whole_address_names_its_group(
    macs: Seq<[u8; 6]>,
    mac: [u8; 6],
    what: Seq<char>,
)
    requires
        macs.no_duplicates(),
        macs.contains(mac),
    ensures
        resolved(macs, text::mac_of(mac), what) == Ok::<[u8; 6], Seq<char>>(mac),
{
    let prefix = text::mac_of(mac);
    let starts = |other: [u8; 6]| prefix.is_prefix_of(text::mac_of(other));
    let matching = matching_of(macs, prefix);
    lists::filtered(macs, starts);
    lists::filter_keeps_apart(macs, starts);
    assert(matching.contains(mac));
    assert forall|i: int| 0 <= i < matching.len() implies #[trigger] matching[i] == mac by {
        assert(matching.contains(matching[i]));
        text::addresses_are_told_apart(mac, matching[i]);
    }
    if matching.len() > 1 {
        assert(matching[0] == matching[1]);
    }
}

/// The addresses in a snapshot.
pub open spec fn macs_in(snapshot: SnapshotState) -> Seq<[u8; 6]> {
    snapshot.groups.map_values(|g: GroupState| g.mac)
}

fn snapshot_macs(snapshot: &Snapshot) -> (macs: Vec<[u8; 6]>)
    ensures
        macs@ == macs_in(snapshot@),
{
    let mut macs: Vec<[u8; 6]> = Vec::new();
    let mut i: usize = 0;
    while i < snapshot.groups.len()
        invariant
            0 <= i <= snapshot.groups.len(),
            macs@ =~= macs_in(snapshot@).take(i as int),
        decreases snapshot.groups.len() - i,
    {
        macs.push(snapshot.groups[i].mac);
        i += 1;
    }
    assert(macs@ =~= macs_in(snapshot@));
    macs
}

/// The one group of a snapshot whose address starts with a text.
pub fn resolve(snapshot: &Snapshot, prefix: &str) -> (r: Result<[u8; 6], String>)
    ensures
        told(r) == resolved(macs_in(snapshot@), prefix@, "group"@),
{
    resolve_among(&snapshot_macs(snapshot), prefix, "group")
}

/// The one fan group whose address starts with a text.
pub fn choose_fans(groups: &[Group], prefix: &str) -> (r: Result<Device, String>)
    ensures
        match resolved(groups::macs_of(groups@), prefix@, "fan group"@) {
            Ok(mac) => r matches Ok(device) && groups::place_of(groups@, mac) matches Some(i)
                && device == groups@[i].device,
            Err(message) => r matches Err(told) && told@ == message,
        },
{
    let mut macs: Vec<[u8; 6]> = Vec::new();
    let mut i: usize = 0;
    while i < groups.len()
        invariant
            0 <= i <= groups.len(),
            macs@ =~= groups::macs_of(groups@).take(i as int),
        decreases groups.len() - i,
    {
        macs.push(groups[i].device.mac);
        i += 1;
    }
    assert(macs@ =~= groups::macs_of(groups@));
    let mac = match resolve_among(&macs, prefix, "fan group") {
        Ok(mac) => mac,
        Err(message) => {
            return Err(message);
        },
    };
    proof {
        let starts = |m: [u8; 6]| prefix@.is_prefix_of(text::mac_of(m));
        crate::lists::filtered(macs@, starts);
        assert(matching_of(macs@, prefix@).contains(mac)) by {
            assert(matching_of(macs@, prefix@)[0] == mac);
        }
        address::the_place_is_the_first(macs@, mac);
    }
    i = 0;
    while i < groups.len()
        invariant
            0 <= i <= groups.len(),
            macs@ == groups::macs_of(groups@),
            macs@.contains(mac),
            resolved(macs@, prefix@, "fan group"@) == Ok::<[u8; 6], Seq<char>>(mac),
            forall|k: int| 0 <= k < i ==> macs@[k] != mac,
        decreases groups.len() - i,
    {
        if bytes::same(&groups[i].device.mac, &mac) {
            proof {
                address::place_found(macs@, mac, i as int);
            }
            return Ok(groups[i].device);
        }
        i += 1;
    }
    assert(false) by {
        let k = choose|k: int| 0 <= k < macs@.len() && macs@[k] == mac;
        assert(macs@[k] != mac);
    }
    Err(String::new())
}

/// The status line of a run.
pub open spec fn status_of(snapshot: SnapshotState, elapsed: u128) -> Seq<char> {
    let seconds = elapsed as int / SECOND as int;
    text::padded_of(text::decimal_of((seconds / 60) as nat), 3) + ":"@ + text::two_digits_of(
        (seconds % 60) as nat,
    ) + " ticks "@ + text::decimal_of(snapshot.ticks as nat) + " polls "@ + text::decimal_of(
        snapshot.polls as nat,
    ) + " failed "@ + text::decimal_of(snapshot.poll_failures as nat) + (match snapshot.alarm {
        Some(why) => " FAILSAFE ("@ + why.text_of() + ")"@,
        None => ""@,
    })
}

/// The status line of a run.
pub fn status_line(snapshot: &Snapshot, elapsed: u128) -> (r: String)
    requires
        elapsed / SECOND <= u64::MAX,
    ensures
        r@ == status_of(snapshot@, elapsed),
{
    let seconds: u64 = (elapsed / SECOND) as u64;
    let alarm = match &snapshot.alarm {
        Some(why) => text::owned(" FAILSAFE (").concat(why.text().as_str()).concat(")"),
        None => text::owned(""),
    };
    text::padded(seconds / 60, 3).concat(":").concat(
        text::two_digits(seconds % 60).as_str(),
    ).concat(" ticks ").concat(text::decimal(snapshot.ticks).as_str()).concat(" polls ").concat(
        text::decimal(snapshot.polls).as_str(),
    ).concat(" failed ").concat(text::decimal(snapshot.poll_failures).as_str()).concat(
        alarm.as_str(),
    )
}

/// The status line of one group of a run.
pub open spec fn group_status_of(g: GroupState) -> Seq<char> {
    let n = model::said_count(g.fan_count);
    "  "@ + text::mac_of(g.mac) + " "@ + (if g.online {
        "online "@
    } else {
        "OFFLINE"@
    }) + " duty "@ + text::list_of(g.duty@.take(n)) + " target "@ + (match g.target {
        Some(target) => text::list_of(target@.take(n)) + (if g.acknowledged {
            ""@
        } else {
            " (unacknowledged)"@
        }),
        None => "none"@,
    }) + " rpm "@ + text::speeds_of(g.rpm@.take(n)) + (if g.unacknowledged > 1 {
        " sent "@ + text::decimal_of(g.unacknowledged as nat) + " times without confirmation"@
    } else {
        ""@
    })
}

/// The status line of one group of a run.
pub fn group_status_line(g: &GroupState) -> (r: String)
    ensures
        r@ == group_status_of(*g),
{
    let online = if g.online {
        "online "
    } else {
        "OFFLINE"
    };
    let target = match &g.target {
        Some(target) => text::list(&fans(target, g.fan_count)).concat(
            if g.acknowledged {
                ""
            } else {
                " (unacknowledged)"
            },
        ),
        None => text::owned("none"),
    };
    let unconfirmed = if g.unacknowledged > 1 {
        text::owned(" sent ").concat(text::decimal(g.unacknowledged as u64).as_str()).concat(
            " times without confirmation",
        )
    } else {
        text::owned("")
    };
    text::owned("  ").concat(text::mac(&g.mac).as_str()).concat(" ").concat(online).concat(
        " duty ",
    ).concat(text::list(&fans(&g.duty, g.fan_count)).as_str()).concat(" target ").concat(
        target.as_str(),
    ).concat(" rpm ").concat(text::speeds(&fans(&g.rpm, g.fan_count)).as_str()).concat(
        unconfirmed.as_str(),
    )
}

/// What a line typed during a run asks for.
#[derive(Debug, Clone, PartialEq, Eq)]
pub enum Typed {
    /// To stop.
    Quit,
    /// A percentage on a group.
    Ask([u8; 6], u8),
    /// Nothing that can be done; this is said instead.
    Say(String),
    /// Nothing.
    Nothing,
}

/// What a line typed during a run asks for, as a value.
pub enum TypedState {
    Quit,
    Ask([u8; 6], u8),
    Say(Seq<char>),
    Nothing,
}

impl View for Typed {
    type V = TypedState;

    open spec fn view(&self) -> TypedState {
        match self {
            Typed::Quit => TypedState::Quit,
            Typed::Ask(mac, percent) => TypedState::Ask(*mac, *percent),
            Typed::Say(message) => TypedState::Say(message@),
            Typed::Nothing => TypedState::Nothing,
        }
    }
}

/// What a line typed during a run asks for: `q` to stop, or a group and a
/// percentage.
pub open spec fn typed_of(macs: Seq<[u8; 6]>, line: Seq<char>) -> TypedState {
    let line = text::lowered_of(text::trimmed(line));
    if line == "q"@ || line == "quit"@ {
        TypedState::Quit
    } else {
        match text::place_of(line, seq![' '], 0) {
            Some(at) => {
                let percent = line.skip(at + 1);
                match resolved(macs, line.take(at), "group"@) {
                    Err(message) => TypedState::Say(message),
                    Ok(mac) => match text::number_of(text::trimmed(percent), 100) {
                        Some(n) => TypedState::Ask(mac, n as u8),
                        None => TypedState::Say(
                            quoted(""@, percent, " is not a percent from 0 to 100"@),
                        ),
                    },
                }
            },
            None => if line.len() == 0 {
                TypedState::Nothing
            } else {
                TypedState::Say("type '<group> <percent>' or 'q'"@)
            },
        }
    }
}

/// What a line typed during a run asks for.
pub fn read_typed(snapshot: &Snapshot, line: &str) -> (r: Typed)
    ensures
        r@ == typed_of(macs_in(snapshot@), line@),
{
    let trimmed = text::text_of(&text::trim(line));
    let line = text::text_of(&text::lowered(trimmed.as_str()));
    if text::same(line.as_str(), "q") || text::same(line.as_str(), "quit") {
        return Typed::Quit;
    }
    match split_once(line.as_str(), ' ') {
        Some((prefix, percent)) => match resolve(snapshot, prefix.as_str()) {
            Err(message) => Typed::Say(message),
            Ok(target) => {
                let digits = text::text_of(&text::trim(percent.as_str()));
                match text::number(digits.as_str(), 100) {
                    Some(n) => Typed::Ask(target, n as u8),
                    None => Typed::Say(
                        quote("", percent.as_str(), " is not a percent from 0 to 100"),
                    ),
                }
            },
        },
        None => if text::chars_of(line.as_str()).len() == 0 {
            Typed::Nothing
        } else {
            Typed::Say(text::owned("type '<group> <percent>' or 'q'"))
        },
    }
}

/// What is said of a percentage that was asked for.
pub fn asked_line(mac: &[u8; 6], percent: u8) -> (r: String)
    ensures
        r@ == "you asked for "@ + text::decimal_of(percent as nat) + "% on "@ + text::mac_of(*mac),
{
    text::owned("you asked for ").concat(text::decimal(percent as u64).as_str()).concat(
        "% on ",
    ).concat(text::mac(mac).as_str())
}

/// Whether the engine has ticked, unless it took too long.
pub fn first_tick(ticks: u64, elapsed: u128) -> (r: Result<bool, String>)
    ensures
        told(r) == if elapsed > FIRST_TICK_LIMIT {
            Err::<bool, Seq<char>>("the engine did not tick within 10 s"@)
        } else {
            Ok(ticks > 0)
        },
{
    if elapsed > FIRST_TICK_LIMIT {
        Err(text::owned("the engine did not tick within 10 s"))
    } else {
        Ok(ticks > 0)
    }
}

/// A group and its duties, as printed when a run starts.
pub open spec fn starting_of(g: GroupState) -> Seq<char> {
    text::mac_of(g.mac) + " "@ + text::list_of(g.duty@.take(model::said_count(g.fan_count)))
}

/// The line that a run starts with.
pub fn starting_line(snapshot: &Snapshot) -> (r: String)
    ensures
        r@ == text::decimal_of(snapshot@.groups.len()) + " groups; starting duties "@
            + text::joined_of(snapshot@.groups.map_values(|g: GroupState| starting_of(g)), ", "@),
{
    let mut parts: Vec<String> = Vec::new();
    let mut i: usize = 0;
    let ghost all = snapshot@.groups.map_values(|g: GroupState| starting_of(g));
    while i < snapshot.groups.len()
        invariant
            0 <= i <= snapshot.groups.len(),
            all == snapshot@.groups.map_values(|g: GroupState| starting_of(g)),
            text::texts(parts@) =~= all.take(i as int),
        decreases snapshot.groups.len() - i,
    {
        let g = snapshot.groups[i];
        let ghost before = text::texts(parts@);
        parts.push(
            text::mac(&g.mac).concat(" ").concat(
                text::list(&fans(&g.duty, g.fan_count)).as_str(),
            ),
        );
        assert(text::texts(parts@) =~= before.push(all[i as int]));
        i += 1;
    }
    assert(text::texts(parts@) =~= all);
    text::decimal(snapshot.groups.len() as u64).concat(" groups; starting duties ").concat(
        text::joined(&parts, ", ").as_str(),
    )
}

/// A group and the duties to confirm on it.
pub type Confirmation = ([u8; 6], [u8; FANS_PER_GROUP]);

/// What is confirmed once a run is over: the last targets where they are to
/// stay, else the duties that the groups started with.
pub open spec fn confirmed_of(leave: bool, first: SnapshotState, last: SnapshotState) -> Seq<
    Confirmation,
> {
    if leave {
        last.groups.filter(|g: GroupState| g.target is Some).map_values(
            |g: GroupState| (g.mac, g.target->0),
        )
    } else {
        first.groups.map_values(|g: GroupState| (g.mac, g.duty))
    }
}

/// What is confirmed once a run is over.
pub fn to_confirm(leave: bool, first: &Snapshot, last: &Snapshot) -> (r: Vec<Confirmation>)
    ensures
        r@ == confirmed_of(leave, first@, last@),
{
    let mut r: Vec<Confirmation> = Vec::new();
    let mut i: usize = 0;
    if leave {
        let ghost aimed = |g: GroupState| g.target is Some;
        let ghost pair = |g: GroupState| (g.mac, g.target->0);
        let ghost all = last.groups@;
        proof {
            reveal(Seq::filter);
            assert(all.take(0) =~= Seq::<GroupState>::empty());
        }
        while i < last.groups.len()
            invariant
                0 <= i <= last.groups.len(),
                all == last.groups@,
                aimed == (|g: GroupState| g.target is Some),
                pair == (|g: GroupState| (g.mac, g.target->0)),
                r@ =~= all.take(i as int).filter(aimed).map_values(pair),
            decreases last.groups.len() - i,
        {
            proof {
                assert(all.take(i + 1).drop_last() =~= all.take(i as int));
                reveal(Seq::filter);
            }
            let g = last.groups[i];
            if let Some(target) = g.target {
                r.push((g.mac, target));
                proof {
                    assert(aimed(g));
                    assert(all.take(i + 1).filter(aimed) =~= all.take(i as int).filter(aimed).push(
                        g,
                    ));
                    assert(pair(g) == (g.mac, target));
                }
            }
            i += 1;
        }
        assert(all.take(i as int) =~= all);
    } else {
        let ghost all = first.groups@.map_values(|g: GroupState| (g.mac, g.duty));
        while i < first.groups.len()
            invariant
                0 <= i <= first.groups.len(),
                all == first.groups@.map_values(|g: GroupState| (g.mac, g.duty)),
                r@ =~= all.take(i as int),
            decreases first.groups.len() - i,
        {
            r.push((first.groups[i].mac, first.groups[i].duty));
            i += 1;
        }
        assert(r@ =~= all);
    }
    r
}

/// What a run comes to: its failures, one behind the other.
pub fn run_outcome(failures: &[String]) -> (r: Result<(), String>)
    ensures
        told(r) == if failures@.len() == 0 {
            Ok::<(), Seq<char>>(())
        } else {
            Err(text::joined_of(text::texts(failures@), "; "@))
        },
{
    if failures.len() == 0 {
        Ok(())
    } else {
        Err(text::joined(failures, "; "))
    }
}

} // verus!
