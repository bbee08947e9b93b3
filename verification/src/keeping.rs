//! How time is kept: when the loop ticks and sleeps, how long a run goes on,
//! how long a duty is held and an answer awaited; and what is printed
//! meanwhile.

use crate::discovery::{Device, Master, ReplyState};
use crate::dongle::Port;
use crate::groups::Group;
use crate::heartbeat::Clock;
use crate::model;
use crate::model::{GroupState, SnapshotState};
use crate::pace::{Pace, Step};
use crate::probe;
use crate::run;
use crate::run::Run;
use crate::session;
use crate::session::{Awaited, Chore, SendError, Session};
use crate::speed;
use crate::text;
use crate::time;
use crate::wording;
use vstd::prelude::*;

verus! {

/// What happened at a time happened as long ago as the time since; what lies
/// ahead happened just now.
pub proof fn time_passes(now: u128, at: u128)
    ensures
        at <= now ==> at + time::passed(now, at) == now,
        at > now ==> time::passed(now, at) == 0,
{
}

/// The first pass runs at once, whether the loop is to end or not.
pub proof fn the_first_pass_runs_at_once(pace: Pace, now: u128, stop: bool)
    requires
        pace.phase is Starting,
    ensures
        ({
            let (after, step) = pace.stepped(now, stop);
            step is Tick && after.phase is Ticked && after.due == pace.due
        }),
{
}

/// After a pass the next is due a second after that was, or now where that is
/// past; it runs where it is due, and until then the loop sleeps the time that
/// is left, a twentieth of a second at the most.
pub proof fn passes_are_a_second_apart(pace: Pace, now: u128)
    requires
        pace.due <= u128::MAX - 1_000_000_000,
        !(pace.phase is Starting),
    ensures
        ({
            let (after, step) = pace.stepped(now, false);
            &&& pace.phase is Waiting ==> after.due == pace.due
            &&& pace.phase is Ticked ==> after.due >= pace.due + 1_000_000_000 && after.due >= now
                && (after.due == pace.due + 1_000_000_000 || after.due == now)
            &&& pace.phase is Ticked && now <= pace.due + 1_000_000_000 ==> after.due == pace.due
                + 1_000_000_000
            &&& step is Tick <==> after.due <= now
            &&& step is Tick ==> after.phase is Ticked
            &&& !(step is Tick) ==> after.phase is Waiting
            &&& 0 < after.due - now <= 50_000_000 ==> (step matches Step::Nap(nap) && nap
                == after.due - now)
            &&& after.due - now > 50_000_000 ==> (step matches Step::Nap(nap) && nap
                == 50_000_000)
        }),
{
}

/// A loop that is to end does so as soon as its first pass ran.
pub proof fn a_stop_ends_the_loop(pace: Pace, now: u128)
    ensures
        !(pace.phase is Starting) ==> pace.stepped(now, true).1 is Stop,
        !(pace.stepped(now, false).1 is Stop),
{
}

/// A run goes on until its time is up or it is told to stop.
pub proof fn a_run_lasts_as_long_as_asked(run: Run, now: u128)
    ensures
        now >= run.started && run.length > 0 ==> (run.is_going(now) <==> !run.quit && now
            < run.started + run.length),
        run.length == 0 ==> !run.is_going(now),
{
}

/// A status is due where none was shown yet, and again once the time between
/// two has passed.
pub proof fn a_status_is_due_as_often_as_asked(run: Run, now: u128)
    ensures
        run.last_status is None ==> run.is_status_due(now),
        run.last_status matches Some(last) ==> (now >= last ==> (run.is_status_due(now) <==> now
            >= last + run.every)),
{
}

/// A heartbeat is held to be out for less than a second.
pub proof fn a_heartbeat_lasts_a_second<P: Port>(session: Session<P>, now: u128)
    ensures
        session.last_heartbeat is None ==> !session.is_beating(now),
        session.last_heartbeat matches Some(last) ==> (now >= last ==> (session.is_beating(now)
            <==> now < last + 1_000_000_000)),
{
}

/// A round goes through five chores and begins anew: after the heartbeat the
/// target is sent, and the poll comes between the pause and the look.
pub proof fn a_round_goes_through_its_chores(chore: Chore)
    ensures
        chore.followed() is Send <==> chore is Beat,
        chore.followed() is Rest <==> chore is Send,
        chore.followed() is Poll <==> chore is Rest,
        chore.followed() is Look <==> chore is Poll,
        chore.followed() is Beat <==> chore is Look,
        chore.followed().followed().followed().followed().followed() == chore,
{
}

/// A target is awaited until it is seen applied, and no longer than five
/// seconds: then the wait fails, as it does at once where the group is not
/// known any more.
pub proof fn a_target_is_awaited_for_five_seconds(
    r: Result<Awaited, String>,
    group: Option<Group>,
    what: Seq<char>,
    polls: u32,
    now: u128,
    elapsed: u128,
)
    requires
        session::is_awaited(r, group, what, polls, now, elapsed),
    ensures
        group is None ==> (r matches Err(message) && message@ == "group vanished"@),
        group matches Some(g) ==> {
            let n = model::said_count(g.device.fan_count);
            &&& g.is_acknowledged(now) ==> (r matches Ok(Awaited::Applied(line)) && line@ == what
                + ": acknowledged after "@ + text::decimal_of(polls as nat) + " polls, duty "@
                + text::list_of(g.device.duty@.take(n)) + " rpm "@ + text::speeds_of(
                g.device.rpm@.take(n),
            ))
            &&& !g.is_acknowledged(now) && elapsed < 5_000_000_000 ==> r == Ok::<Awaited, String>(
                Awaited::Again,
            )
            &&& !g.is_acknowledged(now) && elapsed >= 5_000_000_000 ==> (r matches Err(message)
                && message@ == what + ": not acknowledged within "@ + text::decimal_of(5)
                + " s; group reports duty "@ + text::list_of(g.device.duty@.take(n)))
        },
{
}

/// A target that is held is shown with the whole seconds it was held, the
/// duties and speeds of its fans, and whether it is not seen applied.
pub proof fn what_is_said_of_a_held_target(
    group: Group,
    now: u128,
    seconds: u64,
    rest: u128,
    elapsed: u128,
)
    requires
        rest < 1_000_000_000,
        elapsed == seconds * 1_000_000_000 + rest,
    ensures
        ({
            let n = model::said_count(group.device.fan_count);
            let line = "  +"@ + text::padded_of(text::decimal_of(seconds as nat), 2) + "s duty "@
                + text::list_of(group.device.duty@.take(n)) + " rpm "@ + text::speeds_of(
                group.device.rpm@.take(n),
            );
            &&& group.is_acknowledged(now) ==> session::held_of(group, now, elapsed) == line + ""@
            &&& !group.is_acknowledged(now) ==> session::held_of(group, now, elapsed) == line
                + " (not acknowledged)"@
        }),
{
    assert(elapsed / 1_000_000_000 == seconds as u128);
}

/// A group that is gone is named; any other failure is said in the dongle's
/// words.
pub proof fn why_a_target_did_not_go_out(error: SendError, mac: [u8; 6], words: Seq<char>)
    ensures
        error is Vanished ==> error.text_of(mac, words) == "group "@ + text::mac_of(mac)
            + " vanished"@,
        error is Dongle ==> error.text_of(mac, words) == words,
{
}

/// As many values are shown as there are fans, but one at least and four at
/// most.
pub proof fn one_to_four_values_are_shown(count: u8)
    ensures
        1 <= count <= 4 ==> model::said_count(count) == count,
        count == 0 ==> model::said_count(count) == 1,
        count > 4 ==> model::said_count(count) == 4,
{
}

/// A time of day is its hour, minute and second in two digits each, with
/// colons between.
pub proof fn a_stamp_is_hour_minute_and_second(clock: Clock)
    requires
        clock.hour < 100,
        clock.minute < 100,
        clock.second < 100,
    ensures
        ({
            let stamp = probe::stamp_of(clock);
            &&& stamp.len() == 8
            &&& stamp[0] as int == '0' as int + clock.hour / 10
            &&& stamp[1] as int == '0' as int + clock.hour % 10
            &&& stamp[2] == ':'
            &&& stamp[3] as int == '0' as int + clock.minute / 10
            &&& stamp[4] as int == '0' as int + clock.minute % 10
            &&& stamp[5] == ':'
            &&& stamp[6] as int == '0' as int + clock.second / 10
            &&& stamp[7] as int == '0' as int + clock.second % 10
        }),
{
    reveal_strlit(":");
    wording::two_digits_are_tens_and_ones(clock.hour as nat);
    wording::two_digits_are_tens_and_ones(clock.minute as nat);
    wording::two_digits_are_tens_and_ones(clock.second as nat);
}

/// A status line begins with the whole minutes and seconds of the run, then
/// says how many passes, polls and failed polls there were, and what the alarm
/// is, if any.
pub proof fn what_a_status_says(
    snapshot: SnapshotState,
    minutes: u64,
    seconds: u64,
    rest: u128,
    elapsed: u128,
)
    requires
        seconds < 60,
        rest < 1_000_000_000,
        elapsed == (minutes * 60 + seconds) * 1_000_000_000 + rest,
    ensures
        ({
            let line = text::padded_of(text::decimal_of(minutes as nat), 3) + ":"@
                + text::two_digits_of(seconds as nat) + " ticks "@ + text::decimal_of(
                snapshot.ticks as nat,
            ) + " polls "@ + text::decimal_of(snapshot.polls as nat) + " failed "@
                + text::decimal_of(snapshot.poll_failures as nat);
            &&& snapshot.alarm is None ==> probe::status_of(snapshot, elapsed) == line + ""@
            &&& snapshot.alarm is Some ==> probe::status_of(snapshot, elapsed) == line + (
            " FAILSAFE ("@ + (text::decimal_of(3) + " polls failed in a row"@) + ")"@)
        }),
{
    let whole = elapsed as int / 1_000_000_000;
    assert(whole == minutes * 60 + seconds);
    assert(whole / 60 == minutes && whole % 60 == seconds as int);
}

/// A status block is the line of the run and one line for each group, in their
/// order.
pub proof fn a_status_has_a_line_for_each_group(snapshot: SnapshotState, elapsed: u128, i: int)
    requires
        0 <= i < snapshot.groups.len(),
    ensures
        run::block_of(snapshot, elapsed).len() == 1 + snapshot.groups.len(),
        run::block_of(snapshot, elapsed)[0] == probe::status_of(snapshot, elapsed),
        run::block_of(snapshot, elapsed)[1 + i] == probe::group_status_of(snapshot.groups[i]),
{
}

/// The line of a group says whether it is online, the duties it reports, its
/// target, whether that is not confirmed, its speeds, and how often its target
/// was sent without being confirmed, where that is more than once.
pub proof fn what_the_line_of_a_group_says(g: GroupState)
    ensures
        ({
            let n = model::said_count(g.fan_count);
            let duties = " duty "@ + text::list_of(g.duty@.take(n)) + " target "@;
            let speeds = " rpm "@ + text::speeds_of(g.rpm@.take(n));
            let online = if g.online {
                "online "@
            } else {
                "OFFLINE"@
            };
            let target = match g.target {
                None => "none"@,
                Some(target) => text::list_of(target@.take(n)) + (if g.acknowledged {
                    ""@
                } else {
                    " (unacknowledged)"@
                }),
            };
            let sent = if g.unacknowledged >= 2 {
                " sent "@ + text::decimal_of(g.unacknowledged as nat)
                    + " times without confirmation"@
            } else {
                ""@
            };
            probe::group_status_of(g) == "  "@ + text::mac_of(g.mac) + " "@ + online + duties
                + target + speeds + sent
        }),
{
    let n = model::said_count(g.fan_count);
    let online = if g.online {
        "online "@
    } else {
        "OFFLINE"@
    };
    let target = match g.target {
        None => "none"@,
        Some(target) => text::list_of(target@.take(n)) + (if g.acknowledged {
            ""@
        } else {
            " (unacknowledged)"@
        }),
    };
    let front = "  "@ + text::mac_of(g.mac) + " "@ + online;
    let duties = " duty "@ + text::list_of(g.duty@.take(n)) + " target "@;
    let speeds = " rpm "@ + text::speeds_of(g.rpm@.take(n));
    assert(front + " duty "@ + text::list_of(g.duty@.take(n)) + " target "@ =~= front + duties);
    assert(front + duties + target + " rpm "@ + text::speeds_of(g.rpm@.take(n)) =~= front + duties
        + target + speeds);
}

/// A dongle is printed with its address and its channel.
pub proof fn what_is_printed_of_a_dongle(master: Master)
    ensures
        probe::master_of(master) == "master "@ + text::mac_of(master.mac) + " channel "@
            + text::decimal_of(master.channel as nat),
{
}

/// A device is printed with its address, type and channel, then its kind and
/// fans and whether they chain from the right; the speeds and duties of its
/// fans, the percentage of the first, its sequence number and models; and
/// whose it is, or that it is nobody's.
pub proof fn what_is_printed_of_a_device(d: Device)
    ensures
        ({
            let n = model::said_count(d.fan_count);
            let head = text::mac_of(d.mac) + " rx "@ + text::decimal_of(d.receiver as nat) + " ch "@
                + text::decimal_of(d.channel as nat) + " type "@ + text::decimal_of(
                d.device_type as nat,
            ) + " fans "@ + text::decimal_of(d.fan_count as nat) + if d.right_attach {
                " right-attach"@
            } else {
                ""@
            };
            let middle = head + " rpm "@ + text::speeds_of(d.rpm@.take(n)) + " duty "@
                + text::list_of(d.duty@.take(n)) + " ("@ + text::decimal_of(
                speed::duty_percent(d.duty[0]) as nat,
            ) + "%) seq "@ + text::decimal_of(d.sequence as nat) + " model "@ + text::list_of(
                d.fan_types@,
            ) + " "@;
            &&& (forall|i: int| 0 <= i < 6 ==> #[trigger] d.master_mac[i] == 0)
                ==> probe::description(d) == middle + "unbound"@
            &&& (exists|i: int| 0 <= i < 6 && #[trigger] d.master_mac[i] != 0)
                ==> probe::description(d) == middle + ("bound to "@ + text::mac_of(d.master_mac))
        }),
{
    let zeros = crate::bytes::zeros(6);
    if forall|i: int| 0 <= i < 6 ==> #[trigger] d.master_mac[i] == 0 {
        assert(d.master_mac@ =~= zeros);
    }
    if exists|i: int| 0 <= i < 6 && #[trigger] d.master_mac[i] != 0 {
        let i = choose|i: int| 0 <= i < 6 && #[trigger] d.master_mac[i] != 0;
        assert(zeros[i] == 0);
        assert(d.master_mac@[i] != zeros[i]);
    }
}

/// A poll is printed as a line that counts, then one for each dongle and one
/// for each device, in their order.
pub proof fn what_is_printed_of_a_poll(poll: u32, reply: ReplyState, i: int, j: int)
    ensures
        ({
            let lines = probe::poll_of(poll, reply);
            let dongles = reply.masters.len();
            &&& lines.len() == 1 + dongles + reply.devices.len()
            &&& lines[0] == "poll "@ + text::decimal_of(poll as nat) + ": "@ + text::decimal_of(
                reply.reported as nat,
            ) + " reported, "@ + text::decimal_of(dongles) + " master, "@ + text::decimal_of(
                reply.devices.len(),
            ) + " devices"@
            &&& 0 <= i < dongles ==> lines[1 + i] == "  "@ + probe::master_of(reply.masters[i])
            &&& 0 <= j < reply.devices.len() ==> lines[1 + dongles + j] == "  "@
                + probe::description(reply.devices[j])
        }),
{
}

/// A group is shown with its address and the duties of its fans when a run
/// starts.
pub proof fn what_a_run_starts_with(g: GroupState)
    ensures
        probe::starting_of(g) == text::mac_of(g.mac) + " "@ + text::list_of(
            g.duty@.take(model::said_count(g.fan_count)),
        ),
{
}

} // verus!
