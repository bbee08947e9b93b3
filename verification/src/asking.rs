//! What can be asked for on the command line and during a run, and what each
//! of it means.

use crate::lists;
use crate::model::{GroupState, SnapshotState};
use crate::probe;
use crate::probe::{DiscoverOptions, RunState, SetState, TypedState};
use crate::run;
use crate::text;
use crate::wording;
use vstd::prelude::*;

verus! {

/// Where nothing else is asked for, a discovery polls five times, a duty is
/// held for ten seconds, and a run lasts an hour and shows its status every
/// ten seconds.
pub proof fn what_is_done_unasked(options: DiscoverOptions)
    ensures
        probe::DEFAULT_POLLS == 5,
        probe::DEFAULT_HOLD == 10,
        probe::discover_of(Seq::empty(), options) == Ok::<DiscoverOptions, Seq<char>>(options),
        probe::usual_run().length == 3_600_000_000_000,
        probe::usual_run().every == 10_000_000_000,
        probe::usual_run().initial.len() == 0,
        !probe::usual_run().leave,
        probe::run_of(Seq::empty(), probe::usual_run(), false) == Ok::<RunState, Seq<char>>(
            probe::usual_run(),
        ),
{
}

/// Polls are a second apart, and a quarter of one while an acknowledgement is
/// awaited; that is awaited for five seconds, and the first pass for ten.
pub proof fn how_long_things_are_awaited()
    ensures
        probe::POLL_GAP == 1_000_000_000,
        probe::ACK_POLL_GAP == 250_000_000,
        probe::ACK_LIMIT == 5_000_000_000,
        probe::FIRST_TICK_LIMIT == 10_000_000_000,
{
}

/// What stands behind arguments that can be read is read on top of what they
/// ask for.
proof fn discovery_arguments_add_up(
    args: Seq<Seq<char>>,
    more: Seq<Seq<char>>,
    options: DiscoverOptions,
)
    ensures
        probe::discover_of(args, options) matches Ok(asked) ==> probe::discover_of(
            args + more,
            options,
        ) == probe::discover_of(more, asked),
    decreases args.len(),
{
    if args.len() == 0 {
        assert(args + more =~= more);
    } else {
        assert((args + more)[0] == args[0]);
        assert((args + more).skip(1) =~= args.skip(1) + more);
        if args[0] == "--share"@ {
            discovery_arguments_add_up(
                args.skip(1),
                more,
                DiscoverOptions { share: true, ..options },
            );
        } else if args.len() >= 2 {
            assert((args + more)[1] == args[1]);
            assert((args + more).skip(2) =~= args.skip(2) + more);
            match text::number_of(args[1], u32::MAX as int) {
                Some(n) => {
                    discovery_arguments_add_up(
                        args.skip(2),
                        more,
                        DiscoverOptions { polls: n as u32, ..options },
                    );
                },
                None => {},
            }
        }
    }
}

/// Behind any arguments of a discovery, `--share` asks to share the dongle and
/// for nothing else; `--polls` with a positive number asks for as many polls
/// and for nothing else, and with anything else it is refused, as is whatever
/// else there is.
pub proof fn a_discovery_is_asked_for_argument_by_argument(
    args: Seq<Seq<char>>,
    options: DiscoverOptions,
    next: Seq<char>,
)
    requires
        probe::discover_of(args, options) is Ok,
    ensures
        ({
            let asked = probe::discover_of(args, options)->Ok_0;
            let polls = probe::discover_of(args + seq!["--polls"@, next], options);
            &&& probe::discover_of(args + seq!["--share"@], options) == Ok::<
                DiscoverOptions,
                Seq<char>,
            >(DiscoverOptions { polls: asked.polls, share: true })
            &&& probe::discover_of(args + seq!["--polls"@], options) is Err
            &&& text::number_of(next, 4_294_967_295) matches Some(n) ==> (n > 0 ==> polls == Ok::<
                DiscoverOptions,
                Seq<char>,
            >(DiscoverOptions { polls: n as u32, share: asked.share }))
            &&& text::number_of(next, 4_294_967_295) matches Some(n) ==> (n == 0 ==> polls is Err)
            &&& text::number_of(next, 4_294_967_295) is None ==> polls is Err
            &&& next != "--share"@ && next != "--polls"@ ==> probe::discover_of(
                args + seq![next],
                options,
            ) is Err
        }),
{
    reveal_strlit("--share");
    reveal_strlit("--polls");
    assert("--share"@[2] != "--polls"@[2]);
    let asked = probe::discover_of(args, options)->Ok_0;
    reveal_with_fuel(probe::discover_of, 3);
    discovery_arguments_add_up(args, seq!["--share"@], options);
    discovery_arguments_add_up(args, seq!["--polls"@], options);
    discovery_arguments_add_up(args, seq!["--polls"@, next], options);
    discovery_arguments_add_up(args, seq![next], options);
    assert(seq!["--share"@].skip(1) =~= Seq::<Seq<char>>::empty());
    assert(seq!["--polls"@, next].skip(2) =~= Seq::<Seq<char>>::empty());
}

/// A set takes a group, a percentage up to a hundred and, if that, a positive
/// number of seconds, and nothing more; it is asked for on the group in lower
/// case, at that percentage, for as many seconds, or ten.
pub proof fn what_a_set_asks_for(args: Seq<Seq<char>>)
    ensures
        probe::set_of(args) is Ok <==> {
            &&& 2 <= args.len() <= 3
            &&& text::number_of(args[1], 100) is Some
            &&& args.len() == 3 ==> (text::number_of(args[2], 18_446_744_073_709_551_615) matches Some(
                n,
            ) && n > 0)
        },
        probe::set_of(args) matches Ok(asked) ==> {
            &&& asked.group == text::lowered_of(args[0])
            &&& text::number_of(args[1], 100) == Some(asked.percent as int)
            &&& args.len() == 2 ==> asked.hold == 10_000_000_000
            &&& args.len() == 3 ==> text::number_of(args[2], 18_446_744_073_709_551_615) == Some(
                asked.hold as int / 1_000_000_000,
            ) && asked.hold % 1_000_000_000 == 0
        },
{
    if args.len() >= 2 {
        wording::a_number_is_in_its_range(args[1], 100);
        if args.len() >= 3 {
            wording::a_number_is_in_its_range(args[2], u64::MAX as int);
        }
    }
}

/// Each refusal of a set says what is wrong with it.
pub proof fn what_a_refused_set_is_told(args: Seq<Seq<char>>)
    ensures
        args.len() == 0 ==> probe::set_of(args) == Err::<SetState, Seq<char>>(
            "set needs a group address prefix"@,
        ),
        args.len() == 1 ==> probe::set_of(args) == Err::<SetState, Seq<char>>(
            "set needs a percent"@,
        ),
        args.len() >= 2 && text::number_of(args[1], 100) is None ==> probe::set_of(args) == Err::<
            SetState,
            Seq<char>,
        >(""@ + "'"@ + args[1] + "'"@ + " is not a percent from 0 to 100"@),
        args.len() >= 3 && text::number_of(args[1], 100) is Some && text::number_of(
            args[2],
            18_446_744_073_709_551_615,
        ) is None ==> probe::set_of(args) == Err::<SetState, Seq<char>>(
            ""@ + "'"@ + args[2] + "'"@ + " is not a positive number of seconds"@,
        ),
        args.len() >= 4 && text::number_of(args[1], 100) is Some && (text::number_of(
            args[2],
            18_446_744_073_709_551_615,
        ) matches Some(n) && n > 0) ==> probe::set_of(args) == Err::<SetState, Seq<char>>(
            "unexpected argument "@ + "'"@ + args[3] + "'"@ + ""@,
        ),
{
}

/// An assignment is a group and a percentage with an equals sign between them,
/// the first there is: the group is taken in lower case, the percentage must
/// be one up to a hundred.
pub proof fn an_assignment_is_a_group_and_a_percentage(group: Seq<char>, percent: Seq<char>)
    requires
        !group.contains('='),
    ensures
        ({
            let asked = probe::assignment_of(group + seq!['='] + percent);
            &&& text::number_of(percent, 100) matches Some(n) ==> (asked matches Ok((whose, what))
                && whose == text::lowered_of(group) && what == n)
            &&& text::number_of(percent, 100) is None ==> asked is Err
            &&& probe::assignment_of(group) is Err
        }),
{
    let line = group + seq!['='] + percent;
    the_first_mark_is_found(group, percent, '=');
    wording::a_number_is_in_its_range(percent, 100);
}

/// A character between two texts, the first of which does not hold it, is
/// found between them.
proof fn the_first_mark_is_found(front: Seq<char>, rest: Seq<char>, mark: char)
    requires
        !front.contains(mark),
    ensures
        text::place_of(front + seq![mark] + rest, seq![mark], 0) == Some(front.len() as int),
        (front + seq![mark] + rest).take(front.len() as int) == front,
        (front + seq![mark] + rest).skip(front.len() as int + 1) == rest,
        text::place_of(front, seq![mark], 0) is None,
{
    let line = front + seq![mark] + rest;
    let n = front.len() as int;
    assert(line.subrange(n, n + 1) =~= seq![mark]);
    wording::a_part_is_found_where_it_first_stands(line, seq![mark], 0, n);
    let at = text::place_of(line, seq![mark], 0)->0;
    if at < n {
        assert(line.subrange(at, at + 1)[0] == front[at]);
        assert(seq![mark][0] == mark);
        assert(front.contains(front[at]));
    }
    assert(line.take(n) =~= front);
    assert(line.skip(n + 1) =~= rest);
    wording::a_part_found_stands(front, seq![mark], 0);
    match text::place_of(front, seq![mark], 0) {
        Some(i) => {
            assert(front.subrange(i, i + 1)[0] == front[i]);
            assert(seq![mark][0] == mark);
            assert(front.contains(front[i]));
        },
        None => {},
    }
}

/// What stands behind arguments that can be read is read on top of what they
/// ask for; whether the minutes were given may have changed.
proof fn run_arguments_add_up(
    args: Seq<Seq<char>>,
    more: Seq<Seq<char>>,
    options: RunState,
    given: bool,
)
    ensures
        probe::run_of(args, options, given) matches Ok(asked) ==> probe::run_of(
            args + more,
            options,
            given,
        ) == probe::run_of(more, asked, true) || probe::run_of(args + more, options, given)
            == probe::run_of(more, asked, given),
    decreases args.len(),
{
    if args.len() == 0 {
        assert(args + more =~= more);
    } else {
        assert((args + more)[0] == args[0]);
        assert((args + more).skip(1) =~= args.skip(1) + more);
        if args.len() >= 2 {
            assert((args + more)[1] == args[1]);
            assert((args + more).skip(2) =~= args.skip(2) + more);
        }
        if args[0] == "--leave"@ {
            run_arguments_add_up(args.skip(1), more, RunState { leave: true, ..options }, given);
        } else if args[0] == "--every"@ {
            if args.len() >= 2 {
                match text::number_of(args[1], u64::MAX as int) {
                    Some(n) => {
                        run_arguments_add_up(
                            args.skip(2),
                            more,
                            RunState { every: (n * 1_000_000_000) as u128, ..options },
                            given,
                        );
                    },
                    None => {},
                }
            }
        } else if args[0] == "--set"@ {
            if args.len() >= 2 {
                match probe::assignment_of(args[1]) {
                    Ok(assignment) => {
                        run_arguments_add_up(
                            args.skip(2),
                            more,
                            RunState { initial: options.initial.push(assignment), ..options },
                            given,
                        );
                    },
                    Err(_) => {},
                }
            }
        } else if !given && !"--"@.is_prefix_of(args[0]) {
            match text::number_of(args[0], u64::MAX as int) {
                Some(n) => {
                    run_arguments_add_up(
                        args.skip(1),
                        more,
                        RunState { length: (n * 60 * 1_000_000_000) as u128, ..options },
                        true,
                    );
                },
                None => {},
            }
        }
    }
}

/// Behind any arguments of a run, `--leave` asks to leave the targets in place,
/// `--every` with a positive number for a status as often in seconds, and
/// `--set` with an assignment for one more percentage, behind those asked for
/// before; none of them asks for anything else, and each is refused without
/// what it needs.
pub proof fn a_run_is_asked_for_argument_by_argument(
    args: Seq<Seq<char>>,
    options: RunState,
    given: bool,
    next: Seq<char>,
)
    requires
        probe::run_of(args, options, given) is Ok,
    ensures
        ({
            let asked = probe::run_of(args, options, given)->Ok_0;
            let every = probe::run_of(args + seq!["--every"@, next], options, given);
            let set = probe::run_of(args + seq!["--set"@, next], options, given);
            &&& probe::run_of(args + seq!["--leave"@], options, given) == Ok::<
                RunState,
                Seq<char>,
            >(RunState { leave: true, ..asked })
            &&& probe::run_of(args + seq!["--every"@], options, given) is Err
            &&& probe::run_of(args + seq!["--set"@], options, given) is Err
            &&& text::number_of(next, 18_446_744_073_709_551_615) matches Some(n) ==> (n > 0
                ==> every == Ok::<RunState, Seq<char>>(
                RunState { every: (n * 1_000_000_000) as u128, ..asked },
            ))
            &&& text::number_of(next, 18_446_744_073_709_551_615) matches Some(n) ==> (n == 0
                ==> every is Err)
            &&& text::number_of(next, 18_446_744_073_709_551_615) is None ==> every is Err
            &&& probe::assignment_of(next) matches Ok(assignment) ==> set == Ok::<
                RunState,
                Seq<char>,
            >(RunState { initial: asked.initial.push(assignment), ..asked })
            &&& probe::assignment_of(next) is Err ==> set is Err
        }),
{
    options_differ();
    reveal_with_fuel(probe::run_of, 3);
    run_arguments_add_up(args, seq!["--leave"@], options, given);
    run_arguments_add_up(args, seq!["--every"@], options, given);
    run_arguments_add_up(args, seq!["--set"@], options, given);
    run_arguments_add_up(args, seq!["--every"@, next], options, given);
    run_arguments_add_up(args, seq!["--set"@, next], options, given);
    assert(seq!["--leave"@].skip(1) =~= Seq::<Seq<char>>::empty());
    assert(seq!["--every"@, next].skip(2) =~= Seq::<Seq<char>>::empty());
    assert(seq!["--set"@, next].skip(2) =~= Seq::<Seq<char>>::empty());
}

proof fn options_differ()
    ensures
        "--leave"@ != "--every"@,
        "--leave"@ != "--set"@,
        "--every"@ != "--set"@,
        "--leave"@[0] == '-',
        "--every"@[0] == '-',
        "--set"@[0] == '-',
        "--leave"@.len() > 0,
        "--every"@.len() > 0,
        "--set"@.len() > 0,
        "--"@.len() == 2,
        "--"@[0] == '-',
{
    reveal_strlit("--leave");
    reveal_strlit("--every");
    reveal_strlit("--set");
    reveal_strlit("--");
    assert("--leave"@[2] != "--every"@[2]);
    assert("--leave"@[2] != "--set"@[2]);
    assert("--every"@[2] != "--set"@[2]);
}

/// A positive number in front is how many minutes a run lasts, and changes
/// nothing else; where the minutes were given it is refused, so that they are
/// given once.
pub proof fn a_number_is_the_minutes_of_a_run(
    minutes: Seq<char>,
    args: Seq<Seq<char>>,
    options: RunState,
)
    requires
        text::number_of(minutes, 18_446_744_073_709_551_615) is Some,
    ensures
        ({
            let n = text::number_of(minutes, 18_446_744_073_709_551_615)->0;
            &&& n > 0 ==> probe::run_of(seq![minutes] + args, options, false) == probe::run_of(
                args,
                RunState { length: (n * 60_000_000_000) as u128, ..options },
                true,
            )
            &&& n == 0 ==> probe::run_of(seq![minutes] + args, options, false) is Err
            &&& probe::run_of(seq![minutes] + args, options, true) is Err
        }),
{
    options_differ();
    let all = seq![minutes] + args;
    assert(all[0] == minutes);
    assert(all.skip(1) =~= args);
    if minutes.len() > 0 && minutes[0] == '-' {
        wording::only_digits_spell_a_number(minutes, u64::MAX as int, 0);
    }
    if minutes.len() == 0 {
        assert(minutes =~= Seq::<char>::empty());
        wording::only_digits_spell_a_number(seq!['-'], u64::MAX as int, 0);
    }
    assert(!"--"@.is_prefix_of(minutes)) by {
        if "--"@.is_prefix_of(minutes) {
            assert("--"@[0] == minutes.take(2)[0]);
        }
    }
    wording::a_number_is_in_its_range(minutes, u64::MAX as int);
    let n = text::number_of(minutes, u64::MAX as int)->0;
    assert(n * 60 * 1_000_000_000 == n * 60_000_000_000);
}

/// Once the minutes are given, nothing changes how long a run lasts, and what
/// was asked of groups before stays in front.
pub proof fn minutes_are_given_once(args: Seq<Seq<char>>, options: RunState, given: bool)
    ensures
        probe::run_of(args, options, given) matches Ok(asked) ==> {
            &&& given ==> asked.length == options.length
            &&& options.initial.is_prefix_of(asked.initial)
            &&& options.leave ==> asked.leave
        },
    decreases args.len(),
{
    if args.len() > 0 {
        if args[0] == "--leave"@ {
            minutes_are_given_once(args.skip(1), RunState { leave: true, ..options }, given);
        } else if args[0] == "--every"@ {
            if args.len() >= 2 {
                match text::number_of(args[1], u64::MAX as int) {
                    Some(n) => {
                        minutes_are_given_once(
                            args.skip(2),
                            RunState { every: (n * 1_000_000_000) as u128, ..options },
                            given,
                        );
                    },
                    None => {},
                }
            }
        } else if args[0] == "--set"@ {
            if args.len() >= 2 {
                match probe::assignment_of(args[1]) {
                    Ok(assignment) => {
                        minutes_are_given_once(
                            args.skip(2),
                            RunState { initial: options.initial.push(assignment), ..options },
                            given,
                        );
                    },
                    Err(_) => {},
                }
            }
        } else if !given && !"--"@.is_prefix_of(args[0]) {
            match text::number_of(args[0], u64::MAX as int) {
                Some(n) => {
                    minutes_are_given_once(
                        args.skip(1),
                        RunState { length: (n * 60 * 1_000_000_000) as u128, ..options },
                        true,
                    );
                },
                None => {},
            }
        }
    }
}

/// Whether an address, as it is written, starts with a text.
pub open spec fn starts_with(mac: [u8; 6], prefix: Seq<char>) -> bool {
    &&& prefix.len() <= 17
    &&& text::mac_of(mac).take(prefix.len() as int) == prefix
}

/// A group is named by the start of its address, where no other address starts
/// with it; where two do, or none, it is refused.
pub proof fn a_group_is_named_by_the_start_of_its_address(
    macs: Seq<[u8; 6]>,
    prefix: Seq<char>,
    what: Seq<char>,
    i: int,
    j: int,
)
    requires
        macs.no_duplicates(),
    ensures
        0 <= i < macs.len() && starts_with(macs[i], prefix) && (forall|k: int|
            0 <= k < macs.len() && k != i ==> !starts_with(#[trigger] macs[k], prefix))
            ==> probe::resolved(macs, prefix, what) == Ok::<[u8; 6], Seq<char>>(macs[i]),
        0 <= i < j < macs.len() && starts_with(macs[i], prefix) && starts_with(macs[j], prefix)
            ==> probe::resolved(macs, prefix, what) is Err,
        (forall|k: int| 0 <= k < macs.len() ==> !starts_with(#[trigger] macs[k], prefix))
            ==> probe::resolved(macs, prefix, what) == Err::<[u8; 6], Seq<char>>(
            "no "@ + what + " starts with "@ + "'"@ + prefix + "'"@ + "; groups: "@
                + text::joined_of(probe::names_of(macs), ", "@),
        ),
{
    let starts = |mac: [u8; 6]| prefix.is_prefix_of(text::mac_of(mac));
    assert forall|mac: [u8; 6]| #[trigger] starts(mac) == starts_with(mac, prefix) by {
        wording::an_address_is_written_byte_by_byte(mac, 0);
        if starts(mac) {
            assert(text::mac_of(mac).take(prefix.len() as int) =~= prefix);
        }
        if starts_with(mac, prefix) {
            assert(text::mac_of(mac).subrange(0, prefix.len() as int) =~= prefix);
        }
    }
    let matching = probe::matching_of(macs, prefix);
    assert(matching == macs.filter(starts));
    lists::filtered(macs, starts);
    lists::filter_keeps_apart(macs, starts);
    if forall|k: int| 0 <= k < macs.len() ==> !starts_with(#[trigger] macs[k], prefix) {
        if matching.len() > 0 {
            assert(matching.contains(matching[0]));
        }
    }
    if 0 <= i < macs.len() && starts_with(macs[i], prefix) {
        assert(starts(macs[i]));
        assert(macs.contains(macs[i]));
        assert(matching.contains(macs[i]));
        if forall|k: int|
            0 <= k < macs.len() && k != i ==> !starts_with(#[trigger] macs[k], prefix) {
            assert forall|k: int| 0 <= k < matching.len() implies #[trigger] matching[k]
                == macs[i] by {
                assert(matching.contains(matching[k]));
                let at = choose|at: int| 0 <= at < macs.len() && macs[at] == matching[k];
                assert(starts(macs[at]));
            }
            if matching.len() > 1 {
                assert(matching[0] == matching[1]);
            }
        }
    }
    if 0 <= i < j < macs.len() && starts_with(macs[i], prefix) && starts_with(macs[j], prefix) {
        assert(starts(macs[j]));
        assert(macs.contains(macs[j]));
        assert(matching.contains(macs[j]));
        assert(macs[i] != macs[j]);
        let a = choose|a: int| 0 <= a < matching.len() && matching[a] == macs[i];
        let b = choose|b: int| 0 <= b < matching.len() && matching[b] == macs[j];
        assert(a != b);
    }
}

/// A refusal of a start that is not the only one names those that have it, in
/// their order.
pub proof fn a_refusal_names_the_groups_that_match(
    macs: Seq<[u8; 6]>,
    next: [u8; 6],
    prefix: Seq<char>,
    what: Seq<char>,
)
    ensures
        probe::matching_of(Seq::empty(), prefix).len() == 0,
        starts_with(next, prefix) ==> probe::matching_of(macs.push(next), prefix)
            == probe::matching_of(macs, prefix).push(next),
        !starts_with(next, prefix) ==> probe::matching_of(macs.push(next), prefix)
            == probe::matching_of(macs, prefix),
        probe::matching_of(macs, prefix).len() > 1 ==> probe::resolved(macs, prefix, what) == Err::<
            [u8; 6],
            Seq<char>,
        >(
            ""@ + "'"@ + prefix + "'"@ + " matches "@ + text::joined_of(
                probe::names_of(probe::matching_of(macs, prefix)),
                ", "@,
            ),
        ),
{
    reveal(Seq::filter);
    assert(macs.push(next).drop_last() =~= macs);
    wording::an_address_is_written_byte_by_byte(next, 0);
    let written = text::mac_of(next);
    if prefix.is_prefix_of(written) {
        assert(written.take(prefix.len() as int) =~= prefix);
    }
    if starts_with(next, prefix) {
        assert(written.subrange(0, prefix.len() as int) =~= prefix);
    }
}

/// A line typed during a run, white space around it and the case of its
/// letters aside, asks to stop where it is `q` or `quit`, for nothing where it
/// is empty, and for nothing that can be done where it is one word.
pub proof fn what_one_word_asks_for(macs: Seq<[u8; 6]>, line: Seq<char>)
    ensures
        ({
            let word = text::lowered_of(text::trimmed(line));
            &&& word == "q"@ || word == "quit"@ ==> probe::typed_of(macs, line) is Quit
            &&& word != "q"@ && word != "quit"@ ==> !(probe::typed_of(macs, line) is Quit)
            &&& word.len() == 0 ==> probe::typed_of(macs, line) is Nothing
            &&& word.len() > 0 && word != "q"@ && word != "quit"@ && !word.contains(' ')
                ==> probe::typed_of(macs, line) == TypedState::Say(
                "type '<group> <percent>' or 'q'"@,
            )
        }),
{
    reveal_strlit("q");
    reveal_strlit("quit");
    let word = text::lowered_of(text::trimmed(line));
    if !word.contains(' ') {
        the_first_mark_is_found(word, Seq::empty(), ' ');
    }
}

/// A line of two parts, with a space between them, asks for a percentage on
/// the group that the first names: where it names one and the second is a
/// percentage up to a hundred.
pub proof fn what_two_words_ask_for(
    macs: Seq<[u8; 6]>,
    line: Seq<char>,
    group: Seq<char>,
    percent: Seq<char>,
)
    requires
        text::lowered_of(text::trimmed(line)) == group + seq![' '] + percent,
        !group.contains(' '),
    ensures
        match (
            probe::resolved(macs, group, "group"@),
            text::number_of(text::trimmed(percent), 100),
        ) {
            (Ok(mac), Some(n)) => probe::typed_of(macs, line) matches TypedState::Ask(whose, what)
                && whose == mac && what == n,
            (Ok(_), None) => probe::typed_of(macs, line) == TypedState::Say(
                ""@ + "'"@ + percent + "'"@ + " is not a percent from 0 to 100"@,
            ),
            (Err(message), _) => probe::typed_of(macs, line) == TypedState::Say(message),
        },
{
    reveal_strlit("q");
    reveal_strlit("quit");
    let word = group + seq![' '] + percent;
    assert(word[group.len() as int] == ' ');
    the_first_mark_is_found(group, percent, ' ');
    wording::a_number_is_in_its_range(text::trimmed(percent), 100);
}

/// What is asked of a group at the start of a run is asked of the one that is
/// named, at the percentage that is given.
pub proof fn what_is_asked_at_the_start(macs: Seq<[u8; 6]>, prefix: Seq<char>, percent: u8)
    ensures
        match probe::resolved(macs, prefix, "group"@) {
            Ok(mac) => run::first_ask(macs, prefix, percent) == TypedState::Ask(mac, percent),
            Err(message) => run::first_ask(macs, prefix, percent) == TypedState::Say(message),
        },
{
}

/// The groups that can be named are those of the snapshot.
pub proof fn the_groups_of_the_snapshot_can_be_named(snapshot: SnapshotState, i: int)
    requires
        0 <= i < snapshot.groups.len(),
    ensures
        probe::macs_in(snapshot).len() == snapshot.groups.len(),
        probe::macs_in(snapshot)[i] == snapshot.groups[i].mac,
{
}

/// A run that does not leave its targets in place puts every group it started
/// with back to the duty it started with.
pub proof fn every_group_is_put_back(first: SnapshotState, last: SnapshotState, i: int)
    requires
        0 <= i < first.groups.len(),
    ensures
        probe::confirmed_of(false, first, last).len() == first.groups.len(),
        probe::confirmed_of(false, first, last)[i].0 == first.groups[i].mac,
        probe::confirmed_of(false, first, last)[i].1 == first.groups[i].duty,
{
}

/// A run that leaves its targets in place confirms the last target of every
/// group that has one, in their order, and nothing on the others.
pub proof fn every_last_target_is_confirmed(
    first: SnapshotState,
    last: SnapshotState,
    next: GroupState,
)
    ensures
        ({
            let before = probe::confirmed_of(true, first, last);
            let after = probe::confirmed_of(
                true,
                first,
                SnapshotState { groups: last.groups.push(next), ..last },
            );
            &&& next.target matches Some(target) ==> after == before.push((next.mac, target))
            &&& next.target is None ==> after == before
            &&& last.groups.len() == 0 ==> before.len() == 0
        }),
{
    reveal(Seq::filter);
    let aimed = |g: GroupState| g.target is Some;
    let pair = |g: GroupState| (g.mac, g.target->0);
    assert(last.groups.push(next).drop_last() =~= last.groups);
    let before = probe::confirmed_of(true, first, last);
    let after = probe::confirmed_of(
        true,
        first,
        SnapshotState { groups: last.groups.push(next), ..last },
    );
    if next.target is Some {
        assert(last.groups.push(next).filter(aimed) =~= last.groups.filter(aimed).push(next));
        assert(after =~= before.push((next.mac, next.target->0)));
    }
}

/// Each refusal of a discovery says what is wrong with it.
pub proof fn what_a_refused_discovery_is_told(
    args: Seq<Seq<char>>,
    options: DiscoverOptions,
    next: Seq<char>,
)
    requires
        probe::discover_of(args, options) is Ok,
    ensures
        probe::discover_of(args + seq!["--polls"@], options) == Err::<DiscoverOptions, Seq<char>>(
            "--polls needs a number"@,
        ),
        text::number_of(next, 4_294_967_295) is None || text::number_of(next, 4_294_967_295)
            == Some(0int) ==> probe::discover_of(args + seq!["--polls"@, next], options) == Err::<
            DiscoverOptions,
            Seq<char>,
        >("--polls: "@ + "'"@ + next + "'"@ + " is not a positive number"@),
        next != "--share"@ && next != "--polls"@ ==> probe::discover_of(
            args + seq![next],
            options,
        ) == Err::<DiscoverOptions, Seq<char>>("unknown option "@ + "'"@ + next + "'"@ + ""@),
{
    reveal_strlit("--share");
    reveal_strlit("--polls");
    assert("--share"@[2] != "--polls"@[2]);
    discovery_arguments_add_up(args, seq!["--polls"@], options);
    discovery_arguments_add_up(args, seq!["--polls"@, next], options);
    discovery_arguments_add_up(args, seq![next], options);
}

/// Each refusal of a run says what is wrong with it.
pub proof fn what_a_refused_run_is_told(
    args: Seq<Seq<char>>,
    options: RunState,
    given: bool,
    next: Seq<char>,
)
    requires
        probe::run_of(args, options, given) is Ok,
    ensures
        probe::run_of(args + seq!["--every"@], options, given) == Err::<RunState, Seq<char>>(
            "--every needs a number of seconds"@,
        ),
        probe::run_of(args + seq!["--set"@], options, given) == Err::<RunState, Seq<char>>(
            "--set needs <group>=<percent>"@,
        ),
        text::number_of(next, 18_446_744_073_709_551_615) is None || text::number_of(
            next,
            18_446_744_073_709_551_615,
        ) == Some(0int) ==> probe::run_of(args + seq!["--every"@, next], options, given) == Err::<
            RunState,
            Seq<char>,
        >("--every: "@ + "'"@ + next + "'"@ + " is not a positive number"@),
        probe::assignment_of(next) matches Err(message) ==> probe::run_of(
            args + seq!["--set"@, next],
            options,
            given,
        ) == Err::<RunState, Seq<char>>(message),
        "--"@.is_prefix_of(next) && next != "--leave"@ && next != "--every"@ && next != "--set"@
            ==> probe::run_of(args + seq![next], options, given) == Err::<RunState, Seq<char>>(
            "unexpected argument "@ + "'"@ + next + "'"@ + ""@,
        ),
{
    options_differ();
    run_arguments_add_up(args, seq!["--every"@], options, given);
    run_arguments_add_up(args, seq!["--set"@], options, given);
    run_arguments_add_up(args, seq!["--every"@, next], options, given);
    run_arguments_add_up(args, seq!["--set"@, next], options, given);
    run_arguments_add_up(args, seq![next], options, given);
}

/// What stands where the minutes may is refused as minutes, and as unexpected
/// once they are given.
pub proof fn what_refused_minutes_are_told(
    next: Seq<char>,
    args: Seq<Seq<char>>,
    options: RunState,
)
    requires
        !"--"@.is_prefix_of(next),
        next != "--leave"@,
        next != "--every"@,
        next != "--set"@,
    ensures
        text::number_of(next, 18_446_744_073_709_551_615) is None || text::number_of(
            next,
            18_446_744_073_709_551_615,
        ) == Some(0int) ==> probe::run_of(seq![next] + args, options, false) == Err::<
            RunState,
            Seq<char>,
        >(""@ + "'"@ + next + "'"@ + " is not a positive number of minutes"@),
        probe::run_of(seq![next] + args, options, true) == Err::<RunState, Seq<char>>(
            "unexpected argument "@ + "'"@ + next + "'"@ + ""@,
        ),
{
    assert((seq![next] + args)[0] == next);
}

/// Each refusal of an assignment says what is wrong with it.
pub proof fn what_a_refused_assignment_is_told(group: Seq<char>, percent: Seq<char>)
    requires
        !group.contains('='),
    ensures
        probe::assignment_of(group) == Err::<(Seq<char>, u8), Seq<char>>(
            ""@ + "'"@ + group + "'"@ + " is not <group>=<percent>"@,
        ),
        text::number_of(percent, 100) is None ==> probe::assignment_of(group + seq!['='] + percent)
            == Err::<(Seq<char>, u8), Seq<char>>(
            ""@ + "'"@ + percent + "'"@ + " is not a percent from 0 to 100"@,
        ),
{
    the_first_mark_is_found(group, percent, '=');
}

} // verus!
