//! What holds between the library and the system it runs on: which devices
//! are dongles, which of their pipes are used, how long a transfer may take,
//! and how the system's records lie in their bytes.

use crate::clock;
use crate::device;
use crate::device::{Error, Pipe, Timeouts};
use crate::enumerate;
use crate::enumerate::{Event, Role, Step};
use crate::process;
use crate::text;
use crate::win;
use crate::win::{GUID, SP_DEVICE_INTERFACE_DATA, WINUSB_PIPE_INFORMATION};
use crate::wording;
use vstd::prelude::*;

verus! {

/// Pipes of type two are bulk, those of type three interrupt, and no other
/// can be used; a pipe keeps its address and its packet size.
pub proof fn a_pipe_is_bulk_or_interrupt(info: WINUSB_PIPE_INFORMATION)
    ensures
        device::pipe_in(info) is Ok <==> info.PipeType == 2 || info.PipeType == 3,
        device::pipe_in(info) matches Ok(pipe) ==> pipe.id == info.PipeId && pipe.max_packet
            == info.MaximumPacketSize && (pipe.transfer is Bulk <==> info.PipeType == 2) && (
        pipe.transfer is Interrupt <==> info.PipeType == 3),
        device::pipe_in(info) matches Err(error) ==> error == Error::PipeType(
            info.PipeId,
            info.PipeType,
        ),
{
}

/// Whether a pipe is the first of some with its address.
pub open spec fn is_first(pipes: Seq<Pipe>, id: u8, i: int) -> bool {
    &&& 0 <= i < pipes.len()
    &&& pipes[i].id == id
    &&& forall|j: int| 0 <= j < i ==> (#[trigger] pipes[j]).id != id
}

/// Whether some pipe has an address.
pub open spec fn has_pipe(pipes: Seq<Pipe>, id: u8) -> bool {
    exists|i: int| 0 <= i < pipes.len() && (#[trigger] pipes[i]).id == id
}

/// A pipe that is looked for by its address is the first that has it.
proof fn the_first_is_found(pipes: Seq<Pipe>, id: u8)
    ensures
        match device::pipe_with(pipes, id) {
            Some(pipe) => exists|i: int| #[trigger] is_first(pipes, id, i) && pipes[i] == pipe,
            None => !has_pipe(pipes, id),
        },
    decreases pipes.len(),
{
    if pipes.len() > 0 {
        let front = pipes.drop_last();
        the_first_is_found(front, id);
        match device::pipe_with(front, id) {
            Some(pipe) => {
                let i = choose|i: int| #[trigger] is_first(front, id, i) && front[i] == pipe;
                assert forall|j: int| 0 <= j < i implies (#[trigger] pipes[j]).id != id by {
                    assert(front[j] == pipes[j]);
                }
                assert(is_first(pipes, id, i));
            },
            None => {
                assert forall|j: int| 0 <= j < front.len() implies (#[trigger] pipes[j]).id
                    != id by {
                    assert(front[j] == pipes[j]);
                }
                if pipes.last().id == id {
                    assert(is_first(pipes, id, pipes.len() - 1));
                }
            },
        }
    }
}

/// Frames go out on the first pipe with the address one and replies come in
/// on the first with the address 129; where either is missing, that is what
/// is said, of the first of the two.
pub proof fn the_first_pipe_with_each_address_is_used(pipes: Seq<Pipe>, i: int, j: int)
    ensures
        is_first(pipes, 1, i) && is_first(pipes, 129, j) ==> device::chosen_of(pipes)
            == Ok::<(Pipe, Pipe), Error>((pipes[i], pipes[j])),
        !has_pipe(pipes, 1) ==> device::chosen_of(pipes) == Err::<(Pipe, Pipe), Error>(
            Error::NoPipe(1),
        ),
        has_pipe(pipes, 1) && !has_pipe(pipes, 129) ==> device::chosen_of(pipes) == Err::<
            (Pipe, Pipe),
            Error,
        >(Error::NoPipe(129)),
{
    the_first_is_found(pipes, 1);
    the_first_is_found(pipes, 129);
    if is_first(pipes, 1, i) && is_first(pipes, 129, j) {
        assert(has_pipe(pipes, 1));
        assert(has_pipe(pipes, 129));
        let a = choose|k: int|
            #[trigger] is_first(pipes, 1, k) && pipes[k] == device::pipe_with(pipes, 1)->0;
        assert(a == i);
        let b = choose|k: int|
            #[trigger] is_first(pipes, 129, k) && pipes[k] == device::pipe_with(pipes, 129)->0;
        assert(b == j);
    }
}

/// A timeout is cut to whole milliseconds, never to none, and one that would
/// not fit is as long as can be.
pub proof fn a_timeout_is_cut_to_milliseconds(timeout: u128)
    ensures
        timeout < 2_000_000 ==> device::millis_of(timeout) == 1,
        1_000_000 <= timeout < 4_294_967_296_000_000 ==> device::millis_of(timeout) * 1_000_000
            <= timeout < (device::millis_of(timeout) + 1) * 1_000_000,
        timeout >= 4_294_967_295_000_000 ==> device::millis_of(timeout) == 4_294_967_295,
{
}

/// The pipe with the address 129 has the timeout for reads, any other that for
/// writes.
pub proof fn reads_and_writes_have_their_own_timeouts(timeouts: Timeouts, pipe: u8)
    ensures
        timeouts.of(129) == timeouts.read,
        pipe != 129 ==> timeouts.of(pipe) == timeouts.write,
{
}

/// An ordinary transfer may take five seconds, and a flush waits five
/// milliseconds for each stale frame.
pub proof fn how_long_a_transfer_may_take()
    ensures
        device::millis_of(device::TIMEOUT) == 5000,
        device::millis_of(device::FLUSH_WAIT) == 5,
{
}

/// Whether a device path holds the dongles' vendor id at a place, and a
/// product id behind it, whatever the case of its letters.
pub open spec fn names_vendor_at(path: Seq<char>, at: int) -> bool {
    &&& 0 <= at
    &&& at + 13 <= path.len()
    &&& text::lowered_of(path).subrange(at, at + 13) == "vid_0416&pid_"@
}

/// A path whose first mention of the vendor stands before 8040 is the
/// transmitter's, one where it stands before 8041 the receiver's, and no other
/// is a dongle's; the case of letters does not matter.
pub proof fn the_product_behind_the_vendor_is_the_role(path: Seq<char>, at: int)
    requires
        names_vendor_at(path, at),
        forall|k: int| 0 <= k < at ==> !#[trigger] names_vendor_at(path, k),
    ensures
        at + 17 > path.len() ==> enumerate::role_of(path) is None,
        at + 17 <= path.len() ==> {
            let product = text::lowered_of(path).subrange(at + 13, at + 17);
            &&& enumerate::role_of(path) == Some(Role::Transmitter) <==> product == "8040"@
            &&& enumerate::role_of(path) == Some(Role::Receiver) <==> product == "8041"@
        },
{
    the_marks();
    let lower = text::lowered_of(path);
    let mark = enumerate::vendor_mark();
    wording::a_part_is_found_where_it_first_stands(lower, mark, 0, at);
    let found = text::place_of(lower, mark, 0)->0;
    if found < at {
        assert(names_vendor_at(path, found));
    }
    assert(found == at);
    if at + 17 <= path.len() {
        assert(lower.skip(at + 13).take(4) =~= lower.subrange(at + 13, at + 17));
    }
}

/// A path that does not mention the vendor is no dongle's.
pub proof fn no_other_vendor_makes_a_dongle(path: Seq<char>)
    requires
        forall|k: int| !#[trigger] names_vendor_at(path, k),
    ensures
        enumerate::role_of(path) is None,
{
    the_marks();
    let lower = text::lowered_of(path);
    let mark = enumerate::vendor_mark();
    match text::place_of(lower, mark, 0) {
        Some(at) => {
            wording::a_part_found_stands(lower, mark, 0);
            assert(names_vendor_at(path, at));
        },
        None => {},
    }
}

/// The digits of the ids.
proof fn the_marks()
    ensures
        enumerate::vendor_mark() == "vid_0416&pid_"@,
        enumerate::vendor_mark().len() == 13,
        enumerate::hex4_of(enumerate::TRANSMITTER) == "8040"@,
        enumerate::hex4_of(enumerate::RECEIVER) == "8041"@,
        "8040"@ != "8041"@,
        "8040"@.len() == 4,
        "8041"@.len() == 4,
{
    reveal_strlit("vid_0416&pid_");
    reveal_strlit("vid_");
    reveal_strlit("&pid_");
    reveal_strlit("8040");
    reveal_strlit("8041");
    assert(enumerate::vendor_mark() =~= "vid_0416&pid_"@);
    assert(enumerate::hex4_of(enumerate::TRANSMITTER) =~= "8040"@);
    assert(enumerate::hex4_of(enumerate::RECEIVER) =~= "8041"@);
    assert("8040"@[3] != "8041"@[3]);
}

/// A path is found for a role where it is the only one that names it; where
/// none does, or more than one, that is said instead, with how many.
pub proof fn each_role_is_named_once(paths: Seq<Seq<char>>, role: Role, i: int, j: int)
    ensures
        0 <= i < paths.len() && enumerate::role_of(paths[i]) == Some(role) && (forall|k: int|
            0 <= k < paths.len() && k != i ==> enumerate::role_of(#[trigger] paths[k]) != Some(
                role,
            )) ==> enumerate::only_one(paths, role) == Ok::<Seq<char>, enumerate::Error>(paths[i]),
        (forall|k: int|
            0 <= k < paths.len() ==> enumerate::role_of(#[trigger] paths[k]) != Some(role))
            ==> enumerate::only_one(paths, role) == Err::<Seq<char>, enumerate::Error>(
            enumerate::Error::Missing(role),
        ),
        0 <= i < j < paths.len() && enumerate::role_of(paths[i]) == Some(role)
            && enumerate::role_of(paths[j]) == Some(role) ==> (enumerate::only_one(
            paths,
            role,
        ) matches Err(enumerate::Error::Several(of, _)) && of == role),
    decreases paths.len(),
{
    reveal(Seq::filter);
    how_many_name_a_role(paths, role);
    if paths.len() > 0 {
        let front = paths.drop_last();
        assert forall|k: int| 0 <= k < front.len() implies front[k] == #[trigger] paths[k] by {}
        each_role_is_named_once(front, role, i, j);
        how_many_name_a_role(front, role);
        if 0 <= i < j < paths.len() && enumerate::role_of(paths[i]) == Some(role)
            && enumerate::role_of(paths[j]) == Some(role) {
            if j == paths.len() - 1 {
                assert(front[i] == paths[i]);
                if enumerate::with_role(front, role).len() == 0 {
                    assert(enumerate::role_of(front[i]) != Some(role));
                }
            } else {
                assert(front[i] == paths[i] && front[j] == paths[j]);
            }
        }
        if 0 <= i < paths.len() && enumerate::role_of(paths[i]) == Some(role) && (forall|k: int|
            0 <= k < paths.len() && k != i ==> enumerate::role_of(#[trigger] paths[k]) != Some(
                role,
            )) {
            if i == paths.len() - 1 {
                assert forall|k: int| 0 <= k < front.len() implies enumerate::role_of(
                    #[trigger] front[k],
                ) != Some(role) by {
                    assert(front[k] == paths[k]);
                }
            } else {
                assert(front[i] == paths[i]);
                assert forall|k: int| 0 <= k < front.len() && k != i implies enumerate::role_of(
                    #[trigger] front[k],
                ) != Some(role) by {
                    assert(front[k] == paths[k]);
                }
                assert(enumerate::role_of(paths[paths.len() - 1]) != Some(role));
            }
        }
    }
}

/// Two paths that name a role are two, and every further one is one more; a
/// path that does not name it changes nothing.
pub proof fn every_path_that_names_a_role_counts(
    paths: Seq<Seq<char>>,
    next: Seq<char>,
    role: Role,
)
    requires
        paths.len() < usize::MAX,
    ensures
        enumerate::role_of(next) != Some(role) ==> enumerate::only_one(paths.push(next), role)
            == enumerate::only_one(paths, role),
        enumerate::role_of(next) == Some(role) ==> match enumerate::only_one(paths, role) {
            Err(enumerate::Error::Several(_, count)) => enumerate::only_one(
                paths.push(next),
                role,
            ) == Err::<Seq<char>, enumerate::Error>(
                enumerate::Error::Several(role, (count + 1) as usize),
            ),
            Ok(_) => enumerate::only_one(paths.push(next), role) == Err::<
                Seq<char>,
                enumerate::Error,
            >(enumerate::Error::Several(role, 2)),
            Err(_) => enumerate::only_one(paths.push(next), role) == Ok::<
                Seq<char>,
                enumerate::Error,
            >(next),
        },
{
    reveal(Seq::filter);
    assert(paths.push(next).drop_last() =~= paths);
    no_more_than_there_are(paths, role);
}

/// No more paths name a role than there are.
proof fn no_more_than_there_are(paths: Seq<Seq<char>>, role: Role)
    ensures
        enumerate::with_role(paths, role).len() <= paths.len(),
    decreases paths.len(),
{
    reveal(Seq::filter);
    if paths.len() > 0 {
        no_more_than_there_are(paths.drop_last(), role);
    }
}

/// No path is left where none names the role.
proof fn how_many_name_a_role(paths: Seq<Seq<char>>, role: Role)
    ensures
        enumerate::with_role(paths, role).len() == 0 <==> forall|k: int|
            0 <= k < paths.len() ==> enumerate::role_of(#[trigger] paths[k]) != Some(role),
    decreases paths.len(),
{
    reveal(Seq::filter);
    if paths.len() > 0 {
        let front = paths.drop_last();
        how_many_name_a_role(front, role);
        assert forall|k: int| 0 <= k < front.len() implies front[k] == #[trigger] paths[k] by {}
        if enumerate::with_role(paths, role).len() == 0 {
            assert forall|k: int| 0 <= k < paths.len() implies enumerate::role_of(
                #[trigger] paths[k],
            ) != Some(role) by {
                if k < front.len() {
                    assert(front[k] == paths[k]);
                }
            }
        } else if enumerate::with_role(front, role).len() > 0 {
            let k = choose|k: int|
                0 <= k < front.len() && enumerate::role_of(#[trigger] front[k]) == Some(role);
            assert(paths[k] == front[k]);
        } else {
            assert(enumerate::role_of(paths[paths.len() - 1]) == Some(role));
        }
    }
}

/// A pair takes one transmitter and one receiver; what is wrong with the
/// transmitter is said before what is wrong with the receiver.
pub proof fn a_pair_is_a_transmitter_and_a_receiver(paths: Seq<Seq<char>>)
    ensures
        match (
            enumerate::only_one(paths, Role::Transmitter),
            enumerate::only_one(paths, Role::Receiver),
        ) {
            (Ok(transmitter), Ok(receiver)) => enumerate::paired(paths) == Ok::<
                (Seq<char>, Seq<char>),
                enumerate::Error,
            >((transmitter, receiver)),
            (Err(error), _) => enumerate::paired(paths) == Err::<
                (Seq<char>, Seq<char>),
                enumerate::Error,
            >(error),
            (Ok(_), Err(error)) => enumerate::paired(paths) == Err::<
                (Seq<char>, Seq<char>),
                enumerate::Error,
            >(error),
        },
{
}

/// A record is read into words of four bytes that hold it, with less than one
/// to spare, but into eight bytes at least.
pub proof fn a_record_fits_its_words(required: u32)
    ensures
        enumerate::words_for(required) >= 2,
        4 * enumerate::words_for(required) >= required,
        required > 8 ==> 4 * enumerate::words_for(required) < required + 4,
        required <= 8 ==> enumerate::words_for(required) == 2,
{
}

/// A unit is two bytes, the lower first.
pub proof fn a_unit_is_two_bytes(raw: Seq<u8>, i: int)
    requires
        0 <= i < enumerate::units_in(raw).len(),
    ensures
        enumerate::units_in(raw).len() == raw.len() / 2,
        enumerate::units_in(raw)[i] == raw[2 * i] + 256 * raw[2 * i + 1],
{
}

/// Units end at the first zero: what stands before it is kept, unless there is
/// none, and then all of them are.
pub proof fn units_end_at_the_first_zero(units: Seq<u16>, at: int)
    requires
        0 <= at <= units.len(),
        forall|k: int| 0 <= k < at ==> #[trigger] units[k] != 0,
        at < units.len() ==> units[at] == 0,
    ensures
        win::before_zero(units) == units.take(at),
{
    win::zero_free_before_the_first_zero(units);
    let kept = win::before_zero(units);
    if kept.len() > at {
        assert(kept[at] == units[at]);
        assert(kept.contains(kept[at]));
    }
    if kept.len() < at {
        assert(units[kept.len() as int] == 0);
    }
    assert(kept =~= units.take(at));
}

/// The path in a record begins behind its first four bytes and ends at a unit
/// of zero: what stands in the first four bytes, and behind the zero, does not
/// matter.
pub proof fn a_path_lies_between_the_head_and_a_zero(record: Seq<u8>, at: int)
    requires
        record.len() >= 4,
        0 <= at <= (record.len() - 4) / 2,
        forall|k: int|
            0 <= k < at ==> #[trigger] record[4 + 2 * k] != 0 || record[5 + 2 * k] != 0,
        at < (record.len() - 4) / 2 ==> record[4 + 2 * at] == 0 && record[5 + 2 * at] == 0,
    ensures
        enumerate::path_in(record) == text::spelled(
            Seq::new(
                at as nat,
                |k: int| (record[4 + 2 * k] + 256 * record[5 + 2 * k]) as u16,
            ),
            0,
        ),
{
    let units = enumerate::units_in(record.skip(4));
    assert forall|k: int| 0 <= k < at implies #[trigger] units[k] != 0 by {
        assert(record[4 + 2 * k] != 0 || record[5 + 2 * k] != 0);
    }
    units_end_at_the_first_zero(units, at);
    assert(units.take(at) =~= Seq::new(
        at as nat,
        |k: int| (record[4 + 2 * k] + 256 * record[5 + 2 * k]) as u16,
    ));
}

/// A walk asks for one interface after the other, measures and reads each that
/// there is, and ends with code 259 and no other; a measure that does not fail
/// with code 122 fails the walk.
pub proof fn how_a_walk_goes_on(index: u32, event: Event)
    requires
        index < u32::MAX,
    ensures
        match event {
            Event::Found => enumerate::step_after(index, event) matches Ok(Step::Measure),
            Event::NotFound(error) => if error.code == 259 {
                enumerate::step_after(index, event) matches Ok(Step::Listed)
            } else {
                enumerate::step_after(index, event) == Err::<Step, win::WinError>(error)
            },
            Event::Measured(required, error) => if error.code == 122 {
                enumerate::step_after(index, event) matches Ok(Step::Read(words)) && required
                    <= 4 * words && 8 <= 4 * words && (4 * words < required + 4 || words == 2)
            } else {
                enumerate::step_after(index, event) == Err::<Step, win::WinError>(error)
            },
            Event::Record(_) => enumerate::step_after(index, event) matches Ok(Step::Find(next))
                && next == index + 1,
            Event::Unread(error) => enumerate::step_after(index, event) == Err::<
                Step,
                win::WinError,
            >(error),
        },
{
}

/// The codes that decide how the system's answers are taken, as the system
/// numbers them.
pub proof fn the_codes_are_the_systems()
    ensures
        win::ERROR_NO_MORE_FILES == 18,
        win::ERROR_SEM_TIMEOUT == 121,
        win::ERROR_INSUFFICIENT_BUFFER == 122,
        win::ERROR_NO_MORE_ITEMS == 259,
        win::AUTO_CLEAR_STALL == 2,
        win::PIPE_TRANSFER_TIMEOUT == 3,
        win::ALLOW_PARTIAL_READS == 5,
        win::DEVICE_INTERFACE_DETAIL_CB_SIZE == 8,
        win::DEVICE_INTERFACE_DETAIL_PATH_OFFSET == 4,
        win::DEVICE_INTERFACE_DATA_SIZE == 32,
{
}

/// A name of an interface lies in sixteen bytes: its numbers with the lowest
/// byte first, its last eight bytes in their order.
pub proof fn a_name_lies_in_sixteen_bytes(guid: GUID, k: int)
    requires
        0 <= k < 8,
    ensures
        ({
            let raw = guid.laid_out();
            &&& raw.len() == 16
            &&& raw[0] + 256 * raw[1] + 65536 * raw[2] + 16777216 * raw[3] == guid.Data1
            &&& raw[4] + 256 * raw[5] == guid.Data2
            &&& raw[6] + 256 * raw[7] == guid.Data3
            &&& raw[8 + k] == guid.Data4[k]
        }),
{
}

/// A record of an interface lies in 32 bytes: its size, the name of its class,
/// its flags and what is reserved, each with the lowest byte first.
pub proof fn an_interface_lies_in_its_bytes(data: SP_DEVICE_INTERFACE_DATA, k: int)
    requires
        0 <= k < 16,
    ensures
        ({
            let raw = data.laid_out();
            &&& raw.len() == 32
            &&& raw[0] + 256 * raw[1] + 65536 * raw[2] + 16777216 * raw[3] == data.cbSize
            &&& raw[4 + k] == data.InterfaceClassGuid.laid_out()[k]
            &&& raw[20] + 256 * raw[21] + 65536 * raw[22] + 16777216 * raw[23] == data.Flags
            &&& raw[24] + 256 * raw[25] + 65536 * raw[26] + 16777216 * raw[27] + 4294967296 * (
            raw[28] + 256 * raw[29] + 65536 * raw[30] + 16777216 * raw[31]) == data.Reserved
        }),
{
}

/// What is told of a pipe: its type in the first four bytes, the highest of
/// which carries the sign; its address in the fifth, its packet size in the
/// seventh and eighth, its interval in the ninth.
pub proof fn a_pipe_is_told_in_its_bytes(raw: Seq<u8>)
    requires
        raw.len() == 12,
    ensures
        ({
            let info = WINUSB_PIPE_INFORMATION::told_in(raw);
            let kind = raw[0] + 256 * raw[1] + 65536 * raw[2] + 16777216 * raw[3];
            &&& raw[3] < 128 ==> info.PipeType == kind
            &&& raw[3] >= 128 ==> info.PipeType == kind - 4294967296
            &&& info.PipeId == raw[4]
            &&& info.MaximumPacketSize == raw[6] + 256 * raw[7]
            &&& info.Interval == raw[8]
        }),
{
}

/// A program is running where its name is listed, whatever the case of its
/// letters, and only there.
pub proof fn a_program_is_found_by_its_name(names: Seq<String>, name: Seq<char>)
    ensures
        process::is_among(names, name) <==> exists|i: int|
            0 <= i < names.len() && #[trigger] same_letters(names[i]@, name),
{
    if process::is_among(names, name) {
        let i = choose|i: int|
            0 <= i < names.len() && text::lowered_of(#[trigger] names[i]@) == text::lowered_of(
                name,
            );
        one_lower_case(names[i]@, name);
        assert(same_letters(names[i]@, name));
    }
    if exists|i: int| 0 <= i < names.len() && #[trigger] same_letters(names[i]@, name) {
        let i = choose|i: int| 0 <= i < names.len() && #[trigger] same_letters(names[i]@, name);
        one_lower_case(names[i]@, name);
        assert(text::lowered_of(names[i]@) == text::lowered_of(name));
    }
}

/// Whether two texts are the same but for the case of letters from A to Z.
pub open spec fn same_letters(a: Seq<char>, b: Seq<char>) -> bool {
    &&& a.len() == b.len()
    &&& forall|i: int|
        #![trigger a[i], b[i]]
        0 <= i < a.len() ==> a[i] == b[i] || (65 <= a[i] as int <= 90 && b[i] as int == a[i] as int
            + 32) || (65 <= b[i] as int <= 90 && a[i] as int == b[i] as int + 32)
}

proof fn one_lower_case(a: Seq<char>, b: Seq<char>)
    ensures
        same_letters(a, b) <==> text::lowered_of(a) == text::lowered_of(b),
{
    let x = text::lowered_of(a);
    let y = text::lowered_of(b);
    if x == y {
        assert(x.len() == y.len());
        assert forall|i: int| #![trigger a[i], b[i]] 0 <= i < a.len() implies a[i] == b[i] || (65
            <= a[i] as int <= 90 && b[i] as int == a[i] as int + 32) || (65 <= b[i] as int <= 90
            && a[i] as int == b[i] as int + 32) by {
            wording::only_capital_letters_are_lowered(a, i);
            wording::only_capital_letters_are_lowered(b, i);
            assert(x[i] == y[i]);
        }
    }
    if same_letters(a, b) {
        assert forall|i: int| 0 <= i < x.len() implies x[i] == y[i] by {
            wording::only_capital_letters_are_lowered(a, i);
            wording::only_capital_letters_are_lowered(b, i);
            assert(a[i] == b[i] || a[i] != b[i]);
        }
        assert(x =~= y);
    }
}

/// A field of the system's time is its low byte; one below 256 stays.
pub proof fn a_field_of_the_time_stays(value: u16)
    ensures
        value < 256 ==> clock::low_byte(value) == value,
        value - clock::low_byte(value) == 256 * (value / 256),
{
}

} // verus!
