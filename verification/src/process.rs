//! Which programs are running, for the check that keeps two owners off
//! the dongle.

use crate::text;
use crate::win;
use crate::win::{WinError, ERROR_NO_MORE_FILES};
use vstd::prelude::*;

verus! {

/// The L-Connect service, which holds the dongle whenever it runs.
pub const LCONNECT_SERVICE: &'static str = "L-Connect-Service.exe";

/// Whether a name is among others, but for the case of ASCII letters.
pub open spec fn is_among(names: Seq<String>, name: Seq<char>) -> bool {
    exists|i: int|
        0 <= i < names.len() && text::lowered_of(#[trigger] names[i]@) == text::lowered_of(name)
}

/// Whether a process with this executable name is among those listed, where
/// listing them did not fail. The comparison ignores ASCII case.
pub fn running(listed: Result<Vec<String>, WinError>, name: &str) -> (r: Result<bool, WinError>)
    ensures
        match listed {
            Err(error) => r == Err::<bool, WinError>(error),
            Ok(names) => r == Ok::<bool, WinError>(is_among(names@, name@)),
        },
{
    let names = match listed {
        Ok(names) => names,
        Err(error) => {
            return Err(error);
        },
    };
    let mut i: usize = 0;
    while i < names.len()
        invariant
            0 <= i <= names.len(),
            listed == Ok::<Vec<String>, WinError>(names),
            forall|k: int|
                0 <= k < i ==> text::lowered_of(#[trigger] names@[k]@) != text::lowered_of(name@),
        decreases names.len() - i,
    {
        if text::same_but_case(names[i].as_str(), name) {
            assert(text::lowered_of(names@[i as int]@) == text::lowered_of(name@));
            assert(is_among(names@, name@));
            return Ok(true);
        }
        i += 1;
    }
    assert(!is_among(names@, name@));
    Ok(false)
}

/// The executable name in an entry of the process list: UTF-16 up to a zero.
pub fn entry_name(units: &[u16]) -> (name: String)
    ensures
        name@ == text::spelled(win::before_zero(units@), 0),
{
    text::spell(&win::until_zero(units))
}

/// What the end of the walk through the processes means: running out of them
/// is none, anything else fails the listing.
pub fn walk_end(error: WinError) -> (r: Result<(), WinError>)
    ensures
        r == if error.code == ERROR_NO_MORE_FILES {
            Ok::<(), WinError>(())
        } else {
            Err(error)
        },
{
    if error.code != ERROR_NO_MORE_FILES {
        Err(error)
    } else {
        Ok(())
    }
}

} // verus!
