//! What is asked of each group, by address.

use crate::address;
use crate::address::number;
use std::collections::HashMap;
use vstd::prelude::*;

verus! {

/// The key under which a group is kept: its address as a number.
pub open spec fn key_of(mac: [u8; 6]) -> u64 {
    address::number_of(mac) as u64
}

/// Two groups have the same key only if they have the same address.
pub proof fn keys_tell_groups_apart(a: [u8; 6], b: [u8; 6])
    requires
        key_of(a) == key_of(b),
    ensures
        a == b,
{
    address::numbers_tell_addresses_apart(a, b);
}

/// The percentage asked of each group.
pub struct Wanted {
    percents: HashMap<u64, u8>,
}

impl View for Wanted {
    type V = Map<u64, u8>;

    closed spec fn view(&self) -> Map<u64, u8> {
        self.percents@
    }
}

impl Wanted {
    /// Nothing asked of any group.
    pub fn new() -> (wanted: Self)
        ensures
            wanted@ == Map::<u64, u8>::empty(),
    {
        broadcast use vstd::std_specs::hash::group_hash_axioms;

        Wanted { percents: HashMap::new() }
    }

    /// Asks for a percentage on a group.
    pub fn set(&mut self, mac: &[u8; 6], percent: u8)
        ensures
            final(self)@ == old(self)@.insert(key_of(*mac), percent),
    {
        broadcast use vstd::std_specs::hash::group_hash_axioms;

        self.percents.insert(number(mac), percent);
    }

    /// What is asked of a group.
    pub fn get(&self, mac: &[u8; 6]) -> (percent: Option<u8>)
        ensures
            percent == if self@.contains_key(key_of(*mac)) {
                Some(self@[key_of(*mac)])
            } else {
                None
            },
    {
        broadcast use vstd::std_specs::hash::group_hash_axioms;

        match self.percents.get(&number(mac)) {
            Some(percent) => Some(*percent),
            None => None,
        }
    }

    /// Asks nothing more of a group. Says whether anything was asked.
    pub fn remove(&mut self, mac: &[u8; 6]) -> (asked: bool)
        ensures
            final(self)@ == old(self)@.remove(key_of(*mac)),
            asked == old(self)@.contains_key(key_of(*mac)),
    {
        broadcast use vstd::std_specs::hash::group_hash_axioms;

        self.percents.remove(&number(mac)).is_some()
    }
}

} // verus!
