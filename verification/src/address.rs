//! Addresses of groups and dongles: their numbers and their order.

use crate::bytes::same;
use vstd::prelude::*;
use vstd::relations::{sorted_by, total_ordering};

verus! {

/// An address as a number, first byte most significant.
pub open spec fn number_of(mac: [u8; 6]) -> int {
    ((((mac[0] * 256 + mac[1]) * 256 + mac[2]) * 256 + mac[3]) * 256 + mac[4]) * 256 + mac[5]
}

/// An address as a number, first byte most significant.
pub fn number(mac: &[u8; 6]) -> (n: u64)
    ensures
        n == number_of(*mac),
{
    ((((mac[0] as u64 * 256 + mac[1] as u64) * 256 + mac[2] as u64) * 256 + mac[3] as u64) * 256
        + mac[4] as u64) * 256 + mac[5] as u64
}

/// Two addresses with the same number are the same.
pub proof fn numbers_tell_addresses_apart(a: [u8; 6], b: [u8; 6])
    requires
        number_of(a) == number_of(b),
    ensures
        a == b,
{
    let a1 = a[0] * 256 + a[1];
    let b1 = b[0] * 256 + b[1];
    let a2 = a1 * 256 + a[2];
    let b2 = b1 * 256 + b[2];
    let a3 = a2 * 256 + a[3];
    let b3 = b2 * 256 + b[3];
    let a4 = a3 * 256 + a[4];
    let b4 = b3 * 256 + b[4];
    last_digit(a4, a[5], b4, b[5]);
    last_digit(a3, a[4], b3, b[4]);
    last_digit(a2, a[3], b2, b[3]);
    last_digit(a1, a[2], b1, b[2]);
    last_digit(a[0] as int, a[1], b[0] as int, b[1]);
    assert(a =~= b);
}

proof fn last_digit(x: int, p: u8, y: int, q: u8)
    requires
        x * 256 + p == y * 256 + q,
    ensures
        x == y,
        p == q,
{
}

/// The order of addresses: that of their numbers, which is the order byte by
/// byte.
pub open spec fn up_to() -> spec_fn([u8; 6], [u8; 6]) -> bool {
    |a: [u8; 6], b: [u8; 6]| number_of(a) <= number_of(b)
}

/// The order of addresses is total.
pub proof fn addresses_are_ordered()
    ensures
        total_ordering(up_to()),
{
    assert forall|a: [u8; 6], b: [u8; 6]| #[trigger] up_to()(a, b) && #[trigger] up_to()(b, a) implies a
        == b by {
        numbers_tell_addresses_apart(a, b);
    }
}

/// Addresses in ascending order.
pub open spec fn ascending(macs: Seq<[u8; 6]>) -> Seq<[u8; 6]> {
    macs.sort_by(up_to())
}

/// Addresses in ascending order.
pub fn sort(macs: &[[u8; 6]]) -> (sorted: Vec<[u8; 6]>)
    ensures
        sorted@ == ascending(macs@),
{
    let mut sorted: Vec<[u8; 6]> = Vec::new();
    let mut i: usize = 0;
    proof {
        addresses_are_ordered();
        assert(macs@.take(0) =~= Seq::<[u8; 6]>::empty());
    }
    while i < macs.len()
        invariant
            0 <= i <= macs.len(),
            sorted@.len() == i,
            sorted_by(sorted@, up_to()),
            sorted@.to_multiset() == macs@.take(i as int).to_multiset(),
            total_ordering(up_to()),
        decreases macs.len() - i,
    {
        let mac = macs[i];
        let value: u64 = number(&mac);
        let mut at: usize = sorted.len();
        while at > 0 && number(&sorted[at - 1]) > value
            invariant
                0 <= at <= sorted.len(),
                value == number_of(mac),
                sorted_by(sorted@, up_to()),
                at < sorted.len() ==> number_of(sorted@[at as int]) > value,
            decreases at,
        {
            at -= 1;
        }
        proof {
            broadcast use vstd::seq_lib::group_to_multiset_ensures;

            let before = sorted@;
            let after = before.insert(at as int, mac);
            assert(macs@.take(i + 1) =~= macs@.take(i as int).push(mac));
            assert(after.remove(at as int) =~= before);
            assert(after[at as int] == mac);
            assert(after.to_multiset().count(mac) > 0);
            assert(after.to_multiset() =~= before.to_multiset().insert(mac));
            assert forall|a: int, b: int| 0 <= a < b < after.len() implies #[trigger] up_to()(
                after[a],
                after[b],
            ) by {
                let x = if a < at {
                    a
                } else {
                    a - 1
                };
                let y = if b < at {
                    b
                } else {
                    b - 1
                };
                if a != at && b != at {
                    assert(up_to()(before[x], before[y]));
                } else if a == at && y > at {
                    assert(up_to()(before[at as int], before[y]));
                } else if b == at && x < at - 1 {
                    assert(up_to()(before[x], before[at - 1]));
                }
            }
        }
        sorted.insert(at, mac);
        i += 1;
    }
    proof {
        assert(macs@.take(i as int) =~= macs@);
        macs@.lemma_sort_by_ensures(up_to());
        vstd::seq_lib::lemma_sorted_unique(sorted@, ascending(macs@), up_to());
    }
    sorted
}

/// Sorting keeps the addresses and puts the smaller before the larger.
pub proof fn ascending_is_ascending(macs: Seq<[u8; 6]>)
    ensures
        ascending(macs).to_multiset() == macs.to_multiset(),
        ascending(macs).len() == macs.len(),
        forall|mac: [u8; 6]| ascending(macs).contains(mac) <==> macs.contains(mac),
        forall|i: int, j: int|
            0 <= i < j < ascending(macs).len() ==> number_of(#[trigger] ascending(macs)[i])
                <= number_of(#[trigger] ascending(macs)[j]),
{
    broadcast use vstd::seq_lib::group_to_multiset_ensures;

    addresses_are_ordered();
    macs.lemma_sort_by_ensures(up_to());
    let sorted = ascending(macs);
    assert(sorted.to_multiset().len() == macs.to_multiset().len());
    assert forall|mac: [u8; 6]| sorted.contains(mac) <==> macs.contains(mac) by {
        assert(sorted.to_multiset().count(mac) == macs.to_multiset().count(mac));
    }
    assert forall|i: int, j: int| 0 <= i < j < sorted.len() implies number_of(#[trigger] sorted[i])
        <= number_of(#[trigger] sorted[j]) by {
        assert(up_to()(sorted[i], sorted[j]));
    }
}

/// Whether an address is in a list.
pub fn holds(macs: &[[u8; 6]], mac: &[u8; 6]) -> (r: bool)
    ensures
        r == macs@.contains(*mac),
{
    let mut i: usize = 0;
    while i < macs.len()
        invariant
            0 <= i <= macs.len(),
            forall|k: int| 0 <= k < i ==> macs@[k] != *mac,
        decreases macs.len() - i,
    {
        if same(&macs[i], mac) {
            assert(macs@[i as int] == *mac);
            return true;
        }
        i += 1;
    }
    false
}

/// Where an address stands first in a list.
pub open spec fn place_of(macs: Seq<[u8; 6]>, mac: [u8; 6]) -> Option<int>
    decreases macs.len(),
{
    if macs.len() == 0 {
        None
    } else if macs[0] == mac {
        Some(0)
    } else {
        match place_of(macs.skip(1), mac) {
            Some(i) => Some(i + 1),
            None => None,
        }
    }
}

/// An address has a place in a list if and only if the list holds it; the
/// place holds the address, and none before it does.
pub proof fn the_place_is_the_first(macs: Seq<[u8; 6]>, mac: [u8; 6])
    ensures
        place_of(macs, mac) is Some <==> macs.contains(mac),
        place_of(macs, mac) matches Some(i) ==> 0 <= i < macs.len() && macs[i] == mac && (forall|
            k: int,
        |
            0 <= k < i ==> macs[k] != mac),
    decreases macs.len(),
{
    if macs.len() > 0 && macs[0] != mac {
        let rest = macs.skip(1);
        the_place_is_the_first(rest, mac);
        if rest.contains(mac) {
            let i = choose|i: int| 0 <= i < rest.len() && rest[i] == mac;
            assert(macs[i + 1] == mac);
        }
        if macs.contains(mac) {
            let i = choose|i: int| 0 <= i < macs.len() && macs[i] == mac;
            assert(rest[i - 1] == mac);
        }
        if let Some(i) = place_of(rest, mac) {
            assert(macs[i + 1] == rest[i]);
            assert forall|k: int| 0 <= k < i + 1 implies macs[k] != mac by {
                if k > 0 {
                    assert(macs[k] == rest[k - 1]);
                }
            }
        }
    }
}

/// Where nothing before `i` holds the address and `i` does, `i` is its place.
pub proof fn place_found(macs: Seq<[u8; 6]>, mac: [u8; 6], i: int)
    requires
        0 <= i < macs.len(),
        macs[i] == mac,
        forall|k: int| 0 <= k < i ==> macs[k] != mac,
    ensures
        place_of(macs, mac) == Some(i),
{
    the_place_is_the_first(macs, mac);
    assert(macs.contains(mac));
}

} // verus!
