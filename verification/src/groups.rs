//! What is known about the devices bound to the dongle, kept up to date
//! from discovery replies.
//!
//! Devices keep the order they were first listed in, and a device unseen
//! for long enough drops out of that order until it is heard again. That
//! order gives each bound device its slot in speed commands. It is the
//! order the Linux driver for this dongle keeps, not the receiver's
//! reply order: devices heard in the same poll join by ascending address,
//! later arrivals go after everything already known, and a device that
//! returns after going offline rejoins at the end. Whether the firmware
//! reads the slot at all is unknown; keeping the same order as a driver
//! that works in the field is the safe choice.

use crate::address;
use crate::bytes::same;
use crate::discovery::{Device, Reply, FANS_PER_GROUP};
use crate::lists;
use crate::speed;
use crate::time;
use crate::time::since;
use vstd::prelude::*;

verus! {

/// How long a device can go unheard before it counts as offline.
pub const OFFLINE_AFTER: u128 = 15_000_000_000;

/// How long a bound device can stay offline before it is forgotten.
pub const FORGET_AFTER: u128 = 600_000_000_000;

/// How recent a sighting must be for its reported duties to acknowledge a
/// command.
pub const ACK_WINDOW: u128 = 3_000_000_000;

/// How long an acknowledged duty is left alone before it is sent again.
pub const KEEPALIVE: u128 = 1_000_000_000;

/// How many sightings in a row must agree before what they say of a device's
/// identity or shape is taken over.
pub const AGREE: u32 = 3;

/// Who a device belongs to and how it is addressed: its dongle, its channel,
/// its receiver type.
pub type Identity = ([u8; 6], u8, u8);

/// What a device is: kind, fan count, attachment side, fan models. A
/// single garbled record must not change these, since they decide which
/// slots are driven and what the duty floor is.
pub type Shape = (u8, u8, bool, [u8; 4]);

/// One device and what has been asked of it.
#[derive(Debug, Clone, Copy)]
pub struct Group {
    /// The device as last reported, with its identity and shape confirmed.
    pub device: Device,
    /// When the device was last heard.
    pub last_seen: u128,
    /// Duties wanted on it, as they will go on the wire.
    pub target: Option<[u8; FANS_PER_GROUP]>,
    /// When the target was last sent.
    pub last_sent: Option<u128>,
    /// Sends of the target since it was last seen applied.
    pub unacknowledged: u32,
    /// Another identity that the last sightings agree on, and how many do.
    pub identity: Option<(Identity, u32)>,
    /// Another shape that the last sightings agree on, and how many do.
    pub shape: Option<(Shape, u32)>,
}

/// A device's identity.
pub open spec fn identity_of(device: Device) -> Identity {
    (device.master_mac, device.channel, device.receiver)
}

/// A device's shape.
pub open spec fn shape_of(device: Device) -> Shape {
    (device.device_type, device.fan_count, device.right_attach, device.fan_types)
}

/// A device with another identity.
pub open spec fn with_identity(device: Device, identity: Identity) -> Device {
    Device { master_mac: identity.0, channel: identity.1, receiver: identity.2, ..device }
}

/// A device with another shape.
pub open spec fn with_shape(device: Device, shape: Shape) -> Device {
    Device {
        device_type: shape.0,
        fan_count: shape.1,
        right_attach: shape.2,
        fan_types: shape.3,
        ..device
    }
}

/// What a sighting of something other than the confirmed value does to the
/// candidate for it, and whether the candidate is now confirmed: the same
/// value [`AGREE`] times in a row.
pub open spec fn agreed<T>(candidate: Option<(T, u32)>, seen: T) -> (Option<(T, u32)>, bool) {
    match candidate {
        Some((value, count)) => if value == seen {
            if count + 1 >= AGREE {
                (None, true)
            } else {
                (Some((seen, (count + 1) as u32)), false)
            }
        } else {
            (Some((seen, 1)), false)
        },
        None => (Some((seen, 1)), false),
    }
}

/// The candidate after a sighting, and whether what was seen is taken over:
/// the confirmed value clears it.
pub open spec fn weighed<T>(confirmed: T, candidate: Option<(T, u32)>, seen: T) -> (
    Option<(T, u32)>,
    bool,
) {
    if seen == confirmed {
        (None, false)
    } else {
        agreed(candidate, seen)
    }
}

impl Group {
    /// A device heard for the first time.
    pub open spec fn fresh(device: Device, now: u128) -> Group {
        Group {
            device,
            last_seen: now,
            target: None,
            last_sent: None,
            unacknowledged: 0,
            identity: None,
            shape: None,
        }
    }

    /// Whether the candidates have been seen less often than it takes.
    pub open spec fn is_counting(self) -> bool {
        &&& self.identity matches Some((_, count)) ==> count < AGREE
        &&& self.shape matches Some((_, count)) ==> count < AGREE
    }

    /// Whether the device has been heard within [`OFFLINE_AFTER`].
    pub open spec fn is_online(self, now: u128) -> bool {
        time::passed(now, self.last_seen) <= OFFLINE_AFTER
    }

    /// Whether the device is bound to `master_mac`.
    pub open spec fn is_bound(self, master_mac: [u8; 6]) -> bool {
        self.device.master_mac == master_mac
    }

    /// Whether the device has fans to drive.
    pub open spec fn is_fans(self) -> bool {
        self.device.device_type == 0 && self.device.fan_count > 0
    }

    /// Whether the last sighting is fresh and reports the target applied.
    pub open spec fn is_acknowledged(self, now: u128) -> bool {
        match self.target {
            Some(target) => time::passed(now, self.last_seen) <= ACK_WINDOW && speed::confirms(
                self.device.duty,
                target,
            ),
            None => false,
        }
    }

    /// Whether the target should go out now: never sent, reported
    /// differently from what is wanted, or sent [`KEEPALIVE`] or more ago.
    pub open spec fn is_due(self, now: u128) -> bool {
        match self.target {
            None => false,
            Some(target) => match self.last_sent {
                None => true,
                Some(sent) => !speed::confirms(self.device.duty, target) || time::passed(now, sent)
                    >= KEEPALIVE,
            },
        }
    }

    /// The group after a sighting. An offline device is taken over as seen;
    /// of an online one the live fields are, identity and shape only once
    /// enough sightings agree. A sighting that reports the target applied
    /// clears the count of sends.
    pub open spec fn sighted(self, seen: Device, now: u128) -> Group {
        let noted = if !self.is_online(now) {
            Group { device: seen, identity: None, shape: None, last_seen: now, ..self }
        } else {
            let (identity, moved) = weighed(
                identity_of(self.device),
                self.identity,
                identity_of(seen),
            );
            let (shape, reshaped) = weighed(shape_of(self.device), self.shape, shape_of(seen));
            let placed = with_identity(
                seen,
                identity_of(
                    if moved {
                        seen
                    } else {
                        self.device
                    },
                ),
            );
            let device = with_shape(
                placed,
                shape_of(
                    if reshaped {
                        seen
                    } else {
                        self.device
                    },
                ),
            );
            Group { device, identity, shape, last_seen: now, ..self }
        };
        if noted.is_acknowledged(now) {
            Group { unacknowledged: 0, ..noted }
        } else {
            noted
        }
    }

    fn new(device: Device, now: u128) -> (group: Self)
        ensures
            group == Group::fresh(device, now),
    {
        Group {
            device,
            last_seen: now,
            target: None,
            last_sent: None,
            unacknowledged: 0,
            identity: None,
            shape: None,
        }
    }

    /// Whether the device has been heard within [`OFFLINE_AFTER`].
    pub fn online(&self, now: u128) -> (r: bool)
        ensures
            r == self.is_online(now),
    {
        since(now, self.last_seen) <= OFFLINE_AFTER
    }

    /// Whether the device is bound to `master_mac`.
    pub fn bound_to(&self, master_mac: &[u8; 6]) -> (r: bool)
        ensures
            r == self.is_bound(*master_mac),
    {
        same(&self.device.master_mac, master_mac)
    }

    /// Whether the device has fans to drive.
    pub fn has_fans(&self) -> (r: bool)
        ensures
            r == self.is_fans(),
    {
        self.device.device_type == 0 && self.device.fan_count > 0
    }

    /// Whether the last sighting is fresh and reports the target applied.
    pub fn acknowledged(&self, now: u128) -> (r: bool)
        ensures
            r == self.is_acknowledged(now),
    {
        match &self.target {
            Some(target) => since(now, self.last_seen) <= ACK_WINDOW && speed::acknowledged(
                &self.device.duty,
                target,
            ),
            None => false,
        }
    }

    /// Whether the target should go out now: never sent, reported
    /// differently from what is wanted, or sent [`KEEPALIVE`] or more ago.
    pub fn due(&self, now: u128) -> (r: bool)
        ensures
            r == self.is_due(now),
    {
        match &self.target {
            None => false,
            Some(target) => match self.last_sent {
                None => true,
                Some(sent) => speed::differs(&self.device.duty, target) || since(now, sent)
                    >= KEEPALIVE,
            },
        }
    }

    fn take_sighting(&mut self, seen: &Device, now: u128)
        requires
            old(self).is_counting(),
        ensures
            *final(self) == old(self).sighted(*seen, now),
            final(self).is_counting(),
    {
        if !self.online(now) {
            self.device = *seen;
            self.identity = None;
            self.shape = None;
        } else {
            let kept = self.device;
            let mut device = *seen;
            if same_identity(&identity(seen), &identity(&kept)) {
                self.identity = None;
                device.master_mac = kept.master_mac;
                device.channel = kept.channel;
                device.receiver = kept.receiver;
            } else {
                let again = match &self.identity {
                    Some((value, _)) => same_identity(value, &identity(seen)),
                    None => false,
                };
                let (candidate, moved) = agree(self.identity, identity(seen), again);
                self.identity = candidate;
                if !moved {
                    device.master_mac = kept.master_mac;
                    device.channel = kept.channel;
                    device.receiver = kept.receiver;
                }
            }
            if same_shape(&shape(seen), &shape(&kept)) {
                self.shape = None;
                device.device_type = kept.device_type;
                device.fan_count = kept.fan_count;
                device.right_attach = kept.right_attach;
                device.fan_types = kept.fan_types;
            } else {
                let again = match &self.shape {
                    Some((value, _)) => same_shape(value, &shape(seen)),
                    None => false,
                };
                let (candidate, reshaped) = agree(self.shape, shape(seen), again);
                self.shape = candidate;
                if !reshaped {
                    device.device_type = kept.device_type;
                    device.fan_count = kept.fan_count;
                    device.right_attach = kept.right_attach;
                    device.fan_types = kept.fan_types;
                }
            }
            self.device = device;
        }
        self.last_seen = now;
        if self.acknowledged(now) {
            self.unacknowledged = 0;
        }
    }
}

fn identity(device: &Device) -> (r: Identity)
    ensures
        r == identity_of(*device),
{
    (device.master_mac, device.channel, device.receiver)
}

fn shape(device: &Device) -> (r: Shape)
    ensures
        r == shape_of(*device),
{
    (device.device_type, device.fan_count, device.right_attach, device.fan_types)
}

fn same_identity(a: &Identity, b: &Identity) -> (r: bool)
    ensures
        r == (*a == *b),
{
    same(&a.0, &b.0) && a.1 == b.1 && a.2 == b.2
}

fn same_shape(a: &Shape, b: &Shape) -> (r: bool)
    ensures
        r == (*a == *b),
{
    a.0 == b.0 && a.1 == b.1 && a.2 == b.2 && same(&a.3, &b.3)
}

fn agree<T: Copy>(candidate: Option<(T, u32)>, seen: T, again: bool) -> (r: (
    Option<(T, u32)>,
    bool,
))
    requires
        again == (candidate matches Some((value, _)) && value == seen),
        candidate matches Some((_, count)) ==> count < AGREE,
    ensures
        r == agreed(candidate, seen),
{
    match candidate {
        Some((_, count)) if again => if count + 1 >= AGREE {
            (None, true)
        } else {
            (Some((seen, count + 1)), false)
        },
        _ => (Some((seen, 1)), false),
    }
}

/// The addresses of groups.
pub open spec fn macs_of(groups: Seq<Group>) -> Seq<[u8; 6]> {
    groups.map_values(|g: Group| g.device.mac)
}

/// Where the group with an address stands.
pub open spec fn place_of(groups: Seq<Group>, mac: [u8; 6]) -> Option<int> {
    address::place_of(macs_of(groups), mac)
}

/// The groups after a sighting: the group with that address takes it in, a
/// device without one becomes a group.
pub open spec fn noted(groups: Seq<Group>, seen: Device, now: u128) -> Seq<Group> {
    match place_of(groups, seen.mac) {
        Some(i) => groups.update(i, groups[i].sighted(seen, now)),
        None => groups.push(Group::fresh(seen, now)),
    }
}

/// The groups after one sighting after the other.
pub open spec fn noted_all(groups: Seq<Group>, seen: Seq<Device>, now: u128) -> Seq<Group>
    decreases seen.len(),
{
    if seen.len() == 0 {
        groups
    } else {
        noted(noted_all(groups, seen.drop_last(), now), seen.last(), now)
    }
}

/// Whether the device with an address is known and online.
pub open spec fn is_heard(groups: Seq<Group>, mac: [u8; 6], now: u128) -> bool {
    match place_of(groups, mac) {
        Some(i) => groups[i].is_online(now),
        None => false,
    }
}

/// The part of an order whose devices are still online.
pub open spec fn staying(groups: Seq<Group>, order: Seq<[u8; 6]>, now: u128) -> Seq<[u8; 6]> {
    order.filter(|mac: [u8; 6]| is_heard(groups, mac, now))
}

/// The addresses of the online devices that `order` does not hold.
pub open spec fn joining(groups: Seq<Group>, order: Seq<[u8; 6]>, now: u128) -> Seq<[u8; 6]> {
    macs_of(groups.filter(|g: Group| g.is_online(now) && !order.contains(g.device.mac)))
}

/// The slot order brought up to date: those that stay, in their order, then
/// those that join, by ascending address.
pub open spec fn reordered(groups: Seq<Group>, order: Seq<[u8; 6]>, now: u128) -> Seq<[u8; 6]> {
    let stay = staying(groups, order, now);
    stay + address::ascending(joining(groups, stay, now))
}

/// Whether a group is kept by a sweep: it is online, or it is bound to the
/// dongle and has not been silent for [`FORGET_AFTER`].
pub open spec fn is_kept(group: Group, master: [u8; 6], now: u128) -> bool {
    group.is_online(now) || (group.is_bound(master) && time::passed(now, group.last_seen)
        < FORGET_AFTER)
}

/// Whether a group is kept by a sweep.
pub fn kept_on(group: &Group, master: &[u8; 6], now: u128) -> (r: bool)
    ensures
        r == is_kept(*group, *master, now),
{
    group.online(now) || (group.bound_to(master) && since(now, group.last_seen) < FORGET_AFTER)
}

/// What a tracker holds.
#[verifier::ext_equal]
pub struct TrackerState {
    /// The dongle's address.
    pub master: [u8; 6],
    /// Every device known, in the order first heard.
    pub groups: Seq<Group>,
    /// The addresses of the online devices, in slot order.
    pub order: Seq<[u8; 6]>,
}

impl TrackerState {
    /// A tracker that has heard nothing.
    pub open spec fn start(master: [u8; 6]) -> TrackerState {
        TrackerState { master, groups: Seq::empty(), order: Seq::empty() }
    }

    /// Nothing is known twice, the order holds nothing twice and only what is
    /// known, and no candidate has been seen as often as it takes.
    pub open spec fn valid(self) -> bool {
        &&& macs_of(self.groups).no_duplicates()
        &&& self.order.no_duplicates()
        &&& forall|i: int|
            0 <= i < self.order.len() ==> macs_of(self.groups).contains(#[trigger] self.order[i])
        &&& forall|i: int| 0 <= i < self.groups.len() ==> (#[trigger] self.groups[i]).is_counting()
    }

    /// The part of the order whose devices are online, going by what was
    /// heard of them so far.
    pub open spec fn present(self, now: u128) -> Seq<[u8; 6]> {
        staying(self.groups, self.order, now)
    }

    /// The tracker after a discovery reply. A device that had gone offline
    /// before it has left the order, also where the reply tells of it.
    pub open spec fn observed(self, seen: Seq<Device>, now: u128) -> TrackerState {
        let groups = noted_all(self.groups, seen, now);
        TrackerState { groups, order: reordered(groups, self.present(now), now), ..self }
    }

    /// The tracker after a sweep.
    pub open spec fn swept(self, now: u128) -> TrackerState {
        let groups = self.groups.filter(|g: Group| is_kept(g, self.master, now));
        TrackerState { groups, order: reordered(groups, self.order, now), ..self }
    }

    /// The addresses that a sweep forgets.
    pub open spec fn forgotten(self, now: u128) -> Seq<[u8; 6]> {
        macs_of(self.groups.filter(|g: Group| !is_kept(g, self.master, now)))
    }

    /// The group with an address that is known.
    pub open spec fn group_at(self, mac: [u8; 6]) -> Group {
        self.groups[place_of(self.groups, mac)->0]
    }

    /// The group with an address.
    pub open spec fn group(self, mac: [u8; 6]) -> Option<Group> {
        match place_of(self.groups, mac) {
            Some(i) => Some(self.groups[i]),
            None => None,
        }
    }

    /// The groups in the order, in slot order.
    pub open spec fn listed(self) -> Seq<Group> {
        self.order.map_values(|mac: [u8; 6]| self.group_at(mac))
    }

    /// The fan groups in the order that are bound to the dongle.
    pub open spec fn fans(self) -> Seq<Group> {
        self.listed().filter(|g: Group| g.is_bound(self.master) && g.is_fans())
    }

    /// The slot a speed command names for a device.
    pub open spec fn slot(self, mac: [u8; 6]) -> u8 {
        speed::slot_number(self.listed().map_values(|g: Group| g.device), self.master, mac)
    }

    /// The tracker with the group at an address replaced, where there is one.
    pub open spec fn changed(self, mac: [u8; 6], change: spec_fn(Group) -> Group) -> TrackerState {
        match place_of(self.groups, mac) {
            Some(i) => TrackerState { groups: self.groups.update(i, change(self.groups[i])), ..self },
            None => self,
        }
    }
}

/// A group with a target. Another target than before has not been sent yet.
pub open spec fn aimed(group: Group, target: [u8; FANS_PER_GROUP]) -> Group {
    if group.target == Some(target) {
        group
    } else {
        Group { target: Some(target), last_sent: None, unacknowledged: 0, ..group }
    }
}

/// A group without a target.
pub open spec fn cleared(group: Group) -> Group {
    Group { target: None, last_sent: None, unacknowledged: 0, ..group }
}

/// A group whose target went out.
pub open spec fn resent(group: Group, now: u128) -> Group {
    Group {
        last_sent: Some(now),
        unacknowledged: (group.unacknowledged + 1) as u32,
        ..group
    }
}

/// Every device heard since start, in slot order.
#[derive(Debug)]
pub struct Tracker {
    master_mac: [u8; 6],
    groups: Vec<Group>,
    order: Vec<[u8; 6]>,
}

impl View for Tracker {
    type V = TrackerState;

    closed spec fn view(&self) -> TrackerState {
        TrackerState { master: self.master_mac, groups: self.groups@, order: self.order@ }
    }
}

/// One place, where the addresses are distinct.
pub proof fn only_place(groups: Seq<Group>, i: int)
    requires
        macs_of(groups).no_duplicates(),
        0 <= i < groups.len(),
    ensures
        place_of(groups, groups[i].device.mac) == Some(i),
{
    assert(macs_of(groups)[i] == groups[i].device.mac);
    address::place_found(macs_of(groups), groups[i].device.mac, i);
}

/// What a place says.
pub proof fn placed(groups: Seq<Group>, mac: [u8; 6])
    ensures
        place_of(groups, mac) is Some <==> macs_of(groups).contains(mac),
        place_of(groups, mac) matches Some(i) ==> 0 <= i < groups.len() && groups[i].device.mac
            == mac,
{
    address::the_place_is_the_first(macs_of(groups), mac);
}

/// Replacing a group by one with the same address keeps the addresses.
proof fn same_addresses(groups: Seq<Group>, i: int, group: Group)
    requires
        0 <= i < groups.len(),
        group.device.mac == groups[i].device.mac,
    ensures
        macs_of(groups.update(i, group)) == macs_of(groups),
{
    assert(macs_of(groups.update(i, group)) =~= macs_of(groups));
}

/// A sighting keeps groups apart, their candidates counting, and every
/// address known.
proof fn noting_keeps(groups: Seq<Group>, seen: Device, now: u128)
    requires
        macs_of(groups).no_duplicates(),
        forall|i: int| 0 <= i < groups.len() ==> (#[trigger] groups[i]).is_counting(),
    ensures
        macs_of(noted(groups, seen, now)).no_duplicates(),
        forall|i: int|
            0 <= i < noted(groups, seen, now).len() ==> (#[trigger] noted(
                groups,
                seen,
                now,
            )[i]).is_counting(),
        forall|mac: [u8; 6]| #[trigger]
            macs_of(groups).contains(mac) ==> macs_of(noted(groups, seen, now)).contains(mac),
        groups.len() <= noted(groups, seen, now).len() <= groups.len() + 1,
{
    let after = noted(groups, seen, now);
    placed(groups, seen.mac);
    match place_of(groups, seen.mac) {
        Some(i) => {
            same_addresses(groups, i, groups[i].sighted(seen, now));
        },
        None => {
            assert(macs_of(after) =~= macs_of(groups).push(seen.mac));
            assert forall|mac: [u8; 6]| #[trigger] macs_of(groups).contains(mac) implies macs_of(
                after,
            ).contains(mac) by {
                let i = choose|i: int| 0 <= i < macs_of(groups).len() && macs_of(groups)[i] == mac;
                assert(macs_of(after)[i] == mac);
            }
        },
    }
}

/// Sightings keep groups apart and their candidates counting.
pub proof fn noting_all_keeps(groups: Seq<Group>, seen: Seq<Device>, now: u128)
    requires
        macs_of(groups).no_duplicates(),
        forall|i: int| 0 <= i < groups.len() ==> (#[trigger] groups[i]).is_counting(),
    ensures
        macs_of(noted_all(groups, seen, now)).no_duplicates(),
        forall|i: int|
            0 <= i < noted_all(groups, seen, now).len() ==> (#[trigger] noted_all(
                groups,
                seen,
                now,
            )[i]).is_counting(),
    decreases seen.len(),
{
    if seen.len() > 0 {
        noting_all_keeps(groups, seen.drop_last(), now);
        noting_keeps(noted_all(groups, seen.drop_last(), now), seen.last(), now);
    }
}

/// Sightings raise no count of sends.
pub proof fn noting_counts(groups: Seq<Group>, seen: Seq<Device>, now: u128, bound: int)
    requires
        0 <= bound,
        forall|i: int|
            0 <= i < groups.len() ==> (#[trigger] groups[i]).unacknowledged <= bound,
    ensures
        forall|i: int|
            0 <= i < noted_all(groups, seen, now).len() ==> (#[trigger] noted_all(
                groups,
                seen,
                now,
            )[i]).unacknowledged <= bound,
    decreases seen.len(),
{
    if seen.len() > 0 {
        noting_counts(groups, seen.drop_last(), now, bound);
        let front = noted_all(groups, seen.drop_last(), now);
        placed(front, seen.last().mac);
    }
}

/// The slot order brought up to date holds nothing twice, and exactly the
/// online devices.
pub proof fn order_is_exactly_the_online(groups: Seq<Group>, order: Seq<[u8; 6]>, now: u128)
    requires
        macs_of(groups).no_duplicates(),
        order.no_duplicates(),
    ensures
        reordered(groups, order, now).no_duplicates(),
        forall|mac: [u8; 6]|
            reordered(groups, order, now).contains(mac) <==> is_heard(groups, mac, now),
{
    let stay = staying(groups, order, now);
    let heard = |mac: [u8; 6]| is_heard(groups, mac, now);
    let joins = |g: Group| g.is_online(now) && !stay.contains(g.device.mac);
    let new = joining(groups, stay, now);
    let sorted = address::ascending(new);
    let all = reordered(groups, order, now);
    lists::filtered(order, heard);
    lists::filtered(groups, joins);
    address::ascending_is_ascending(new);
    lists::filter_keeps_apart(order, heard);
    joiners_apart(groups, joins);
    sorted_apart(new);
    assert forall|mac: [u8; 6]| new.contains(mac) <==> (is_heard(groups, mac, now)
        && !stay.contains(mac)) by {
        placed(groups, mac);
        let found = groups.filter(joins);
        if new.contains(mac) {
            let i = choose|i: int| 0 <= i < new.len() && new[i] == mac;
            assert(found[i].device.mac == mac);
            assert(found.contains(found[i]));
            let k = choose|k: int| 0 <= k < groups.len() && groups[k] == found[i];
            only_place(groups, k);
        }
        if is_heard(groups, mac, now) && !stay.contains(mac) {
            let k = place_of(groups, mac)->0;
            assert(joins(groups[k]));
            assert(found.contains(groups[k]));
            let i = choose|i: int| 0 <= i < found.len() && found[i] == groups[k];
            assert(new[i] == mac);
        }
    }
    assert forall|mac: [u8; 6]| all.contains(mac) <==> is_heard(groups, mac, now) by {
        if all.contains(mac) {
            let i = choose|i: int| 0 <= i < all.len() && all[i] == mac;
            if i < stay.len() {
                assert(stay.contains(stay[i]));
            } else {
                assert(sorted.contains(sorted[i - stay.len()]));
            }
        }
        if stay.contains(mac) {
            let i = choose|i: int| 0 <= i < stay.len() && stay[i] == mac;
            assert(all[i] == mac);
        }
        if sorted.contains(mac) {
            let i = choose|i: int| 0 <= i < sorted.len() && sorted[i] == mac;
            assert(all[stay.len() + i] == mac);
        }
    }
    assert forall|i: int, j: int| 0 <= i < all.len() && 0 <= j < all.len() && i != j implies all[i]
        != all[j] by {
        if i < stay.len() && j >= stay.len() {
            assert(stay.contains(stay[i]));
            assert(sorted.contains(sorted[j - stay.len()]));
        }
        if j < stay.len() && i >= stay.len() {
            assert(stay.contains(stay[j]));
            assert(sorted.contains(sorted[i - stay.len()]));
        }
    }
}

/// Groups let through by a filter keep distinct addresses.
pub proof fn joiners_apart(groups: Seq<Group>, pred: spec_fn(Group) -> bool)
    requires
        macs_of(groups).no_duplicates(),
    ensures
        macs_of(groups.filter(pred)).no_duplicates(),
    decreases groups.len(),
{
    reveal(Seq::filter);
    if groups.len() > 0 {
        let front = groups.drop_last();
        assert(macs_of(front) =~= macs_of(groups).drop_last());
        joiners_apart(front, pred);
        lists::filtered(front, pred);
        let kept = front.filter(pred);
        if pred(groups.last()) {
            let mac = groups.last().device.mac;
            assert(macs_of(groups.filter(pred)) =~= macs_of(kept).push(mac));
            assert(!macs_of(kept).contains(mac)) by {
                if macs_of(kept).contains(mac) {
                    let i = choose|i: int| 0 <= i < macs_of(kept).len() && macs_of(kept)[i] == mac;
                    assert(kept.contains(kept[i]));
                    let k = choose|k: int| 0 <= k < front.len() && front[k] == kept[i];
                    assert(macs_of(groups)[k] == macs_of(groups)[groups.len() - 1]);
                }
            }
        }
    }
}

/// Sorting keeps distinct addresses distinct.
proof fn sorted_apart(macs: Seq<[u8; 6]>)
    requires
        macs.no_duplicates(),
    ensures
        address::ascending(macs).no_duplicates(),
{
    address::ascending_is_ascending(macs);
    macs.lemma_multiset_has_no_duplicates();
    address::ascending(macs).lemma_multiset_has_no_duplicates_conv();
}

/// A tracker whose order was brought up to date is valid.
proof fn validity_follows(state: TrackerState, groups: Seq<Group>, now: u128)
    requires
        state.order.no_duplicates(),
        macs_of(groups).no_duplicates(),
        forall|i: int| 0 <= i < groups.len() ==> (#[trigger] groups[i]).is_counting(),
    ensures
        (TrackerState {
            groups,
            order: reordered(groups, state.order, now),
            ..state
        }).valid(),
{
    let order = reordered(groups, state.order, now);
    order_is_exactly_the_online(groups, state.order, now);
    assert forall|i: int| 0 <= i < order.len() implies macs_of(groups).contains(
        #[trigger] order[i],
    ) by {
        assert(order.contains(order[i]));
        assert(is_heard(groups, order[i], now));
        placed(groups, order[i]);
    }
}

/// Changing one group, but not its address or candidates, keeps a tracker
/// valid.
pub proof fn change_keeps(state: TrackerState, mac: [u8; 6], change: spec_fn(Group) -> Group)
    requires
        state.valid(),
        forall|g: Group|
            (#[trigger] change(g)).device == g.device && change(g).identity == g.identity && change(
                g,
            ).shape == g.shape,
    ensures
        state.changed(mac, change).valid(),
        macs_of(state.changed(mac, change).groups) == macs_of(state.groups),
{
    placed(state.groups, mac);
    if let Some(i) = place_of(state.groups, mac) {
        same_addresses(state.groups, i, change(state.groups[i]));
        assert(change(state.groups[i]).is_counting());
    }
}

impl TrackerState {
    /// A tracker stays valid through a reply.
    pub proof fn observing_keeps(self, seen: Seq<Device>, now: u128)
        requires
            self.valid(),
        ensures
            self.observed(seen, now).valid(),
    {
        noting_all_keeps(self.groups, seen, now);
        lists::filter_keeps_apart(
            self.order,
            |mac: [u8; 6]| is_heard(self.groups, mac, now),
        );
        let left = TrackerState { order: self.present(now), ..self };
        validity_follows(left, noted_all(self.groups, seen, now), now);
    }

    /// A tracker stays valid through a sweep.
    pub proof fn sweeping_keeps(self, now: u128)
        requires
            self.valid(),
        ensures
            self.swept(now).valid(),
    {
        let keeps = |g: Group| is_kept(g, self.master, now);
        let kept = self.groups.filter(keeps);
        joiners_apart(self.groups, keeps);
        lists::filtered(self.groups, keeps);
        assert forall|k: int| 0 <= k < kept.len() implies (#[trigger] kept[k]).is_counting() by {
            assert(kept.contains(kept[k]));
        }
        validity_follows(self, kept, now);
    }

    /// The groups listed in slot order have the addresses of the order.
    pub proof fn listed_addresses(self)
        requires
            self.valid(),
        ensures
            macs_of(self.listed()) == self.order,
    {
        assert forall|i: int| 0 <= i < self.order.len() implies macs_of(self.listed())[i]
            == self.order[i] by {
            assert(macs_of(self.groups).contains(self.order[i]));
            placed(self.groups, self.order[i]);
        }
        assert(macs_of(self.listed()) =~= self.order);
    }

    /// No fan group stands in the order twice.
    pub proof fn fans_are_apart(self)
        requires
            self.valid(),
        ensures
            macs_of(self.fans()).no_duplicates(),
    {
        self.listed_addresses();
        joiners_apart(self.listed(), |g: Group| g.is_bound(self.master) && g.is_fans());
    }
}

impl Tracker {
    /// A tracker for devices bound to `master_mac`.
    pub fn new(master_mac: [u8; 6]) -> (tracker: Self)
        ensures
            tracker@ == TrackerState::start(master_mac),
            tracker@.valid(),
    {
        Tracker { master_mac, groups: Vec::new(), order: Vec::new() }
    }

    /// The dongle's address.
    pub fn master_mac(&self) -> (r: [u8; 6])
        ensures
            r == self@.master,
    {
        self.master_mac
    }

    fn place(&self, mac: &[u8; 6]) -> (r: Option<usize>)
        ensures
            match r {
                Some(i) => place_of(self@.groups, *mac) == Some(i as int) && i < self.groups.len(),
                None => place_of(self@.groups, *mac) is None,
            },
    {
        let mut i: usize = 0;
        while i < self.groups.len()
            invariant
                0 <= i <= self.groups.len(),
                forall|k: int| 0 <= k < i ==> macs_of(self@.groups)[k] != *mac,
            decreases self.groups.len() - i,
        {
            if same(&self.groups[i].device.mac, mac) {
                proof {
                    address::place_found(macs_of(self@.groups), *mac, i as int);
                }
                return Some(i);
            }
            i += 1;
        }
        proof {
            address::the_place_is_the_first(macs_of(self@.groups), *mac);
        }
        None
    }

    /// Takes in one discovery reply.
    ///
    /// Devices heard for the first time join the order after those already
    /// in it, lowest address first. Devices that have gone offline leave
    /// the order and rejoin at the end when heard again.
    pub fn observe(&mut self, reply: &Reply, now: u128)
        requires
            old(self)@.valid(),
        ensures
            final(self)@ == old(self)@.observed(reply.devices@, now),
            final(self)@.valid(),
    {
        self.leave(now);
        let mut k: usize = 0;
        assert(reply.devices@.take(0) =~= Seq::<Device>::empty());
        while k < reply.devices.len()
            invariant
                0 <= k <= reply.devices.len(),
                self@.master == old(self)@.master,
                self@.order == old(self)@.present(now),
                self@.groups == noted_all(old(self)@.groups, reply.devices@.take(k as int), now),
                macs_of(self@.groups).no_duplicates(),
                forall|i: int|
                    0 <= i < self@.groups.len() ==> (#[trigger] self@.groups[i]).is_counting(),
            decreases reply.devices.len() - k,
        {
            let seen = &reply.devices[k];
            let ghost before = self@.groups;
            proof {
                noting_keeps(before, *seen, now);
                assert(reply.devices@.take(k + 1).drop_last() =~= reply.devices@.take(k as int));
            }
            match self.place(&seen.mac) {
                Some(i) => {
                    let mut group = self.groups[i];
                    assert(before[i as int].is_counting());
                    group.take_sighting(seen, now);
                    self.groups.set(i, group);
                },
                None => {
                    self.groups.push(Group::new(*seen, now));
                },
            }
            assert(self@.groups =~= noted(before, *seen, now));
            k += 1;
        }
        assert(reply.devices@.take(k as int) =~= reply.devices@);
        proof {
            old(self)@.observing_keeps(reply.devices@, now);
        }
        self.rebuild(now);
        assert(self@ =~= old(self)@.observed(reply.devices@, now));
    }

    /// Drops offline devices from the order. Forgets offline devices that
    /// were never bound to the dongle at once, and bound ones after
    /// [`FORGET_AFTER`]; returns the addresses forgotten.
    pub fn sweep(&mut self, now: u128) -> (forgotten: Vec<[u8; 6]>)
        requires
            old(self)@.valid(),
        ensures
            forgotten@ == old(self)@.forgotten(now),
            final(self)@ == old(self)@.swept(now),
            final(self)@.valid(),
    {
        let master = self.master_mac;
        let mut kept: Vec<Group> = Vec::new();
        let mut forgotten: Vec<[u8; 6]> = Vec::new();
        let mut i: usize = 0;
        let ghost keeps = |g: Group| is_kept(g, master, now);
        let ghost drops = |g: Group| !is_kept(g, master, now);
        let ghost all = self.groups@;
        proof {
            reveal(Seq::filter);
            assert(all.take(0) =~= Seq::<Group>::empty());
        }
        while i < self.groups.len()
            invariant
                0 <= i <= self.groups.len(),
                all == self.groups@,
                master == old(self)@.master,
                keeps == (|g: Group| is_kept(g, master, now)),
                drops == (|g: Group| !is_kept(g, master, now)),
                kept@ =~= all.take(i as int).filter(keeps),
                forgotten@ =~= macs_of(all.take(i as int).filter(drops)),
                self@ == old(self)@,
            decreases self.groups.len() - i,
        {
            proof {
                assert(all.take(i + 1).drop_last() =~= all.take(i as int));
                reveal(Seq::filter);
            }
            let group = self.groups[i];
            if kept_on(&group, &master, now) {
                kept.push(group);
            } else {
                forgotten.push(group.device.mac);
            }
            i += 1;
        }
        assert(all.take(i as int) =~= all);
        self.groups = kept;
        proof {
            old(self)@.sweeping_keeps(now);
        }
        self.rebuild(now);
        assert(self@ =~= old(self)@.swept(now));
        forgotten
    }

    /// Drops offline devices from the order.
    fn leave(&mut self, now: u128)
        ensures
            final(self)@ == (TrackerState { order: old(self)@.present(now), ..old(self)@ }),
    {
        let mut order: Vec<[u8; 6]> = Vec::new();
        let mut i: usize = 0;
        let ghost heard = |mac: [u8; 6]| is_heard(self@.groups, mac, now);
        proof {
            reveal(Seq::filter);
            assert(self.order@.take(0) =~= Seq::<[u8; 6]>::empty());
        }
        while i < self.order.len()
            invariant
                0 <= i <= self.order.len(),
                heard == (|mac: [u8; 6]| is_heard(self@.groups, mac, now)),
                order@ =~= self.order@.take(i as int).filter(heard),
                self@ == old(self)@,
            decreases self.order.len() - i,
        {
            proof {
                assert(self.order@.take(i + 1).drop_last() =~= self.order@.take(i as int));
                reveal(Seq::filter);
            }
            let mac = self.order[i];
            let stays = match self.place(&mac) {
                Some(k) => self.groups[k].online(now),
                None => false,
            };
            if stays {
                order.push(mac);
            }
            i += 1;
        }
        assert(self.order@.take(i as int) =~= self.order@);
        self.order = order;
        assert(self@.order =~= old(self)@.present(now));
    }

    fn rebuild(&mut self, now: u128)
        ensures
            final(self)@ == (TrackerState {
                order: reordered(old(self)@.groups, old(self)@.order, now),
                ..old(self)@
            }),
    {
        self.leave(now);
        let ghost left = self@;
        let ghost stay = self.order@;
        let ghost joins = |g: Group| g.is_online(now) && !stay.contains(g.device.mac);
        let mut new: Vec<[u8; 6]> = Vec::new();
        let mut i: usize = 0;
        proof {
            reveal(Seq::filter);
            assert(self.groups@.take(0) =~= Seq::<Group>::empty());
        }
        while i < self.groups.len()
            invariant
                0 <= i <= self.groups.len(),
                stay == self.order@,
                joins == (|g: Group| g.is_online(now) && !stay.contains(g.device.mac)),
                new@ =~= macs_of(self.groups@.take(i as int).filter(joins)),
                self@ == left,
            decreases self.groups.len() - i,
        {
            proof {
                assert(self.groups@.take(i + 1).drop_last() =~= self.groups@.take(i as int));
                reveal(Seq::filter);
            }
            let group = self.groups[i];
            if group.online(now) && !address::holds(&self.order, &group.device.mac) {
                new.push(group.device.mac);
            }
            i += 1;
        }
        assert(self.groups@.take(i as int) =~= self.groups@);
        let mut sorted = address::sort(&new);
        self.order.append(&mut sorted);
        assert(self@.order =~= reordered(old(self)@.groups, old(self)@.order, now));
    }

    /// The device with this address, whether online or not.
    pub fn group(&self, mac: &[u8; 6]) -> (r: Option<&Group>)
        ensures
            match r {
                Some(group) => self@.group(*mac) == Some(*group),
                None => self@.group(*mac) is None,
            },
    {
        match self.place(mac) {
            Some(i) => Some(&self.groups[i]),
            None => None,
        }
    }

    /// Every device known, in the order first heard.
    pub fn groups(&self) -> (r: &[Group])
        ensures
            r@ == self@.groups,
    {
        self.groups.as_slice()
    }

    /// Online devices in slot order.
    pub fn online(&self) -> (r: Vec<Group>)
        requires
            self@.valid(),
        ensures
            r@ == self@.listed(),
    {
        let mut r: Vec<Group> = Vec::new();
        let mut i: usize = 0;
        while i < self.order.len()
            invariant
                0 <= i <= self.order.len(),
                self@.valid(),
                r@ =~= self@.listed().take(i as int),
            decreases self.order.len() - i,
        {
            proof {
                assert(macs_of(self@.groups).contains(self@.order[i as int]));
                placed(self@.groups, self@.order[i as int]);
            }
            if let Some(k) = self.place(&self.order[i]) {
                r.push(self.groups[k]);
            }
            i += 1;
        }
        assert(r@ =~= self@.listed());
        r
    }

    /// Online fan groups bound to the dongle, in slot order.
    pub fn fans(&self) -> (r: Vec<Group>)
        requires
            self@.valid(),
        ensures
            r@ == self@.fans(),
    {
        let listed = self.online();
        let mut r: Vec<Group> = Vec::new();
        let mut i: usize = 0;
        let ghost drives = |g: Group| g.is_bound(self@.master) && g.is_fans();
        proof {
            reveal(Seq::filter);
            assert(listed@.take(0) =~= Seq::<Group>::empty());
        }
        while i < listed.len()
            invariant
                0 <= i <= listed.len(),
                drives == (|g: Group| g.is_bound(self@.master) && g.is_fans()),
                r@ =~= listed@.take(i as int).filter(drives),
            decreases listed.len() - i,
        {
            proof {
                assert(listed@.take(i + 1).drop_last() =~= listed@.take(i as int));
                reveal(Seq::filter);
            }
            if listed[i].bound_to(&self.master_mac) && listed[i].has_fans() {
                r.push(listed[i]);
            }
            i += 1;
        }
        assert(listed@.take(i as int) =~= listed@);
        r
    }

    /// The slot a speed command names for this device.
    pub fn slot(&self, mac: &[u8; 6]) -> (r: u8)
        requires
            self@.valid(),
        ensures
            r == self@.slot(*mac),
    {
        let listed = self.online();
        let mut devices: Vec<Device> = Vec::new();
        let mut i: usize = 0;
        while i < listed.len()
            invariant
                0 <= i <= listed.len(),
                devices@ =~= listed@.map_values(|g: Group| g.device).take(i as int),
            decreases listed.len() - i,
        {
            devices.push(listed[i].device);
            i += 1;
        }
        assert(devices@ =~= listed@.map_values(|g: Group| g.device));
        speed::slot(&devices, &self.master_mac, mac)
    }

    /// Sets the duties wanted on a device and returns them as they will be
    /// sent, or `None` for a device never heard.
    pub fn set_target(&mut self, mac: &[u8; 6], wanted: [u8; FANS_PER_GROUP]) -> (r: Option<
        [u8; FANS_PER_GROUP],
    >)
        requires
            old(self)@.valid(),
        ensures
            r == match old(self)@.group(*mac) {
                Some(group) => Some(speed::prepared(group.device, wanted)),
                None => None,
            },
            final(self)@ == old(self)@.changed(
                *mac,
                |g: Group| aimed(g, speed::prepared(g.device, wanted)),
            ),
            final(self)@.valid(),
    {
        proof {
            change_keeps(
                self@,
                *mac,
                |g: Group| aimed(g, speed::prepared(g.device, wanted)),
            );
        }
        match self.place(mac) {
            None => None,
            Some(i) => {
                let mut group = self.groups[i];
                let prepared = speed::prepare(&group.device, wanted);
                let kept = match &group.target {
                    Some(target) => same(target, &prepared),
                    None => false,
                };
                if !kept {
                    group.target = Some(prepared);
                    group.last_sent = None;
                    group.unacknowledged = 0;
                }
                self.groups.set(i, group);
                assert(self@ =~= old(self)@.changed(
                    *mac,
                    |g: Group| aimed(g, speed::prepared(g.device, wanted)),
                ));
                Some(prepared)
            },
        }
    }

    /// Takes the target off a device, so that nothing more is due on it.
    /// Says whether it had one.
    pub fn clear_target(&mut self, mac: &[u8; 6]) -> (r: bool)
        requires
            old(self)@.valid(),
        ensures
            r == (old(self)@.group(*mac) matches Some(group) && group.target is Some),
            final(self)@ == old(self)@.changed(*mac, |g: Group| cleared(g)),
            final(self)@.valid(),
    {
        proof {
            change_keeps(self@, *mac, |g: Group| cleared(g));
        }
        match self.place(mac) {
            None => false,
            Some(i) => {
                let mut group = self.groups[i];
                let had = group.target.is_some();
                group.target = None;
                group.last_sent = None;
                group.unacknowledged = 0;
                self.groups.set(i, group);
                assert(self@ =~= old(self)@.changed(*mac, |g: Group| cleared(g)));
                had
            },
        }
    }

    /// Records that the device's target went out.
    pub fn sent(&mut self, mac: &[u8; 6], now: u128)
        requires
            old(self)@.valid(),
            old(self)@.group(*mac) matches Some(group) ==> group.unacknowledged < u32::MAX,
        ensures
            final(self)@ == old(self)@.changed(*mac, |g: Group| resent(g, now)),
            final(self)@.valid(),
    {
        proof {
            change_keeps(self@, *mac, |g: Group| resent(g, now));
        }
        if let Some(i) = self.place(mac) {
            let mut group = self.groups[i];
            group.last_sent = Some(now);
            group.unacknowledged = group.unacknowledged + 1;
            self.groups.set(i, group);
            assert(self@ =~= old(self)@.changed(*mac, |g: Group| resent(g, now)));
        }
    }
}

} // verus!
