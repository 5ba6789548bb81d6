//! Removing devices, and networks with all that lies under them.

use crate::cidr::IpAddress;
use crate::device::Device;
use crate::error::Error;
use crate::forest::{
    has_network, ids_unique, is_father_of, is_under, lemma_ancestors_unfold,
    lemma_father_is_not_under, lemma_position, lemma_position_valid, lemma_under_by_father,
    network_of, position,
};
use crate::ipam::{device_position, has_device, keys_unique, Ipam, State};
use crate::network::Network;
use std::collections::HashMap;
use vstd::prelude::*;

verus! {

/// How many records a removal took away.
#[derive(Clone, Copy, Debug, PartialEq, Eq, Structural)]
pub struct Removed {
    pub networks_deleted: usize,
    pub devices_deleted: usize,
}

impl Removed {
    /// Networks and devices together. Held at the largest number where
    /// the sum is beyond it.
    pub fn total(&self) -> (n: usize)
        ensures
            n == if self.networks_deleted + self.devices_deleted <= usize::MAX {
                self.networks_deleted + self.devices_deleted
            } else {
                usize::MAX as int
            },
    {
        self.networks_deleted.saturating_add(self.devices_deleted)
    }
}

/// Whether a removal at the network `id` takes the network `subject` away:
/// it lies under `id`, or it is `id` itself and the removal takes that too.
pub open spec fn is_removed(nets: Seq<Network>, subject: u128, id: u128, with_top: bool) -> bool {
    is_under(nets, subject, id) || (with_top && subject == id)
}

/// The networks of `part` that a removal at `id` in the forest `all`
/// leaves, in their order. The network `id` itself, where it stays, is left
/// with the counters of an untouched block.
pub open spec fn remaining_networks(
    part: Seq<Network>,
    all: Seq<Network>,
    id: u128,
    with_top: bool,
) -> Seq<Network>
    decreases part.len(),
{
    if part.len() == 0 {
        Seq::empty()
    } else {
        let before = remaining_networks(part.drop_last(), all, id, with_top);
        let last = part.last();
        if is_removed(all, last.id, id, with_top) {
            before
        } else if last.id == id {
            before.push(last.emptied())
        } else {
            before.push(last)
        }
    }
}

/// The devices of `part` that a removal at `id` leaves, in their order:
/// those of networks that stay, but not those of `id` itself.
pub open spec fn remaining_devices(part: Seq<Device>, nets: Seq<Network>, id: u128) -> Seq<Device>
    decreases part.len(),
{
    if part.len() == 0 {
        Seq::empty()
    } else {
        let before = remaining_devices(part.drop_last(), nets, id);
        let last = part.last();
        if last.network_id == id || is_under(nets, last.network_id, id) {
            before
        } else {
            before.push(last)
        }
    }
}

impl State {
    /// What a removal at the network `id` does.
    ///
    /// Refused where the network is not there. Else every network that lies
    /// under `id` goes, with every device of those networks and of `id`.
    /// With `with_top`, `id` goes too; without, it stays and its counters
    /// become those of an untouched block. No other network changes: the
    /// counters of the ancestors of `id` stay as they are.
    pub open spec fn after_removal(self, id: u128, with_top: bool) -> (
        State,
        Result<Removed, Error>,
    ) {
        if !has_network(self.networks, id) {
            (self, Err(Error::NotFound))
        } else {
            let networks = remaining_networks(self.networks, self.networks, id, with_top);
            let devices = remaining_devices(self.devices, self.networks, id);
            (
                State { networks, devices },
                Ok(
                    Removed {
                        networks_deleted: (self.networks.len() - networks.len()) as usize,
                        devices_deleted: (self.devices.len() - devices.len()) as usize,
                    },
                ),
            )
        }
    }

    /// What the removal of the device on `ip` in the network `network_id`
    /// does. Refused where the device is not there. No counter changes.
    pub open spec fn after_delete_device(self, ip: IpAddress, network_id: u128) -> (
        State,
        Result<Device, Error>,
    ) {
        if !has_device(self.devices, ip, network_id) {
            (self, Err(Error::NotFound))
        } else {
            let at = device_position(self.devices, ip, network_id);
            (
                State { networks: self.networks, devices: self.devices.remove(at) },
                Ok(self.devices[at]),
            )
        }
    }
}

/// What stays of a part of the networks: each network that stays is one of
/// the part, unchanged but for the counters, and no network stays twice.
pub proof fn lemma_remaining_networks(
    part: Seq<Network>,
    all: Seq<Network>,
    id: u128,
    with_top: bool,
)
    requires
        ids_unique(part),
    ensures
        remaining_networks(part, all, id, with_top).len() <= part.len(),
        ids_unique(remaining_networks(part, all, id, with_top)),
        forall|i: int|
            0 <= i < remaining_networks(part, all, id, with_top).len() ==> {
                let kept = #[trigger] remaining_networks(part, all, id, with_top)[i];
                &&& !is_removed(all, kept.id, id, with_top)
                &&& has_network(part, kept.id)
                &&& kept == if kept.id == id {
                    network_of(part, kept.id).emptied()
                } else {
                    network_of(part, kept.id)
                }
            },
        forall|j: int|
            0 <= j < part.len() && !is_removed(all, (#[trigger] part[j]).id, id, with_top)
                ==> has_network(remaining_networks(part, all, id, with_top), part[j].id),
    decreases part.len(),
{
    let rest = remaining_networks(part, all, id, with_top);
    if part.len() > 0 {
        let head = part.drop_last();
        let before = remaining_networks(head, all, id, with_top);
        let last = part.last();
        assert forall|i: int, j: int|
            0 <= i < head.len() && 0 <= j < head.len() && #[trigger] head[i].id
                == #[trigger] head[j].id implies i == j by {
            assert(part[i].id == part[j].id);
        }
        lemma_remaining_networks(head, all, id, with_top);
        assert forall|i: int| 0 <= i < before.len() implies has_network(
            part,
            (#[trigger] before[i]).id,
        ) && network_of(part, before[i].id) == network_of(head, before[i].id) && before[i].id
            != last.id by {
            let p = position(head, before[i].id);
            assert(part[p].id == before[i].id);
            lemma_position(part, p);
            assert(part[part.len() - 1].id == last.id);
        }
        lemma_position(part, part.len() - 1);
        assert forall|i: int| 0 <= i < rest.len() implies {
            let kept = #[trigger] rest[i];
            &&& !is_removed(all, kept.id, id, with_top)
            &&& has_network(part, kept.id)
            &&& kept == if kept.id == id {
                network_of(part, kept.id).emptied()
            } else {
                network_of(part, kept.id)
            }
        } by {
            if i < before.len() {
                assert(rest[i] == before[i]);
            }
        }
        assert forall|i: int, j: int|
            0 <= i < rest.len() && 0 <= j < rest.len() && #[trigger] rest[i].id
                == #[trigger] rest[j].id implies i == j by {
            if i < before.len() && j < before.len() {
                assert(before[i].id == before[j].id);
            } else if i < before.len() {
                assert(before[i].id == rest[i].id);
            } else if j < before.len() {
                assert(before[j].id == rest[j].id);
            }
        }
        assert forall|j: int|
            0 <= j < part.len() && !is_removed(
                all,
                (#[trigger] part[j]).id,
                id,
                with_top,
            ) implies has_network(rest, part[j].id) by {
            if j < head.len() {
                assert(head[j].id == part[j].id);
                let p = position(before, part[j].id);
                assert(rest[p].id == part[j].id);
            } else {
                assert(rest[rest.len() - 1].id == last.id);
            }
        }
    }
}

/// What stays of a part of the devices: each device that stays is one of
/// the part, of a network that stays, and no device stays twice.
pub proof fn lemma_remaining_devices(part: Seq<Device>, nets: Seq<Network>, id: u128)
    requires
        keys_unique(part),
    ensures
        remaining_devices(part, nets, id).len() <= part.len(),
        keys_unique(remaining_devices(part, nets, id)),
        forall|i: int|
            0 <= i < remaining_devices(part, nets, id).len() ==> {
                let kept = #[trigger] remaining_devices(part, nets, id)[i];
                &&& kept.network_id != id
                &&& !is_under(nets, kept.network_id, id)
                &&& part.contains(kept)
            },
    decreases part.len(),
{
    let rest = remaining_devices(part, nets, id);
    if part.len() > 0 {
        let head = part.drop_last();
        let before = remaining_devices(head, nets, id);
        let last = part.last();
        assert forall|i: int, j: int|
            0 <= i < head.len() && 0 <= j < head.len() && (#[trigger] head[i]).is_at(
                (#[trigger] head[j]).ip,
                head[j].network_id,
            ) implies i == j by {
            assert(part[i].is_at(part[j].ip, part[j].network_id));
        }
        lemma_remaining_devices(head, nets, id);
        assert forall|i: int| 0 <= i < before.len() implies part.contains(#[trigger] before[i])
            && !before[i].is_at(last.ip, last.network_id) by {
            let p = choose|p: int| 0 <= p < head.len() && head[p] == before[i];
            assert(part[p] == before[i]);
            if before[i].is_at(last.ip, last.network_id) {
                assert(part[p].is_at(part[part.len() - 1].ip, part[part.len() - 1].network_id));
            }
        }
        assert(part[part.len() - 1] == last);
        assert forall|i: int| 0 <= i < rest.len() implies {
            let kept = #[trigger] rest[i];
            &&& kept.network_id != id
            &&& !is_under(nets, kept.network_id, id)
            &&& part.contains(kept)
        } by {
            if i < before.len() {
                assert(rest[i] == before[i]);
            }
        }
        assert forall|i: int, j: int|
            0 <= i < rest.len() && 0 <= j < rest.len() && (#[trigger] rest[i]).is_at(
                (#[trigger] rest[j]).ip,
                rest[j].network_id,
            ) implies i == j by {
            if i < before.len() && j < before.len() {
                assert(before[i].is_at(before[j].ip, before[j].network_id));
            } else if i < before.len() {
                assert(before[i] == rest[i]);
            } else if j < before.len() {
                assert(before[j] == rest[j]);
            }
        }
    }
}

/// A removal leaves a well-formed state.
pub proof fn lemma_removal_keeps_wf(state: State, id: u128, with_top: bool)
    requires
        state.wf(),
        has_network(state.networks, id),
    ensures
        state.after_removal(id, with_top).0.wf(),
{
    let nets = state.networks;
    let rest = remaining_networks(nets, nets, id, with_top);
    let devices = remaining_devices(state.devices, nets, id);
    lemma_remaining_networks(nets, nets, id, with_top);
    lemma_remaining_devices(state.devices, nets, id);
    assert forall|i: int| 0 <= i < rest.len() implies (#[trigger] rest[i]).wf() by {
        lemma_position_valid(nets, rest[i].id);
    }
    assert forall|i: int| 0 <= i < rest.len() && (#[trigger] rest[i]).father is Some implies has_network(
        rest,
        rest[i].father->0,
    ) && is_father_of(network_of(rest, rest[i].father->0), rest[i]) by {
        let kept = rest[i];
        let f = kept.father->0;
        lemma_position_valid(nets, kept.id);
        assert(network_of(nets, kept.id).father == Some(f));
        lemma_ancestors_unfold(nets, kept.id);
        lemma_position_valid(nets, f);
        if kept.id == id {
            lemma_father_is_not_under(nets, id);
        } else {
            lemma_under_by_father(nets, kept.id, id);
        }
        assert(!is_removed(nets, f, id, with_top));
        assert(has_network(rest, f));
        let p = position(rest, f);
        lemma_position_valid(rest, f);
        lemma_position_valid(nets, rest[p].id);
    }
    assert forall|i: int| 0 <= i < devices.len() implies has_network(
        rest,
        (#[trigger] devices[i]).network_id,
    ) by {
        let d = devices[i];
        let p = choose|p: int| 0 <= p < state.devices.len() && state.devices[p] == d;
        assert(has_network(nets, state.devices[p].network_id));
        lemma_position_valid(nets, d.network_id);
    }
}

/// Whether `places` says of every id of `nets` where its network stands,
/// and of no other id.
pub open spec fn is_index_of(places: Map<u128, usize>, nets: Seq<Network>) -> bool {
    &&& forall|id: u128| #[trigger] places.contains_key(id) <==> has_network(nets, id)
    &&& forall|id: u128|
        has_network(nets, id) ==> #[trigger] places[id] == position(nets, id)
}

impl Ipam {
    /// Where each network stands, by its id.
    fn places(&self) -> (places: HashMap<u128, usize>)
        requires
            self@.wf(),
        ensures
            is_index_of(places@, self@.networks),
    {
        broadcast use vstd::std_specs::hash::group_hash_axioms;

        let mut places: HashMap<u128, usize> = HashMap::new();
        let mut i: usize = 0;
        while i < self.networks.len()
            invariant
                self@.wf(),
                i <= self.networks@.len(),
                forall|id: u128|
                    #[trigger] places@.contains_key(id) <==> exists|j: int|
                        0 <= j < i && #[trigger] self.networks@[j].id == id,
                forall|j: int| 0 <= j < i ==> places@[(#[trigger] self.networks@[j]).id] == j,
            decreases self.networks@.len() - i,
        {
            places.insert(self.networks[i].id, i);
            i = i + 1;
        }
        proof {
            assert forall|id: u128| has_network(self@.networks, id) implies #[trigger] places@[id]
                == position(self@.networks, id) by {
                lemma_position_valid(self@.networks, id);
            }
        }
        places
    }

    /// Whether the network `start` lies under the network `id`.
    fn lies_under(&self, start: u128, id: u128, places: &HashMap<u128, usize>) -> (r: bool)
        requires
            self@.wf(),
            has_network(self@.networks, start),
            is_index_of(places@, self@.networks),
        ensures
            r == is_under(self@.networks, start, id),
    {
        broadcast use vstd::std_specs::hash::group_hash_axioms;

        if start == id {
            return false;
        }
        let mut current: u128 = start;
        loop
            invariant
                self@.wf(),
                has_network(self@.networks, current),
                is_index_of(places@, self@.networks),
                current != id,
                is_under(self@.networks, start, id) == is_under(self@.networks, current, id),
            decreases network_of(self@.networks, current).network.prefix(),
        {
            proof {
                lemma_position_valid(self@.networks, current);
            }
            let at: usize = *places.get(&current).unwrap();
            proof {
                lemma_position(self@.networks, at as int);
                lemma_under_by_father(self@.networks, current, id);
                lemma_ancestors_unfold(self@.networks, current);
            }
            match self.networks[at].father {
                None => {
                    return false;
                },
                Some(f) => {
                    if f == id {
                        return true;
                    }
                    current = f;
                },
            }
        }
    }

    /// Removes what lies under the network `id`, and the network itself
    /// where `with_top` says so.
    fn remove(&mut self, id: u128, with_top: bool) -> (r: Result<Removed, Error>)
        requires
            old(self)@.wf(),
        ensures
            final(self)@.wf(),
            (final(self)@, r) == old(self)@.after_removal(id, with_top),
    {
        if self.find_network(id).is_none() {
            return Err(Error::NotFound);
        }
        broadcast use vstd::std_specs::hash::group_hash_axioms;

        let ghost nets = self@.networks;
        let ghost devices = self@.devices;
        let places = self.places();
        let mut under: Vec<bool> = Vec::new();
        let mut i: usize = 0;
        while i < self.networks.len()
            invariant
                self@.wf(),
                self@.networks == nets,
                is_index_of(places@, nets),
                i <= nets.len(),
                under@.len() == i,
                forall|k: int| 0 <= k < i ==> #[trigger] under@[k] == is_under(nets, nets[k].id, id),
            decreases nets.len() - i,
        {
            proof {
                lemma_position(nets, i as int);
            }
            let flag = self.lies_under(self.networks[i].id, id, &places);
            under.push(flag);
            i = i + 1;
        }
        let mut kept_devices: Vec<Device> = Vec::new();
        let mut devices_deleted: usize = 0;
        let mut j: usize = 0;
        while j < self.devices.len()
            invariant
                self@.wf(),
                self@.networks == nets,
                self@.devices == devices,
                is_index_of(places@, nets),
                under@.len() == nets.len(),
                forall|k: int|
                    0 <= k < nets.len() ==> #[trigger] under@[k] == is_under(nets, nets[k].id, id),
                j <= devices.len(),
                kept_devices@ == remaining_devices(devices.take(j as int), nets, id),
                devices_deleted + kept_devices@.len() == j,
            decreases devices.len() - j,
        {
            let owner: u128 = self.devices[j].network_id;
            proof {
                assert(has_network(nets, devices[j as int].network_id));
                lemma_position_valid(nets, owner);
            }
            let at: usize = *places.get(&owner).unwrap();
            proof {
                assert(devices.take(j + 1).drop_last() =~= devices.take(j as int));
                lemma_position(nets, at as int);
            }
            if owner == id || under[at] {
                devices_deleted = devices_deleted + 1;
            } else {
                kept_devices.push(self.devices[j].clone());
            }
            j = j + 1;
        }
        let mut kept: Vec<Network> = Vec::new();
        let mut networks_deleted: usize = 0;
        let mut n: usize = 0;
        while n < self.networks.len()
            invariant
                self@.wf(),
                self@.networks == nets,
                under@.len() == nets.len(),
                forall|k: int|
                    0 <= k < nets.len() ==> #[trigger] under@[k] == is_under(nets, nets[k].id, id),
                n <= nets.len(),
                kept@ == remaining_networks(nets.take(n as int), nets, id, with_top),
                networks_deleted + kept@.len() == n,
            decreases nets.len() - n,
        {
            proof {
                assert(nets.take(n + 1).drop_last() =~= nets.take(n as int));
            }
            let is_top: bool = self.networks[n].id == id;
            if under[n] || (with_top && is_top) {
                networks_deleted = networks_deleted + 1;
            } else {
                let mut record = self.networks[n].clone();
                if is_top {
                    record.reset_counters();
                }
                kept.push(record);
            }
            n = n + 1;
        }
        proof {
            assert(nets.take(n as int) =~= nets);
            assert(devices.take(j as int) =~= devices);
            lemma_removal_keeps_wf(self@, id, with_top);
        }
        self.networks = kept;
        self.devices = kept_devices;
        Ok(Removed { networks_deleted, devices_deleted })
    }

    /// Removes every network that lies under the network `id`, with every
    /// device of those networks and of `id` itself, and sets the counters of
    /// `id` to those of an untouched block.
    pub fn delete_subtree(&mut self, id: u128) -> (r: Result<Removed, Error>)
        requires
            old(self)@.wf(),
        ensures
            final(self)@.wf(),
            (final(self)@, r) == old(self)@.after_removal(id, false),
    {
        self.remove(id, false)
    }

    /// Removes the network `id` with every network that lies under it and
    /// every device of all of them. The counters of the ancestors stay as
    /// they are.
    pub fn delete_network(&mut self, id: u128) -> (r: Result<Removed, Error>)
        requires
            old(self)@.wf(),
        ensures
            final(self)@.wf(),
            (final(self)@, r) == old(self)@.after_removal(id, true),
    {
        self.remove(id, true)
    }

    /// Removes the device on `ip` in the network `network_id` and hands it
    /// back.
    pub fn delete_device(&mut self, ip: IpAddress, network_id: u128) -> (r: Result<Device, Error>)
        requires
            old(self)@.wf(),
        ensures
            final(self)@.wf(),
            (final(self)@, r) == old(self)@.after_delete_device(ip, network_id),
    {
        match self.find_device(ip, network_id) {
            Some(at) => {
                proof {
                    crate::ipam::events::lemma_device_position(self@.devices, at as int);
                    let rest = self@.devices.remove(at as int);
                    assert forall|i: int, j: int|
                        0 <= i < rest.len() && 0 <= j < rest.len() && (#[trigger] rest[i]).is_at(
                            (#[trigger] rest[j]).ip,
                            rest[j].network_id,
                        ) implies i == j by {
                        let a = if i < at {
                            i
                        } else {
                            i + 1
                        };
                        let b = if j < at {
                            j
                        } else {
                            j + 1
                        };
                        assert(self@.devices[a].is_at(
                            self@.devices[b].ip,
                            self@.devices[b].network_id,
                        ));
                    }
                    assert forall|i: int| 0 <= i < rest.len() implies has_network(
                        self@.networks,
                        (#[trigger] rest[i]).network_id,
                    ) by {
                        let a = if i < at {
                            i
                        } else {
                            i + 1
                        };
                        assert(rest[i] == self@.devices[a]);
                    }
                }
                Ok(self.devices.remove(at))
            },
            None => Err(Error::NotFound),
        }
    }
}

} // verus!
