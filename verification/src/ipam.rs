//! The engine: a forest of networks and the devices on their addresses.

use crate::cidr::IpAddress;
use crate::device::Device;
use crate::forest::{
    ancestors, apply_along, forest_wf, has_network, lemma_applied_keeps_forest, lemma_position,
    lemma_position_valid, lemma_same_shape_ancestors, lemma_same_shape_lookup,
    lemma_same_shape_trans, network_of,
    propagate, same_shape, CounterFailure,
};
use crate::network::{CounterOp, Network};
use vstd::prelude::*;

pub mod bulk;
pub mod create;
pub mod events;
pub mod laws;
pub mod load;
pub mod query;
pub mod removal;
pub mod subdivide;

pub use events::DeviceChange;
pub use removal::Removed;
pub use subdivide::Subdivision;

verus! {

/// What the engine holds, as two sequences of records.
pub struct State {
    pub networks: Seq<Network>,
    pub devices: Seq<Device>,
}

/// Whether a device on `ip` in the network `network_id` is among `devices`.
pub open spec fn has_device(devices: Seq<Device>, ip: IpAddress, network_id: u128) -> bool {
    exists|i: int| 0 <= i < devices.len() && (#[trigger] devices[i]).is_at(ip, network_id)
}

/// Where the device on `ip` in the network `network_id` stands.
pub open spec fn device_position(devices: Seq<Device>, ip: IpAddress, network_id: u128) -> int {
    choose|i: int| 0 <= i < devices.len() && (#[trigger] devices[i]).is_at(ip, network_id)
}

/// No two devices share an address within a network.
pub open spec fn keys_unique(devices: Seq<Device>) -> bool {
    forall|i: int, j: int|
        0 <= i < devices.len() && 0 <= j < devices.len() && (#[trigger] devices[i]).is_at(
            (#[trigger] devices[j]).ip,
            devices[j].network_id,
        ) ==> i == j
}

impl State {
    /// The networks form a forest, devices are unique by address within
    /// their network, and every device belongs to one of the networks.
    pub open spec fn wf(self) -> bool {
        &&& forest_wf(self.networks)
        &&& keys_unique(self.devices)
        &&& forall|i: int|
            0 <= i < self.devices.len() ==> has_network(
                self.networks,
                (#[trigger] self.devices[i]).network_id,
            )
    }
}

/// The engine. It owns its records: they change through its methods only.
pub struct Ipam {
    networks: Vec<Network>,
    devices: Vec<Device>,
}

impl View for Ipam {
    type V = State;

    closed spec fn view(&self) -> State {
        State { networks: self.networks@, devices: self.devices@ }
    }
}

impl Ipam {
    /// An engine without networks and devices.
    pub fn new() -> (ipam: Ipam)
        ensures
            ipam@.networks.len() == 0,
            ipam@.devices.len() == 0,
            ipam@.wf(),
    {
        Ipam { networks: Vec::new(), devices: Vec::new() }
    }

    fn find_network(&self, id: u128) -> (r: Option<usize>)
        ensures
            r is Some <==> has_network(self@.networks, id),
            r is Some ==> r->0 < self@.networks.len() && self@.networks[r->0 as int].id == id,
    {
        let mut i: usize = 0;
        while i < self.networks.len()
            invariant
                i <= self.networks@.len(),
                forall|k: int| 0 <= k < i ==> (#[trigger] self.networks@[k]).id != id,
            decreases self.networks@.len() - i,
        {
            if self.networks[i].id == id {
                return Some(i);
            }
            i = i + 1;
        }
        None
    }

    fn find_device(&self, ip: IpAddress, network_id: u128) -> (r: Option<usize>)
        ensures
            r is Some <==> has_device(self@.devices, ip, network_id),
            r is Some ==> r->0 < self@.devices.len() && self@.devices[r->0 as int].is_at(
                ip,
                network_id,
            ),
    {
        let mut i: usize = 0;
        while i < self.devices.len()
            invariant
                i <= self.devices@.len(),
                forall|k: int| 0 <= k < i ==> !(#[trigger] self.devices@[k]).is_at(ip, network_id),
            decreases self.devices@.len() - i,
        {
            if self.devices[i].ip == ip && self.devices[i].network_id == network_id {
                return Some(i);
            }
            i = i + 1;
        }
        None
    }

    /// The network with this id, if there is one.
    pub fn network(&self, id: u128) -> (r: Option<Network>)
        requires
            self@.wf(),
        ensures
            r is Some <==> has_network(self@.networks, id),
            r is Some ==> r->0 == network_of(self@.networks, id),
    {
        match self.find_network(id) {
            Some(i) => {
                proof {
                    lemma_position(self@.networks, i as int);
                }
                Some(self.networks[i].clone())
            },
            None => None,
        }
    }

    /// The device on `ip` in the network `network_id`, if there is one.
    pub fn device(&self, ip: IpAddress, network_id: u128) -> (r: Option<Device>)
        requires
            self@.wf(),
        ensures
            r is Some <==> has_device(self@.devices, ip, network_id),
            r is Some ==> r->0 == self@.devices[device_position(self@.devices, ip, network_id)],
    {
        match self.find_device(ip, network_id) {
            Some(i) => Some(self.devices[i].clone()),
            None => None,
        }
    }

    /// Makes a counter change on the network `start` and then on each of
    /// its ancestors, up to the root or the first network that refuses.
    fn walk_up(&mut self, start: u128, op: CounterOp) -> (failure: Option<CounterFailure>)
        requires
            old(self)@.wf(),
            has_network(old(self)@.networks, start),
        ensures
            final(self)@.wf(),
            final(self)@.devices == old(self)@.devices,
            same_shape(old(self)@.networks, final(self)@.networks),
            (final(self)@.networks, failure) == propagate(old(self)@.networks, start, op),
    {
        let mut current: u128 = start;
        loop
            invariant
                old(self)@.wf(),
                forest_wf(self@.networks),
                self@.devices == old(self)@.devices,
                same_shape(old(self)@.networks, self@.networks),
                has_network(self@.networks, current),
                propagate(self@.networks, current, op) == propagate(old(self)@.networks, start, op),
            decreases network_of(self@.networks, current).network.prefix(),
        {
            let at: usize = self.find_network(current).unwrap();
            let ghost before = self@.networks;
            proof {
                lemma_position(before, at as int);
                before[at as int].lemma_applied_wf(op);
                lemma_applied_keeps_forest(before, at as int, op);
            }
            let mut record = self.networks[at].clone();
            let outcome = record.apply(op);
            let father = record.father;
            self.networks.set(at, record);
            proof {
                let after = self@.networks;
                assert(after =~= before.update(at as int, before[at as int].applied(op)));
                lemma_same_shape_trans(old(self)@.networks, before, after);
            }
            match outcome {
                Err(error) => {
                    proof {
                        lemma_shape_keeps_devices(old(self)@, self@.networks);
                    }
                    return Some(CounterFailure { network: current, error });
                },
                Ok(()) => {},
            }
            match father {
                None => {
                    proof {
                        let chain = ancestors(before, current);
                        assert(chain =~= seq![current]);
                        assert(chain.drop_first() =~= Seq::<u128>::empty());
                        assert(apply_along(self@.networks, chain.drop_first(), op) == (
                            self@.networks,
                            None::<CounterFailure>,
                        ));
                        lemma_shape_keeps_devices(old(self)@, self@.networks);
                    }
                    return None;
                },
                Some(f) => {
                    proof {
                        let after = self@.networks;
                        lemma_position_valid(before, f);
                        assert(ancestors(before, current).drop_first() =~= ancestors(before, f));
                        lemma_same_shape_ancestors(before, after, f);
                        lemma_same_shape_lookup(before, after, f);
                    }
                    current = f;
                },
            }
        }
    }
}

/// Devices that belong to networks of a forest belong to those of a forest
/// that holds at least the same ids.
pub proof fn lemma_grown_keeps_devices(before: State, networks: Seq<Network>)
    requires
        before.wf(),
        forest_wf(networks),
        forall|id: u128| has_network(before.networks, id) ==> has_network(networks, id),
    ensures
        (State { networks, devices: before.devices }).wf(),
{
}

/// Devices that belong to the networks of a forest belong to those of any
/// forest of the same shape.
pub proof fn lemma_shape_keeps_devices(before: State, networks: Seq<Network>)
    requires
        before.wf(),
        same_shape(before.networks, networks),
        forest_wf(networks),
    ensures
        (State { networks, devices: before.devices }).wf(),
{
    assert forall|i: int| 0 <= i < before.devices.len() implies has_network(
        networks,
        (#[trigger] before.devices[i]).network_id,
    ) by {
        lemma_same_shape_lookup(
            before.networks,
            networks,
            before.devices[i].network_id,
        );
    }
}

} // verus!
