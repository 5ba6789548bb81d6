//! Reading the records of the engine.

use crate::device::Device;
use crate::ipam::Ipam;
use crate::network::Network;
use vstd::prelude::*;

verus! {

/// The networks of `nets` that name `father` as their father, in their
/// order. With `None`, the roots.
pub open spec fn networks_under(nets: Seq<Network>, father: Option<u128>) -> Seq<Network>
    decreases nets.len(),
{
    if nets.len() == 0 {
        Seq::empty()
    } else if nets.last().father == father {
        networks_under(nets.drop_last(), father).push(nets.last())
    } else {
        networks_under(nets.drop_last(), father)
    }
}

/// The devices of `devices` that belong to the network `network_id`, in
/// their order.
pub open spec fn devices_in(devices: Seq<Device>, network_id: u128) -> Seq<Device>
    decreases devices.len(),
{
    if devices.len() == 0 {
        Seq::empty()
    } else if devices.last().network_id == network_id {
        devices_in(devices.drop_last(), network_id).push(devices.last())
    } else {
        devices_in(devices.drop_last(), network_id)
    }
}

impl Ipam {
    /// How many networks the engine holds.
    pub fn network_count(&self) -> (n: usize)
        ensures
            n == self@.networks.len(),
    {
        self.networks.len()
    }

    /// How many devices the engine holds.
    pub fn device_count(&self) -> (n: usize)
        ensures
            n == self@.devices.len(),
    {
        self.devices.len()
    }

    /// The networks whose father is `father`; with `None`, the roots.
    pub fn networks_with_father(&self, father: Option<u128>) -> (out: Vec<Network>)
        ensures
            out@ == networks_under(self@.networks, father),
    {
        let mut out: Vec<Network> = Vec::new();
        let mut i: usize = 0;
        while i < self.networks.len()
            invariant
                i <= self.networks@.len(),
                out@ == networks_under(self.networks@.take(i as int), father),
            decreases self.networks@.len() - i,
        {
            proof {
                assert(self.networks@.take(i + 1).drop_last() =~= self.networks@.take(i as int));
            }
            let same: bool = match (self.networks[i].father, father) {
                (Some(a), Some(b)) => a == b,
                (None, None) => true,
                _ => false,
            };
            if same {
                out.push(self.networks[i].clone());
            }
            i = i + 1;
        }
        assert(self.networks@.take(i as int) =~= self.networks@);
        out
    }

    /// The devices of the network `network_id`.
    pub fn devices_of(&self, network_id: u128) -> (out: Vec<Device>)
        ensures
            out@ == devices_in(self@.devices, network_id),
    {
        let mut out: Vec<Device> = Vec::new();
        let mut i: usize = 0;
        while i < self.devices.len()
            invariant
                i <= self.devices@.len(),
                out@ == devices_in(self.devices@.take(i as int), network_id),
            decreases self.devices@.len() - i,
        {
            proof {
                assert(self.devices@.take(i + 1).drop_last() =~= self.devices@.take(i as int));
            }
            if self.devices[i].network_id == network_id {
                out.push(self.devices[i].clone());
            }
            i = i + 1;
        }
        assert(self.devices@.take(i as int) =~= self.devices@);
        out
    }
}

} // verus!
