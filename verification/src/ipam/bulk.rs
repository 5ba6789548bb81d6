//! Making the devices of a whole network at once.

use crate::cidr::IpAddress;
use crate::device::Device;
use crate::error::Error;
use crate::forest::{has_network, lemma_position, network_of};
use crate::ipam::{has_device, keys_unique, Ipam, State};
use std::collections::HashSet;
use vstd::prelude::*;

verus! {

/// One new device for each of the addresses `hosts` on which the network
/// `id` has no device among `devices`, in the order of `hosts`.
pub open spec fn missing_devices(hosts: Seq<IpAddress>, devices: Seq<Device>, id: u128) -> Seq<
    Device,
>
    decreases hosts.len(),
{
    if hosts.len() == 0 {
        Seq::empty()
    } else {
        let before = missing_devices(hosts.drop_last(), devices, id);
        if has_device(devices, hosts.last(), id) {
            before
        } else {
            before.push(Device::fresh(hosts.last(), id))
        }
    }
}

impl State {
    /// What the making of all devices of the network `network_id` does.
    ///
    /// Refused where the network is not there. Else every usable host
    /// address of an IPv4 network that has no device yet gets a new one, in
    /// the state `Unknown`. An IPv6 network gets none.
    pub open spec fn after_bulk_create(self, network_id: u128) -> (
        State,
        Result<Seq<Device>, Error>,
    ) {
        if !has_network(self.networks, network_id) {
            (self, Err(Error::NotFound))
        } else {
            let created = missing_devices(
                network_of(self.networks, network_id).network.host_addresses(),
                self.devices,
                network_id,
            );
            (State { networks: self.networks, devices: self.devices + created }, Ok(created))
        }
    }
}

/// What came back from a bulk creation, with the list as a sequence.
pub open spec fn created_view(r: Result<Vec<Device>, Error>) -> Result<Seq<Device>, Error> {
    match r {
        Ok(created) => Ok(created@),
        Err(e) => Err(e),
    }
}

/// Every missing device is a new device of the network, on one of the
/// hosts, where no device was.
pub proof fn lemma_missing_devices(hosts: Seq<IpAddress>, devices: Seq<Device>, id: u128, i: int)
    requires
        0 <= i < missing_devices(hosts, devices, id).len(),
    ensures
        exists|j: int|
            0 <= j < hosts.len() && missing_devices(hosts, devices, id)[i] == Device::fresh(
                #[trigger] hosts[j],
                id,
            ),
        !has_device(devices, missing_devices(hosts, devices, id)[i].ip, id),
        missing_devices(hosts, devices, id)[i].network_id == id,
    decreases hosts.len(),
{
    if hosts.len() > 0 {
        let before = missing_devices(hosts.drop_last(), devices, id);
        if i < before.len() {
            lemma_missing_devices(hosts.drop_last(), devices, id, i);
            let j = choose|j: int|
                0 <= j < hosts.drop_last().len() && before[i] == Device::fresh(
                    #[trigger] hosts.drop_last()[j],
                    id,
                );
            assert(hosts[j] == hosts.drop_last()[j]);
        } else {
            assert(hosts[hosts.len() - 1] == hosts.last());
        }
    }
}

impl Ipam {
    /// The IPv4 addresses on which the network `network_id` has a device.
    fn addresses_in_use(&self, network_id: u128) -> (known: HashSet<u32>)
        ensures
            forall|a: u32|
                #[trigger] known@.contains(a) <==> has_device(
                    self@.devices,
                    IpAddress::V4(a),
                    network_id,
                ),
    {
        broadcast use vstd::std_specs::hash::group_hash_axioms;

        let mut known: HashSet<u32> = HashSet::new();
        let mut i: usize = 0;
        while i < self.devices.len()
            invariant
                i <= self.devices@.len(),
                forall|a: u32|
                    #[trigger] known@.contains(a) <==> exists|j: int|
                        0 <= j < i && (#[trigger] self.devices@[j]).is_at(
                            IpAddress::V4(a),
                            network_id,
                        ),
            decreases self.devices@.len() - i,
        {
            if self.devices[i].network_id == network_id {
                match self.devices[i].ip {
                    IpAddress::V4(a) => {
                        known.insert(a);
                    },
                    IpAddress::V6(_) => {},
                }
            }
            i = i + 1;
        }
        known
    }

    /// Makes one device for each usable host address of the network that
    /// has none yet, and hands the new devices back.
    pub fn bulk_create_devices(&mut self, network_id: u128) -> (r: Result<Vec<Device>, Error>)
        requires
            old(self)@.wf(),
        ensures
            final(self)@.wf(),
            (final(self)@, created_view(r)) == old(self)@.after_bulk_create(network_id),
    {
        let at: usize = match self.find_network(network_id) {
            Some(at) => at,
            None => {
                return Err(Error::NotFound);
            },
        };
        proof {
            lemma_position(self@.networks, at as int);
        }
        broadcast use vstd::std_specs::hash::group_hash_axioms;

        let block = self.networks[at].network;
        let hosts = block.hosts();
        let known = self.addresses_in_use(network_id);
        let existing: usize = self.devices.len();
        let mut created: Vec<Device> = Vec::new();
        let mut k: usize = 0;
        while k < hosts.len()
            invariant
                old(self)@.wf(),
                block.wf(),
                has_network(old(self)@.networks, network_id),
                hosts@ == block.host_addresses(),
                k <= hosts@.len(),
                existing == old(self)@.devices.len(),
                self@.networks == old(self)@.networks,
                self@.devices =~= old(self)@.devices + created@,
                created@ == missing_devices(hosts@.take(k as int), old(self)@.devices, network_id),
                keys_unique(self@.devices),
                forall|a: u32|
                    #[trigger] known@.contains(a) <==> has_device(
                        old(self)@.devices,
                        IpAddress::V4(a),
                        network_id,
                    ),
            decreases hosts@.len() - k,
        {
            let ip = hosts[k];
            let ghost seen = hosts@.take(k as int);
            proof {
                assert(hosts@.take(k + 1).drop_last() =~= seen);
                block.lemma_host_addresses(k as int, k as int);
            }
            let in_use: bool = match ip {
                IpAddress::V4(a) => known.contains(&a),
                IpAddress::V6(_) => false,
            };
            if !in_use {
                let device = Device::new(ip, network_id);
                proof {
                    let grown = self@.devices.push(device);
                    assert forall|i: int, j: int|
                        0 <= i < grown.len() && 0 <= j < grown.len() && (#[trigger] grown[i]).is_at(
                            (#[trigger] grown[j]).ip,
                            grown[j].network_id,
                        ) implies i == j by {
                        if i != j {
                            let other = if i < j {
                                i
                            } else {
                                j
                            };
                            assert(self@.devices[other].is_at(ip, network_id));
                            if other < existing {
                                assert(old(self)@.devices[other].is_at(ip, network_id));
                            } else {
                                lemma_missing_devices(
                                    seen,
                                    old(self)@.devices,
                                    network_id,
                                    other - existing,
                                );
                                let h = choose|h: int|
                                    0 <= h < seen.len() && created@[other - existing]
                                        == Device::fresh(#[trigger] seen[h], network_id);
                                block.lemma_host_addresses(h, k as int);
                            }
                        }
                    }
                }
                created.push(device.clone());
                self.devices.push(device);
            }
            k = k + 1;
        }
        proof {
            assert(hosts@.take(k as int) =~= hosts@);
            assert forall|i: int| 0 <= i < self@.devices.len() implies has_network(
                self@.networks,
                (#[trigger] self@.devices[i]).network_id,
            ) by {
                if i >= existing {
                    lemma_missing_devices(hosts@, old(self)@.devices, network_id, i - existing);
                } else {
                    assert(self@.devices[i] == old(self)@.devices[i]);
                }
            }
        }
        Ok(created)
    }
}

} // verus!
