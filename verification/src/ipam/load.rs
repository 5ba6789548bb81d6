//! Taking records in as they stand, and handing chains of records out.

use crate::device::Device;
use crate::error::Error;
use crate::forest::{
    ancestors, has_network, is_father_of, lemma_ancestors_unfold, lemma_position,
    network_of,
};
use crate::ipam::create::{lemma_push_device, lemma_push_root};
use crate::ipam::subdivide::lemma_push_child;
use crate::ipam::{has_device, lemma_grown_keeps_devices, Ipam, State};
use crate::network::Network;
use vstd::prelude::*;

verus! {

impl State {
    /// What the taking in of a network record does: the record joins the
    /// forest as it stands, counters and all.
    ///
    /// Refused, in this order: counters beyond the budget (`used` and
    /// `free` together more than `available`); an id that a network has; a
    /// father that is not there; a father whose block does not hold the
    /// record's, or whose prefix is not shorter.
    pub open spec fn after_adopt_network(self, record: Network) -> (State, Result<(), Error>) {
        if record.used@ + record.free@ > record.available@ {
            (self, Err(Error::CounterOverflow))
        } else if has_network(self.networks, record.id) {
            (self, Err(Error::BackendError))
        } else if record.father is Some && !has_network(self.networks, record.father->0) {
            (self, Err(Error::NotFound))
        } else if record.father is Some && !is_father_of(
            network_of(self.networks, record.father->0),
            record,
        ) {
            (self, Err(Error::ContainmentViolation))
        } else {
            (State { networks: self.networks.push(record), devices: self.devices }, Ok(()))
        }
    }

    /// What the taking in of a device record does: the record joins the
    /// devices as it stands, in whatever state it is.
    ///
    /// Refused: a device of a network that is not there; a second device on
    /// an address of a network.
    pub open spec fn after_adopt_device(self, record: Device) -> (State, Result<(), Error>) {
        if !has_network(self.networks, record.network_id) {
            (self, Err(Error::NotFound))
        } else if has_device(self.devices, record.ip, record.network_id) {
            (self, Err(Error::BackendError))
        } else {
            (State { networks: self.networks, devices: self.devices.push(record) }, Ok(()))
        }
    }
}

/// The records named by a chain of ids.
pub open spec fn records_of(nets: Seq<Network>, chain: Seq<u128>) -> Seq<Network> {
    chain.map_values(|id: u128| network_of(nets, id))
}

impl Ipam {
    /// Takes a network record in as it stands.
    pub fn adopt_network(&mut self, record: Network) -> (r: Result<(), Error>)
        requires
            old(self)@.wf(),
        ensures
            final(self)@.wf(),
            (final(self)@, r) == old(self)@.after_adopt_network(record),
    {
        proof {
            use_type_invariant(&record.network);
        }
        match &record.vlan {
            Some(tag) => {
                proof {
                    use_type_invariant(tag);
                }
            },
            None => {},
        }
        if record.used.value() as u64 + record.free.value() as u64 > record.available.value() as u64 {
            return Err(Error::CounterOverflow);
        }
        if self.find_network(record.id).is_some() {
            return Err(Error::BackendError);
        }
        match record.father {
            Some(f) => {
                let at: usize = match self.find_network(f) {
                    Some(at) => at,
                    None => {
                        return Err(Error::NotFound);
                    },
                };
                proof {
                    lemma_position(self@.networks, at as int);
                }
                let outer = self.networks[at].network;
                if !(outer.contains(&record.network) && outer.prefix_len()
                    < record.network.prefix_len()) {
                    return Err(Error::ContainmentViolation);
                }
                proof {
                    lemma_push_child(self@.networks, record);
                    lemma_grown_keeps_devices(self@, self@.networks.push(record));
                }
            },
            None => {
                proof {
                    lemma_push_root(self@.networks, record);
                    lemma_grown_keeps_devices(self@, self@.networks.push(record));
                }
            },
        }
        self.networks.push(record);
        Ok(())
    }

    /// Takes a device record in as it stands.
    pub fn adopt_device(&mut self, record: Device) -> (r: Result<(), Error>)
        requires
            old(self)@.wf(),
        ensures
            final(self)@.wf(),
            (final(self)@, r) == old(self)@.after_adopt_device(record),
    {
        if self.find_network(record.network_id).is_none() {
            return Err(Error::NotFound);
        }
        if self.find_device(record.ip, record.network_id).is_some() {
            return Err(Error::BackendError);
        }
        proof {
            lemma_push_device(self@, record);
        }
        self.devices.push(record);
        Ok(())
    }

    /// The network `id` and its ancestors, from the network up to its root.
    /// Empty where the network is not there.
    pub fn chain_of(&self, id: u128) -> (out: Vec<Network>)
        requires
            self@.wf(),
        ensures
            out@ == records_of(self@.networks, ancestors(self@.networks, id)),
    {
        let mut out: Vec<Network> = Vec::new();
        let mut current: u128 = id;
        let ghost nets = self@.networks;
        loop
            invariant
                self@.wf(),
                nets == self@.networks,
                records_of(nets, ancestors(nets, id)) =~= out@ + records_of(
                    nets,
                    ancestors(nets, current),
                ),
            decreases
                    (if has_network(nets, current) {
                        network_of(nets, current).network.prefix() + 1
                    } else {
                        0
                    }),
        {
            match self.find_network(current) {
                None => {
                    return out;
                },
                Some(at) => {
                    proof {
                        lemma_position(nets, at as int);
                        lemma_ancestors_unfold(nets, current);
                    }
                    out.push(self.networks[at].clone());
                    match self.networks[at].father {
                        None => {
                            return out;
                        },
                        Some(f) => {
                            proof {
                                assert(records_of(nets, ancestors(nets, current)) =~= seq![
                                    network_of(nets, current),
                                ] + records_of(nets, ancestors(nets, f)));
                            }
                            current = f;
                        },
                    }
                },
            }
        }
    }
}

} // verus!
