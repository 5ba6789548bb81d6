//! Making root networks and devices.

use crate::cidr::Cidr;
use crate::device::{Device, Status};
use crate::error::Error;
use crate::forest::{forest_wf, has_network, is_father_of, lemma_position, network_of, position};
use crate::ident::fresh_id;
use crate::ipam::{has_device, Ipam, State};
use crate::network::Network;
use crate::vlan::Vlan;
use vstd::prelude::*;

verus! {

/// The tag that a request names, if it names one.
pub open spec fn tag_of(vlan: Option<u16>) -> Option<Vlan> {
    match vlan {
        Some(num) => Some(Vlan::tag(num)),
        None => None,
    }
}

impl State {
    /// What the making of a root network with the identifier `id` does.
    ///
    /// A tag outside the range is refused, and so is an identifier that a
    /// network already has. Else the network joins the forest without a
    /// father, with nothing used and the whole budget of its block
    /// available and free.
    pub open spec fn after_create_root(
        self,
        id: u128,
        block: Cidr,
        vlan: Option<u16>,
        description: Option<String>,
    ) -> (State, Result<Network, Error>) {
        if vlan is Some && vlan->0 > Vlan::MAX {
            (self, Err(Error::InvalidVlan))
        } else if has_network(self.networks, id) {
            (self, Err(Error::BackendError))
        } else {
            let root = Network::fresh(id, block, tag_of(vlan), description, None);
            (State { networks: self.networks.push(root), devices: self.devices }, Ok(root))
        }
    }

    /// What the making of a device does. The device starts as `Unknown`,
    /// whatever state the request names.
    ///
    /// A device of a network that is not there is refused, and so is a
    /// second device on an address of a network.
    pub open spec fn after_create_device(self, device: Device) -> (State, Result<Device, Error>) {
        if !has_network(self.networks, device.network_id) {
            (self, Err(Error::NotFound))
        } else if has_device(self.devices, device.ip, device.network_id) {
            (self, Err(Error::BackendError))
        } else {
            let created = device.with_status(Status::Unknown);
            (State { networks: self.networks, devices: self.devices.push(created) }, Ok(created))
        }
    }
}

/// A forest with one more network that names no father, under a new id, is
/// a forest.
pub proof fn lemma_push_root(nets: Seq<Network>, root: Network)
    requires
        forest_wf(nets),
        root.wf(),
        root.father is None,
        !has_network(nets, root.id),
    ensures
        forest_wf(nets.push(root)),
        forall|id: u128| has_network(nets, id) ==> has_network(nets.push(root), id),
{
    let grown = nets.push(root);
    assert forall|id: u128| has_network(nets, id) implies has_network(grown, id) by {
        let i = position(nets, id);
        assert(grown[i].id == id);
    }
    assert forall|i: int, j: int|
        0 <= i < grown.len() && 0 <= j < grown.len() && #[trigger] grown[i].id
            == #[trigger] grown[j].id implies i == j by {
        if i < nets.len() {
            assert(nets[i].id == grown[i].id);
        }
        if j < nets.len() {
            assert(nets[j].id == grown[j].id);
        }
    }
    assert forall|i: int| 0 <= i < grown.len() && (#[trigger] grown[i]).father is Some implies has_network(
        grown,
        grown[i].father->0,
    ) && is_father_of(network_of(grown, grown[i].father->0), grown[i]) by {
        let f = grown[i].father->0;
        assert(nets[i].father == Some(f));
        let p = position(nets, f);
        assert(grown[p].id == f);
        lemma_position(grown, p);
    }
}

impl Ipam {
    /// Makes a root network under the identifier `id`.
    pub fn create_root_with_id(
        &mut self,
        id: u128,
        block: Cidr,
        vlan: Option<u16>,
        description: Option<String>,
    ) -> (r: Result<Network, Error>)
        requires
            old(self)@.wf(),
        ensures
            final(self)@.wf(),
            (final(self)@, r) == old(self)@.after_create_root(id, block, vlan, description),
            r is Ok && vlan is Some ==> r->Ok_0.vlan is Some && r->Ok_0.vlan->0@ == vlan->0,
    {
        proof {
            if vlan is Some {
                Vlan::lemma_tag(vlan->0);
            }
        }
        let tag = match vlan {
            Some(num) => match Vlan::new(num) {
                Ok(tag) => Some(tag),
                Err(_) => {
                    return Err(Error::InvalidVlan);
                },
            },
            None => None,
        };
        if self.find_network(id).is_some() {
            return Err(Error::BackendError);
        }
        let root = Network::new(id, block, tag, description, None);
        proof {
            lemma_push_root(self@.networks, root);
        }
        self.networks.push(root.clone());
        Ok(root)
    }

    /// Makes a root network under a freshly drawn identifier. What comes
    /// back is what [`Ipam::create_root_with_id`] gives for some identifier.
    pub fn create_root(&mut self, block: Cidr, vlan: Option<u16>, description: Option<String>) -> (r:
        Result<Network, Error>)
        requires
            old(self)@.wf(),
        ensures
            final(self)@.wf(),
            exists|id: u128|
                (final(self)@, r) == #[trigger] old(self)@.after_create_root(
                    id,
                    block,
                    vlan,
                    description,
                ),
    {
        let id: u128 = fresh_id();
        self.create_root_with_id(id, block, vlan, description)
    }

    /// Makes a device. It starts as `Unknown`.
    pub fn create_device(&mut self, device: Device) -> (r: Result<Device, Error>)
        requires
            old(self)@.wf(),
        ensures
            final(self)@.wf(),
            (final(self)@, r) == old(self)@.after_create_device(device),
    {
        if self.find_network(device.network_id).is_none() {
            return Err(Error::NotFound);
        }
        if self.find_device(device.ip, device.network_id).is_some() {
            return Err(Error::BackendError);
        }
        let mut created = device;
        created.status = Status::Unknown;
        proof {
            lemma_push_device(self@, created);
        }
        self.devices.push(created.clone());
        Ok(created)
    }
}

/// One more device, of one of the networks and on an address that no
/// device of that network has, keeps the state well-formed.
pub proof fn lemma_push_device(state: State, device: Device)
    requires
        state.wf(),
        has_network(state.networks, device.network_id),
        !has_device(state.devices, device.ip, device.network_id),
    ensures
        (State { networks: state.networks, devices: state.devices.push(device) }).wf(),
{
    let devices = state.devices.push(device);
    assert forall|i: int, j: int|
        0 <= i < devices.len() && 0 <= j < devices.len() && (#[trigger] devices[i]).is_at(
            (#[trigger] devices[j]).ip,
            devices[j].network_id,
        ) implies i == j by {
        if i < state.devices.len() && j < state.devices.len() {
            assert(state.devices[i].is_at(state.devices[j].ip, state.devices[j].network_id));
        } else if i < state.devices.len() {
            assert(state.devices[i].is_at(device.ip, device.network_id));
        } else if j < state.devices.len() {
            assert(state.devices[j].is_at(device.ip, device.network_id));
        }
    }
    assert forall|i: int| 0 <= i < devices.len() implies has_network(
        state.networks,
        (#[trigger] devices[i]).network_id,
    ) by {
        if i < state.devices.len() {
            assert(state.devices[i].network_id == devices[i].network_id);
        }
    }
}

} // verus!
