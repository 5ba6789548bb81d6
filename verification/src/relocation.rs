//! Changing the address or the network of a device.

use crate::cidr::IpAddress;
use crate::device::Credential;
use crate::network::Network;
use vstd::prelude::*;

verus! {

/// What to change of a device. A field that is `None` stays as it is.
#[derive(Debug, PartialEq, Eq)]
pub struct UpdateDevice {
    pub ip: Option<IpAddress>,
    pub description: Option<String>,
    pub location: Option<String>,
    pub network_id: Option<u128>,
    pub credential: Option<Credential>,
}

/// What has to happen to the records before a device is changed.
#[derive(Clone, Copy, Debug, PartialEq, Eq, Structural)]
pub enum Relocation {
    /// The device keeps its address and its network: nothing.
    Stay,
    /// The device moves: whatever device is on `ip` in the network
    /// `network_id` gives way first.
    Clear { ip: IpAddress, network_id: u128 },
}

/// Why a device cannot be changed as asked.
#[derive(Clone, Copy, Debug, PartialEq, Eq, Structural)]
pub enum RelocationError {
    /// The address and the network asked for are those that the device has.
    Unchanged,
    /// The address does not lie in the network that the device is to be in.
    Incompatible,
}

/// The network that a device is in after the change.
pub open spec fn target_network(update_network: Option<u128>, network_id: u128) -> u128 {
    match update_network {
        Some(id) => id,
        None => network_id,
    }
}

/// What has to happen before the device on `ip` in the network
/// `network_id` is changed as `update_ip` and `update_network` ask, where
/// `target` is the network that it is to be in.
///
/// A change that names neither an address nor a network moves nothing. One
/// that names only what the device has is refused. Else the address that
/// the device is to have, the new one or its own, has to lie in the target
/// network, and the place on it there is cleared.
pub open spec fn relocation(
    update_ip: Option<IpAddress>,
    update_network: Option<u128>,
    ip: IpAddress,
    network_id: u128,
    target: Network,
) -> Result<Relocation, RelocationError> {
    if update_ip is None && update_network is None {
        Ok(Relocation::Stay)
    } else if !((update_ip is Some && update_ip->0 != ip) || (update_network is Some
        && update_network->0 != network_id)) {
        Err(RelocationError::Unchanged)
    } else {
        let place = match update_ip {
            Some(new_ip) => new_ip,
            None => ip,
        };
        if target.network.holds(place) {
            Ok(Relocation::Clear { ip: place, network_id: target.id })
        } else {
            Err(RelocationError::Incompatible)
        }
    }
}

impl UpdateDevice {
    /// The network that the device on `network_id` is to be in.
    pub fn target(&self, network_id: u128) -> (id: u128)
        ensures
            id == target_network(self.network_id, network_id),
    {
        match self.network_id {
            Some(id) => id,
            None => network_id,
        }
    }

    /// Decides what has to happen before the device on `ip` in the network
    /// `network_id` is changed, where `target` is the network that it is to
    /// be in.
    pub fn plan(&self, ip: IpAddress, network_id: u128, target: &Network) -> (r: Result<
        Relocation,
        RelocationError,
    >)
        ensures
            r == relocation(self.ip, self.network_id, ip, network_id, *target),
    {
        if self.ip.is_none() && self.network_id.is_none() {
            return Ok(Relocation::Stay);
        }
        let other_ip: bool = match self.ip {
            Some(new_ip) => new_ip != ip,
            None => false,
        };
        let other_network: bool = match self.network_id {
            Some(id) => id != network_id,
            None => false,
        };
        if !(other_ip || other_network) {
            return Err(RelocationError::Unchanged);
        }
        let place = match self.ip {
            Some(new_ip) => new_ip,
            None => ip,
        };
        if target.network.contains_addr(&place) {
            Ok(Relocation::Clear { ip: place, network_id: target.id })
        } else {
            Err(RelocationError::Incompatible)
        }
    }
}

} // verus!
