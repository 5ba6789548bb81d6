//! What an update asks of the stored fields of a record.
//!
//! An update names the fields to change. For a field that may be empty in
//! the store, an empty value in the update asks to empty the field.

use crate::cidr::{Cidr, IpAddress};
use crate::device::Credential;
use crate::network::UpdateNetwork;
use crate::relocation::UpdateDevice;
use crate::vlan::Vlan;
use vstd::prelude::*;
use vstd::string::StrSliceExecFns;

verus! {

/// What to do with a field that may be empty.
#[derive(Debug, PartialEq, Eq)]
pub enum Change<T> {
    /// Leave it as it is.
    Keep,
    /// Empty it.
    Clear,
    /// Store this value.
    Store(T),
}

impl<T> Change<T> {
    /// Whether the field stays as it is.
    pub fn is_keep(&self) -> (keep: bool)
        ensures
            keep == (self is Keep),
    {
        match self {
            Change::Keep => true,
            _ => false,
        }
    }
}

/// What an update asks of a text field: nothing where it names none, to
/// empty it where it names the empty text, else to store the text.
pub open spec fn text_change_of(value: Option<String>) -> Change<String> {
    match value {
        None => Change::Keep,
        Some(text) => if text@.len() == 0 {
            Change::Clear
        } else {
            Change::Store(text)
        },
    }
}

/// Says what an update asks of a text field.
pub fn text_change(value: Option<String>) -> (change: Change<String>)
    ensures
        change == text_change_of(value),
{
    match value {
        None => Change::Keep,
        Some(text) => if text.as_str().unicode_len() == 0 {
            Change::Clear
        } else {
            Change::Store(text)
        },
    }
}

/// What an update asks of the credential: nothing where it names none, to
/// empty it where it names one without user and password, else to store
/// it.
pub open spec fn credential_change_of(value: Option<Credential>) -> Change<Credential> {
    match value {
        None => Change::Keep,
        Some(credential) => if credential.username@.len() == 0 && credential.password@.len()
            == 0 {
            Change::Clear
        } else {
            Change::Store(credential)
        },
    }
}

/// What an update asks of a reference to another record: nothing where it
/// names none, to empty it where it names the nil identifier, else to store
/// the identifier.
pub open spec fn reference_change_of(value: Option<u128>) -> Change<u128> {
    match value {
        None => Change::Keep,
        Some(id) => if id == 0 {
            Change::Clear
        } else {
            Change::Store(id)
        },
    }
}

/// The fields of a device to store anew.
#[derive(Debug, PartialEq, Eq)]
pub struct DevicePatch {
    pub ip: Option<IpAddress>,
    pub description: Change<String>,
    pub network_id: Option<u128>,
    pub rack: Change<String>,
    pub credential: Change<Credential>,
}

impl UpdateDevice {
    /// The fields that the update changes. The location of the update is
    /// the rack of the device.
    pub open spec fn patch(self) -> DevicePatch {
        DevicePatch {
            ip: self.ip,
            description: text_change_of(self.description),
            network_id: self.network_id,
            rack: text_change_of(self.location),
            credential: credential_change_of(self.credential),
        }
    }

    /// Whether the update changes nothing.
    pub open spec fn is_idle(self) -> bool {
        self.ip is None && self.description is None && self.network_id is None && self.location
            is None && self.credential is None
    }

    /// The fields to store anew, or `None` where the update names none.
    pub fn get_pair(self) -> (r: Option<DevicePatch>)
        ensures
            r == if self.is_idle() {
                None
            } else {
                Some(self.patch())
            },
    {
        if self.ip.is_none() && self.description.is_none() && self.network_id.is_none()
            && self.location.is_none() && self.credential.is_none() {
            return None;
        }
        let credential = match self.credential {
            None => Change::Keep,
            Some(c) => if c.username.as_str().unicode_len() == 0 && c.password.as_str().unicode_len()
                == 0 {
                Change::Clear
            } else {
                Change::Store(c)
            },
        };
        Some(
            DevicePatch {
                ip: self.ip,
                description: text_change(self.description),
                network_id: self.network_id,
                rack: text_change(self.location),
                credential,
            },
        )
    }
}

/// The fields of a network to store anew.
#[derive(Debug, PartialEq, Eq)]
pub struct NetworkPatch {
    pub description: Change<String>,
    pub network: Option<Cidr>,
    pub vlan: Option<Vlan>,
}

impl UpdateNetwork {
    /// The fields to store anew, or `None` where the update names none.
    pub fn get_pair(self) -> (r: Option<NetworkPatch>)
        ensures
            r == if self.description is None && self.network is None && self.vlan is None {
                None
            } else {
                Some(
                    NetworkPatch {
                        description: text_change_of(self.description),
                        network: self.network,
                        vlan: self.vlan,
                    },
                )
            },
    {
        if self.description.is_none() && self.network.is_none() && self.vlan.is_none() {
            return None;
        }
        Some(
            NetworkPatch {
                description: text_change(self.description),
                network: self.network,
                vlan: self.vlan,
            },
        )
    }
}

/// What to change of an entry of the catalogue of services. A field that
/// is `None` stays as it is.
#[derive(Debug, PartialEq, Eq)]
pub struct ServicesUpdate {
    pub name: Option<String>,
    pub version: Option<String>,
}

/// The fields of an entry of the catalogue of services to store anew.
#[derive(Debug, PartialEq, Eq)]
pub struct ServicesPatch {
    pub name: Change<String>,
    pub version: Change<String>,
}

impl ServicesUpdate {
    /// The fields to store anew.
    pub fn get_pair(self) -> (r: ServicesPatch)
        ensures
            r == (ServicesPatch {
                name: text_change_of(self.name),
                version: text_change_of(self.version),
            }),
    {
        ServicesPatch { name: text_change(self.name), version: text_change(self.version) }
    }
}

/// What to change of a service that a device offers. A field that is `None`
/// stays as it is.
#[derive(Debug, PartialEq, Eq)]
pub struct ServiceUpdate {
    pub port: Option<u16>,
    pub ip: Option<IpAddress>,
    pub network_id: Option<u128>,
    pub service_id: Option<u128>,
    pub description: Option<String>,
}

/// The fields of a service to store anew.
#[derive(Debug, PartialEq, Eq)]
pub struct ServicePatch {
    pub port: Option<u16>,
    pub description: Change<String>,
    pub ip: Option<IpAddress>,
    pub network_id: Option<u128>,
    pub service_id: Change<u128>,
}

impl ServiceUpdate {
    /// The fields to store anew.
    pub fn get_pair(self) -> (r: ServicePatch)
        ensures
            r == (ServicePatch {
                port: self.port,
                description: text_change_of(self.description),
                ip: self.ip,
                network_id: self.network_id,
                service_id: reference_change_of(self.service_id),
            }),
    {
        let service_id = match self.service_id {
            None => Change::Keep,
            Some(id) => if id == 0 {
                Change::Clear
            } else {
                Change::Store(id)
            },
        };
        ServicePatch {
            port: self.port,
            description: text_change(self.description),
            ip: self.ip,
            network_id: self.network_id,
            service_id,
        }
    }
}

} // verus!
