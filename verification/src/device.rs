//! Devices and the states of their addresses.

use crate::cidr::{Cidr, IpAddress};
use vstd::prelude::*;

verus! {

/// What is known of the address of a device.
#[derive(Clone, Copy, Debug, PartialEq, Eq, Structural)]
pub enum Status {
    /// Set aside by an administrator.
    Reserved,
    /// Never probed and never reserved: the state of a new device.
    Unknown,
    /// The last probe was answered.
    Online,
    /// The last probe was not answered.
    Offline,
}

impl Default for Status {
    fn default() -> (s: Status)
        ensures
            s == Status::Unknown,
    {
        Status::Unknown
    }
}

/// What happened to a device.
#[derive(Clone, Copy, Debug, PartialEq, Eq, Structural)]
pub enum Event {
    /// A liveness probe was answered.
    ProbeSucceeded,
    /// A liveness probe was not answered.
    ProbeFailed,
    /// An administrator asked to set the address aside.
    Reserve,
}

/// The event that a probe with the given outcome is.
pub open spec fn probe_event(success: bool) -> Event {
    if success {
        Event::ProbeSucceeded
    } else {
        Event::ProbeFailed
    }
}

/// The state that an event leads to, or `None` where the event is not
/// allowed in the state.
///
/// | from       | probe answered | probe unanswered | reserve    |
/// |------------|----------------|------------------|------------|
/// | `Unknown`  | `Online`       | `Unknown`        | `Reserved` |
/// | `Online`   | `Online`       | `Offline`        | refused    |
/// | `Offline`  | `Online`       | `Offline`        | refused    |
/// | `Reserved` | refused        | `Offline`        | `Reserved` |
///
/// An event that finds the device in the state it asks for changes nothing
/// and is allowed. An unanswered probe tells nothing new of a device that
/// was never seen, so it stays `Unknown`.
pub open spec fn next_status(from: Status, event: Event) -> Option<Status> {
    match (from, event) {
        (Status::Unknown, Event::ProbeSucceeded) => Some(Status::Online),
        (Status::Offline, Event::ProbeSucceeded) => Some(Status::Online),
        (Status::Online, Event::ProbeSucceeded) => Some(Status::Online),
        (Status::Reserved, Event::ProbeSucceeded) => None,
        (Status::Online, Event::ProbeFailed) => Some(Status::Offline),
        (Status::Reserved, Event::ProbeFailed) => Some(Status::Offline),
        (Status::Offline, Event::ProbeFailed) => Some(Status::Offline),
        (Status::Unknown, Event::ProbeFailed) => Some(Status::Unknown),
        (Status::Unknown, Event::Reserve) => Some(Status::Reserved),
        (Status::Reserved, Event::Reserve) => Some(Status::Reserved),
        (Status::Online, Event::Reserve) => None,
        (Status::Offline, Event::Reserve) => None,
    }
}

/// Whether the event makes the device take up its address for the first
/// time: it leaves `Unknown`. Only then do host counters change.
pub open spec fn is_first_occupancy(from: Status, event: Event) -> bool {
    from == Status::Unknown && next_status(from, event) is Some && next_status(from, event)
        != Some(Status::Unknown)
}

/// The outcome of an allowed event.
#[derive(Clone, Copy, Debug, PartialEq, Eq, Structural)]
pub struct Transition {
    /// The state after the event.
    pub status: Status,
    /// Whether the host counters of the enclosing networks change.
    pub first_occupancy: bool,
}

/// The event was refused: the state does not allow it.
#[derive(Clone, Copy, Debug, PartialEq, Eq, Structural)]
pub struct InvalidTransition {
    pub from: Status,
    pub event: Event,
}

impl Status {
    /// Decides what an event does to a device in this state.
    pub fn on_event(self, event: Event) -> (r: Result<Transition, InvalidTransition>)
        ensures
            match next_status(self, event) {
                Some(to) => r == Ok::<Transition, InvalidTransition>(
                    (Transition { status: to, first_occupancy: is_first_occupancy(self, event) }),
                ),
                None => r == Err::<Transition, InvalidTransition>(
                    (InvalidTransition { from: self, event }),
                ),
            },
    {
        let refused = Err(InvalidTransition { from: self, event });
        match event {
            Event::ProbeSucceeded => match self {
                Status::Unknown => Ok(Transition { status: Status::Online, first_occupancy: true }),
                Status::Offline | Status::Online => Ok(
                    Transition { status: Status::Online, first_occupancy: false },
                ),
                Status::Reserved => refused,
            },
            Event::ProbeFailed => match self {
                Status::Unknown => Ok(
                    Transition { status: Status::Unknown, first_occupancy: false },
                ),
                _ => Ok(Transition { status: Status::Offline, first_occupancy: false }),
            },
            Event::Reserve => match self {
                Status::Unknown => Ok(
                    Transition { status: Status::Reserved, first_occupancy: true },
                ),
                Status::Reserved => Ok(
                    Transition { status: Status::Reserved, first_occupancy: false },
                ),
                _ => refused,
            },
        }
    }
}

/// Once a device has left `Unknown`, no event takes it back, and no event
/// is a first occupancy again.
pub proof fn law_unknown_is_never_reentered(from: Status, event: Event)
    requires
        from != Status::Unknown,
    ensures
        next_status(from, event) != Some(Status::Unknown),
        !is_first_occupancy(from, event),
{
}

/// A first occupancy leaves the device in a state in which the same event
/// is allowed and is no first occupancy.
pub proof fn law_first_occupancy_happens_once(from: Status, event: Event)
    requires
        is_first_occupancy(from, event),
    ensures
        next_status(next_status(from, event)->0, event) == next_status(from, event),
        !is_first_occupancy(next_status(from, event)->0, event),
{
}

/// A copy of an optional text.
pub(crate) fn copy_text(text: &Option<String>) -> (r: Option<String>)
    ensures
        r == *text,
{
    match text {
        Some(t) => Some(t.clone()),
        None => None,
    }
}

/// What a device asks for at login. The library stores it and hands it on,
/// and never looks inside.
#[derive(Debug, PartialEq, Eq)]
pub struct Credential {
    pub username: String,
    pub password: String,
}

impl Clone for Credential {
    fn clone(&self) -> (r: Credential)
        ensures
            r == *self,
    {
        Credential { username: self.username.clone(), password: self.password.clone() }
    }
}

/// A device on an address of a network. The address together with the
/// network identifies it.
#[derive(Debug, PartialEq, Eq)]
pub struct Device {
    pub ip: IpAddress,
    pub description: Option<String>,
    pub office_id: Option<u128>,
    pub rack: Option<String>,
    pub room: Option<String>,
    pub status: Status,
    pub network_id: u128,
    pub credential: Option<Credential>,
}

impl Clone for Device {
    fn clone(&self) -> (r: Device)
        ensures
            r == *self,
    {
        Device {
            ip: self.ip,
            description: copy_text(&self.description),
            office_id: self.office_id,
            rack: copy_text(&self.rack),
            room: copy_text(&self.room),
            status: self.status,
            network_id: self.network_id,
            credential: match &self.credential {
                Some(c) => Some(c.clone()),
                None => None,
            },
        }
    }
}

impl Device {
    /// A new device on `ip` in the network `network_id`: nothing is known
    /// of it yet.
    pub fn new(ip: IpAddress, network_id: u128) -> (d: Device)
        ensures
            d == Device::fresh(ip, network_id),
    {
        Device {
            ip,
            description: None,
            office_id: None,
            rack: None,
            room: None,
            status: Status::Unknown,
            network_id,
            credential: None,
        }
    }

    /// The device that [`Device::new`] makes.
    pub open spec fn fresh(ip: IpAddress, network_id: u128) -> Device {
        Device {
            ip,
            description: None,
            office_id: None,
            rack: None,
            room: None,
            status: Status::Unknown,
            network_id,
            credential: None,
        }
    }

    /// Whether the device is the one on `ip` in the network `network_id`.
    pub open spec fn is_at(self, ip: IpAddress, network_id: u128) -> bool {
        self.ip == ip && self.network_id == network_id
    }

    /// The device in another state.
    pub open spec fn with_status(self, status: Status) -> Device {
        Device { status, ..self }
    }
}

/// One new device on each usable host address of the block, for the
/// network `id`, in the order of the addresses.
pub open spec fn all_devices(block: Cidr, id: u128) -> Seq<Device> {
    block.host_addresses().map_values(|ip: IpAddress| Device::fresh(ip, id))
}

/// Makes one new device for each usable host address of an IPv4 block.
/// `None` where there is none to make: the block is IPv6, or has no usable
/// host address.
pub fn create_all_devices(network: Cidr, id: u128) -> (r: Option<Vec<Device>>)
    ensures
        all_devices(network, id).len() == 0 ==> r is None,
        all_devices(network, id).len() > 0 ==> r is Some && r->0@ == all_devices(network, id),
{
    let hosts = network.hosts();
    if hosts.len() == 0 {
        return None;
    }
    let mut devices: Vec<Device> = Vec::new();
    let mut k: usize = 0;
    while k < hosts.len()
        invariant
            k <= hosts@.len(),
            hosts@ == network.host_addresses(),
            devices@.len() == k,
            forall|j: int| 0 <= j < k ==> #[trigger] devices@[j] == Device::fresh(hosts@[j], id),
        decreases hosts@.len() - k,
    {
        devices.push(Device::new(hosts[k], id));
        k = k + 1;
    }
    assert(devices@ =~= all_devices(network, id));
    Some(devices)
}

} // verus!
