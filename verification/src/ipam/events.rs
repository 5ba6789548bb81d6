//! What the events of a device do to the engine.

use crate::cidr::IpAddress;
use crate::device::{is_first_occupancy, next_status, probe_event, Device, Event, Status};
use crate::error::Error;
use crate::forest::{has_network, propagate, CounterFailure};
use crate::ipam::{device_position, has_device, keys_unique, Ipam, State};
use crate::network::CounterOp;
use vstd::prelude::*;

verus! {

/// A device after an event, with the refusal that stopped the change of the
/// host counters, if one did. The state of the device has changed even so.
#[derive(Debug, PartialEq, Eq)]
pub struct DeviceChange {
    pub device: Device,
    pub failure: Option<CounterFailure>,
}

impl State {
    /// The device on `ip` in the network `network_id`.
    pub open spec fn device_at(self, ip: IpAddress, network_id: u128) -> Device {
        self.devices[device_position(self.devices, ip, network_id)]
    }

    /// What an event does to the device on `ip` in the network
    /// `network_id`.
    ///
    /// An unknown device, and an event that the state of the device does not
    /// allow, change nothing. Else the device takes its new state. Where the
    /// device takes up its address for the first time, its network and then
    /// each ancestor counts one address more as used and one less as free,
    /// up to the first network that refuses; the refusal is handed back
    /// beside the device.
    pub open spec fn after_event(self, ip: IpAddress, network_id: u128, event: Event) -> (
        State,
        Result<DeviceChange, Error>,
    ) {
        if !has_device(self.devices, ip, network_id) {
            (self, Err(Error::NotFound))
        } else {
            let old_device = self.device_at(ip, network_id);
            match next_status(old_device.status, event) {
                None => (self, Err(Error::InvalidTransition)),
                Some(status) => {
                    let device = old_device.with_status(status);
                    let devices = self.devices.update(
                        device_position(self.devices, ip, network_id),
                        device,
                    );
                    let (networks, failure) = if is_first_occupancy(old_device.status, event) {
                        propagate(self.networks, network_id, CounterOp::Occupy)
                    } else {
                        (self.networks, None)
                    };
                    (State { networks, devices }, Ok(DeviceChange { device, failure }))
                },
            }
        }
    }
}

/// With unique keys, the device of an address is the one that carries it.
pub proof fn lemma_device_position(devices: Seq<Device>, i: int)
    requires
        keys_unique(devices),
        0 <= i < devices.len(),
    ensures
        has_device(devices, devices[i].ip, devices[i].network_id),
        device_position(devices, devices[i].ip, devices[i].network_id) == i,
{
    assert(devices[i].is_at(devices[i].ip, devices[i].network_id));
    let p = device_position(devices, devices[i].ip, devices[i].network_id);
    assert(devices[p].is_at(devices[i].ip, devices[i].network_id));
}

/// A device in another state keeps its key: the keys stay unique, and every
/// device keeps its network.
pub proof fn lemma_status_keeps_devices(state: State, at: int, status: Status)
    requires
        state.wf(),
        0 <= at < state.devices.len(),
    ensures
        (State {
            networks: state.networks,
            devices: state.devices.update(at, state.devices[at].with_status(status)),
        }).wf(),
{
    let devices = state.devices.update(at, state.devices[at].with_status(status));
    assert forall|i: int, j: int|
        0 <= i < devices.len() && 0 <= j < devices.len() && (#[trigger] devices[i]).is_at(
            (#[trigger] devices[j]).ip,
            devices[j].network_id,
        ) implies i == j by {
        assert(state.devices[i].is_at(state.devices[j].ip, state.devices[j].network_id));
    }
    assert forall|i: int| 0 <= i < devices.len() implies has_network(
        state.networks,
        (#[trigger] devices[i]).network_id,
    ) by {
        assert(state.devices[i].network_id == devices[i].network_id);
    }
}

impl Ipam {
    /// Records an event on the device on `ip` in the network `network_id`.
    pub fn apply_event(&mut self, ip: IpAddress, network_id: u128, event: Event) -> (r: Result<
        DeviceChange,
        Error,
    >)
        requires
            old(self)@.wf(),
        ensures
            final(self)@.wf(),
            (final(self)@, r) == old(self)@.after_event(ip, network_id, event),
    {
        let at: usize = match self.find_device(ip, network_id) {
            Some(at) => at,
            None => {
                return Err(Error::NotFound);
            },
        };
        proof {
            lemma_device_position(self@.devices, at as int);
        }
        let transition = match self.devices[at].status.on_event(event) {
            Ok(t) => t,
            Err(_) => {
                return Err(Error::InvalidTransition);
            },
        };
        let mut device = self.devices[at].clone();
        device.status = transition.status;
        let changed = device.clone();
        proof {
            lemma_status_keeps_devices(self@, at as int, transition.status);
        }
        self.devices.set(at, device);
        let failure = if transition.first_occupancy {
            self.walk_up(network_id, CounterOp::Occupy)
        } else {
            None
        };
        Ok(DeviceChange { device: changed, failure })
    }

    /// Records the outcome of a liveness probe of a device.
    pub fn record_probe(&mut self, ip: IpAddress, network_id: u128, success: bool) -> (r: Result<
        DeviceChange,
        Error,
    >)
        requires
            old(self)@.wf(),
        ensures
            final(self)@.wf(),
            (final(self)@, r) == old(self)@.after_event(ip, network_id, probe_event(success)),
    {
        let event = if success {
            Event::ProbeSucceeded
        } else {
            Event::ProbeFailed
        };
        self.apply_event(ip, network_id, event)
    }

    /// Sets the address of a device aside.
    pub fn reserve(&mut self, ip: IpAddress, network_id: u128) -> (r: Result<DeviceChange, Error>)
        requires
            old(self)@.wf(),
        ensures
            final(self)@.wf(),
            (final(self)@, r) == old(self)@.after_event(ip, network_id, Event::Reserve),
    {
        self.apply_event(ip, network_id, Event::Reserve)
    }
}

} // verus!
