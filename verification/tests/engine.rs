use ipam::cidr::{Cidr, IpAddress};
use ipam::device::{Device, Event, Status};
use ipam::error::Error;
use ipam::forest::CounterFailure;
use ipam::host_count::CountError;
use ipam::ipam::{Ipam, Removed};
use ipam::network::Network;

fn v4(a: u8, b: u8, c: u8, d: u8) -> IpAddress {
    IpAddress::V4(u32::from_be_bytes([a, b, c, d]))
}

fn block(a: u8, b: u8, c: u8, d: u8, prefix: u8) -> Cidr {
    Cidr::new(v4(a, b, c, d), prefix).unwrap()
}

fn counters(net: &Network) -> (u32, u32, u32) {
    (net.available.value(), net.used.value(), net.free.value())
}

fn counters_of(ipam: &Ipam, id: u128) -> (u32, u32, u32) {
    counters(&ipam.network(id).unwrap())
}

/// A root /16 (id 1) with the subnets /24 (ids 10..) and, under the first of
/// them, the subnets /26 (ids 100..).
fn three_levels() -> Ipam {
    let mut ipam = Ipam::new();
    ipam.create_root_with_id(1, block(10, 1, 0, 0, 22), None, None).unwrap();
    ipam.subdivide_with_ids(1, 24, None, &vec![10, 11, 12, 13]).unwrap();
    ipam.subdivide_with_ids(10, 26, None, &vec![100, 101, 102, 103]).unwrap();
    ipam
}

fn every_network_keeps_within_budget(ipam: &Ipam) {
    let mut pending = ipam.networks_with_father(None);
    let mut seen = 0;
    while let Some(net) = pending.pop() {
        assert!(net.used.value() as u64 + net.free.value() as u64 <= net.available.value() as u64);
        pending.extend(ipam.networks_with_father(Some(net.id)));
        seen += 1;
    }
    assert_eq!(seen, ipam.network_count());
}

#[test]
fn root_of_a_30_has_two_hosts() {
    let mut ipam = Ipam::new();
    let root = ipam.create_root(block(10, 0, 0, 0, 30), None, None).unwrap();
    assert_eq!(counters(&root), (2, 0, 2));
    assert_eq!(root.father, None);
    assert_eq!(root.vlan, None);
    assert_eq!(ipam.network(root.id), Some(root));
    assert_eq!(ipam.network_count(), 1);
}

#[test]
fn probe_scenario_on_a_30() {
    let mut ipam = Ipam::new();
    let root = ipam.create_root(block(10, 0, 0, 0, 30), None, None).unwrap();
    assert_eq!(counters(&root), (2, 0, 2));
    let devices = ipam.bulk_create_devices(root.id).unwrap();
    assert_eq!(devices.len(), 2);
    assert_eq!(devices[0].ip, v4(10, 0, 0, 1));
    assert_eq!(devices[1].ip, v4(10, 0, 0, 2));
    assert!(devices.iter().all(|d| d.status == Status::Unknown));
    let change = ipam.record_probe(v4(10, 0, 0, 1), root.id, true).unwrap();
    assert_eq!(change.device.status, Status::Online);
    assert_eq!(change.failure, None);
    assert_eq!(counters_of(&ipam, root.id), (2, 1, 1));
    assert_eq!(ipam.device(v4(10, 0, 0, 1), root.id).unwrap().status, Status::Online);
    assert_eq!(ipam.device(v4(10, 0, 0, 2), root.id).unwrap().status, Status::Unknown);
}

#[test]
fn subdivide_a_24_at_26() {
    let mut ipam = Ipam::new();
    let root = ipam.create_root(block(10, 0, 0, 0, 24), None, None).unwrap();
    assert_eq!(counters(&root), (254, 0, 254));
    let made = ipam.subdivide(root.id, 26, None).unwrap();
    assert_eq!(made.failure, None);
    assert_eq!(made.children.len(), 4);
    let blocks: Vec<Cidr> = made.children.iter().map(|n| n.network).collect();
    assert_eq!(
        blocks,
        vec![
            block(10, 0, 0, 0, 26),
            block(10, 0, 0, 64, 26),
            block(10, 0, 0, 128, 26),
            block(10, 0, 0, 192, 26),
        ]
    );
    for child in &made.children {
        assert_eq!(child.network.prefix_len(), 26);
        assert_eq!(child.father, Some(root.id));
        assert_eq!(child.vlan, None);
        assert_eq!(child.description, None);
        assert_eq!(counters(child), (62, 0, 62));
        assert_eq!(ipam.network(child.id).as_ref(), Some(child));
    }
    let budgets: u32 = made.children.iter().map(|n| n.available.value()).sum();
    assert_eq!(budgets, 248);
    assert_eq!(counters_of(&ipam, root.id), (254 - budgets, 0, 254 - budgets));
    assert_eq!(ipam.network_count(), 5);
    assert_eq!(ipam.networks_with_father(Some(root.id)), made.children);
}

#[test]
fn subdivide_at_the_same_prefix_is_refused() {
    let mut ipam = Ipam::new();
    let root = ipam.create_root(block(10, 0, 0, 0, 24), None, None).unwrap();
    assert_eq!(ipam.subdivide(root.id, 24, None), Err(Error::InvalidPrefix));
    assert_eq!(ipam.subdivide(root.id, 8, None), Err(Error::InvalidPrefix));
    assert_eq!(ipam.subdivide(root.id, 33, None), Err(Error::InvalidPrefix));
    assert_eq!(ipam.network_count(), 1);
    assert_eq!(counters_of(&ipam, root.id), (254, 0, 254));
}

#[test]
fn reserving_an_online_device_is_refused() {
    let mut ipam = Ipam::new();
    let root = ipam.create_root(block(10, 0, 0, 0, 30), None, None).unwrap();
    ipam.bulk_create_devices(root.id).unwrap();
    ipam.record_probe(v4(10, 0, 0, 1), root.id, true).unwrap();
    let before = counters_of(&ipam, root.id);
    assert_eq!(ipam.reserve(v4(10, 0, 0, 1), root.id), Err(Error::InvalidTransition));
    assert_eq!(counters_of(&ipam, root.id), before);
    assert_eq!(ipam.device(v4(10, 0, 0, 1), root.id).unwrap().status, Status::Online);
}

#[test]
fn probing_twice_counts_the_address_once() {
    let mut ipam = three_levels();
    ipam.create_device(Device::new(v4(10, 1, 0, 5), 100)).unwrap();
    let before = (counters_of(&ipam, 100), counters_of(&ipam, 10), counters_of(&ipam, 1));
    let first = ipam.record_probe(v4(10, 1, 0, 5), 100, true).unwrap();
    assert_eq!(first.device.status, Status::Online);
    assert_eq!(first.failure, None);
    let after_first = (counters_of(&ipam, 100), counters_of(&ipam, 10), counters_of(&ipam, 1));
    assert_eq!(after_first.0, (before.0 .0, before.0 .1 + 1, before.0 .2 - 1));
    assert_eq!(after_first.1, (before.1 .0, before.1 .1 + 1, before.1 .2 - 1));
    assert_eq!(after_first.2, (before.2 .0, before.2 .1 + 1, before.2 .2 - 1));
    let second = ipam.record_probe(v4(10, 1, 0, 5), 100, true).unwrap();
    assert_eq!(second.device.status, Status::Online);
    assert_eq!(second.failure, None);
    let after_second = (counters_of(&ipam, 100), counters_of(&ipam, 10), counters_of(&ipam, 1));
    assert_eq!(after_second, after_first);
    every_network_keeps_within_budget(&ipam);
}

#[test]
fn first_occupancy_reaches_the_ancestors_only() {
    let mut ipam = three_levels();
    ipam.create_device(Device::new(v4(10, 1, 0, 70), 101)).unwrap();
    let bystanders: Vec<(u32, u32, u32)> =
        [11u128, 12, 13, 100, 102, 103].iter().map(|id| counters_of(&ipam, *id)).collect();
    ipam.reserve(v4(10, 1, 0, 70), 101).unwrap();
    assert_eq!(counters_of(&ipam, 101), (62, 1, 61));
    assert_eq!(counters_of(&ipam, 10).1, 1);
    assert_eq!(counters_of(&ipam, 1).1, 1);
    let after: Vec<(u32, u32, u32)> =
        [11u128, 12, 13, 100, 102, 103].iter().map(|id| counters_of(&ipam, *id)).collect();
    assert_eq!(after, bystanders);
    every_network_keeps_within_budget(&ipam);
}

#[test]
fn three_levels_hand_budgets_up_the_chain() {
    let ipam = three_levels();
    // /22: 1022 hosts; four /24 of 254 each; four /26 of 62 each
    assert_eq!(counters_of(&ipam, 10), (254 - 248, 0, 254 - 248));
    assert_eq!(counters_of(&ipam, 11), (254, 0, 254));
    assert_eq!(counters_of(&ipam, 100), (62, 0, 62));
    // the root gave 4 * 254 to the /24s; the second split asks for 248 more than the 6 it has left
    assert_eq!(counters_of(&ipam, 1), (1022 - 1016, 0, 1022 - 1016));
    every_network_keeps_within_budget(&ipam);
}

#[test]
fn a_refusing_ancestor_stops_the_walk_and_keeps_the_subnets() {
    let mut ipam = Ipam::new();
    ipam.create_root_with_id(1, block(10, 1, 0, 0, 22), None, None).unwrap();
    ipam.subdivide_with_ids(1, 24, None, &vec![10, 11, 12, 13]).unwrap();
    let made = ipam.subdivide_with_ids(10, 26, None, &vec![100, 101, 102, 103]).unwrap();
    assert_eq!(made.children.len(), 4);
    assert_eq!(
        made.failure,
        Some(CounterFailure { network: 1, error: CountError::Underflow })
    );
    assert_eq!(ipam.networks_with_father(Some(10)).len(), 4);
    assert_eq!(counters_of(&ipam, 10), (6, 0, 6));
    assert_eq!(counters_of(&ipam, 1), (6, 0, 6));
}

#[test]
fn a_full_network_reports_the_refusal_and_keeps_the_new_status() {
    let mut ipam = Ipam::new();
    ipam.create_root_with_id(1, block(10, 0, 0, 0, 30), None, None).unwrap();
    ipam.bulk_create_devices(1).unwrap();
    ipam.create_device(Device::new(v4(10, 0, 0, 3), 1)).unwrap();
    ipam.record_probe(v4(10, 0, 0, 1), 1, true).unwrap();
    ipam.record_probe(v4(10, 0, 0, 2), 1, true).unwrap();
    assert_eq!(counters_of(&ipam, 1), (2, 2, 0));
    let change = ipam.record_probe(v4(10, 0, 0, 3), 1, true).unwrap();
    assert_eq!(change.device.status, Status::Online);
    assert_eq!(
        change.failure,
        Some(CounterFailure { network: 1, error: CountError::Overflow })
    );
    assert_eq!(ipam.device(v4(10, 0, 0, 3), 1).unwrap().status, Status::Online);
    assert_eq!(counters_of(&ipam, 1), (2, 2, 0));
}

#[test]
fn status_transitions() {
    let mut ipam = Ipam::new();
    ipam.create_root_with_id(1, block(10, 0, 0, 0, 24), None, None).unwrap();
    let ip = v4(10, 0, 0, 9);
    ipam.create_device(Device::new(ip, 1)).unwrap();
    // a failed probe tells nothing of a device never seen
    assert_eq!(ipam.record_probe(ip, 1, false).unwrap().device.status, Status::Unknown);
    assert_eq!(counters_of(&ipam, 1), (254, 0, 254));
    assert_eq!(ipam.record_probe(ip, 1, true).unwrap().device.status, Status::Online);
    assert_eq!(counters_of(&ipam, 1), (254, 1, 253));
    assert_eq!(ipam.record_probe(ip, 1, false).unwrap().device.status, Status::Offline);
    assert_eq!(counters_of(&ipam, 1), (254, 1, 253));
    assert_eq!(ipam.reserve(ip, 1), Err(Error::InvalidTransition));
    assert_eq!(ipam.record_probe(ip, 1, false).unwrap().device.status, Status::Offline);
    assert_eq!(ipam.record_probe(ip, 1, true).unwrap().device.status, Status::Online);
    assert_eq!(counters_of(&ipam, 1), (254, 1, 253));
}

#[test]
fn reserved_devices() {
    let mut ipam = Ipam::new();
    ipam.create_root_with_id(1, block(10, 0, 0, 0, 24), None, None).unwrap();
    let ip = v4(10, 0, 0, 9);
    ipam.create_device(Device::new(ip, 1)).unwrap();
    let change = ipam.reserve(ip, 1).unwrap();
    assert_eq!(change.device.status, Status::Reserved);
    assert_eq!(counters_of(&ipam, 1), (254, 1, 253));
    // asking again changes nothing
    assert_eq!(ipam.reserve(ip, 1).unwrap().device.status, Status::Reserved);
    assert_eq!(counters_of(&ipam, 1), (254, 1, 253));
    assert_eq!(ipam.record_probe(ip, 1, true), Err(Error::InvalidTransition));
    assert_eq!(ipam.device(ip, 1).unwrap().status, Status::Reserved);
    assert_eq!(ipam.record_probe(ip, 1, false).unwrap().device.status, Status::Offline);
    assert_eq!(counters_of(&ipam, 1), (254, 1, 253));
    assert_eq!(
        ipam.apply_event(ip, 1, Event::Reserve),
        Err(Error::InvalidTransition)
    );
}

#[test]
fn events_on_unknown_keys_are_not_found() {
    let mut ipam = Ipam::new();
    ipam.create_root_with_id(1, block(10, 0, 0, 0, 24), None, None).unwrap();
    ipam.create_device(Device::new(v4(10, 0, 0, 9), 1)).unwrap();
    assert_eq!(ipam.record_probe(v4(10, 0, 0, 8), 1, true), Err(Error::NotFound));
    assert_eq!(ipam.reserve(v4(10, 0, 0, 9), 2), Err(Error::NotFound));
    assert_eq!(ipam.subdivide(2, 26, None), Err(Error::NotFound));
    assert_eq!(ipam.bulk_create_devices(2), Err(Error::NotFound));
    assert_eq!(ipam.delete_subtree(2), Err(Error::NotFound));
    assert_eq!(ipam.delete_network(2), Err(Error::NotFound));
    assert_eq!(ipam.delete_device(v4(10, 0, 0, 8), 1), Err(Error::NotFound));
    assert_eq!(ipam.network(2), None);
    assert_eq!(ipam.device(v4(10, 0, 0, 8), 1), None);
}

#[test]
fn create_root_checks_the_vlan() {
    let mut ipam = Ipam::new();
    let b = block(10, 0, 0, 0, 24);
    assert_eq!(ipam.create_root(b, Some(4096), None), Err(Error::InvalidVlan));
    assert_eq!(ipam.network_count(), 0);
    let root = ipam.create_root(b, Some(4095), Some(String::from("lab"))).unwrap();
    assert_eq!(root.vlan.unwrap().value(), 4095);
    assert_eq!(root.description.as_deref(), Some("lab"));
    assert_eq!(root.network, b);
    let other = ipam.create_root(b, Some(0), None).unwrap();
    assert_ne!(other.id, root.id);
    assert_eq!(ipam.networks_with_father(None).len(), 2);
}

#[test]
fn taken_ids_are_refused() {
    let mut ipam = Ipam::new();
    ipam.create_root_with_id(1, block(10, 0, 0, 0, 24), None, None).unwrap();
    assert_eq!(
        ipam.create_root_with_id(1, block(10, 9, 0, 0, 24), None, None),
        Err(Error::BackendError)
    );
    assert_eq!(ipam.subdivide_with_ids(1, 26, None, &vec![2, 3, 1, 4]), Err(Error::BackendError));
    assert_eq!(ipam.subdivide_with_ids(1, 26, None, &vec![2, 3, 3, 4]), Err(Error::BackendError));
    assert_eq!(ipam.subdivide_with_ids(1, 26, None, &vec![2, 3, 4]), Err(Error::BackendError));
    assert_eq!(ipam.network_count(), 1);
    assert_eq!(counters_of(&ipam, 1), (254, 0, 254));
    let made = ipam.subdivide_with_ids(1, 26, None, &vec![2, 3, 4, 5, 6]).unwrap();
    let ids: Vec<u128> = made.children.iter().map(|n| n.id).collect();
    assert_eq!(ids, vec![2, 3, 4, 5]);
}

#[test]
fn ipv6_takes_one_named_subnet() {
    let mut ipam = Ipam::new();
    let parent = Cidr::new(IpAddress::V6(0x2001_0db8 << 96), 112).unwrap();
    let root = ipam.create_root(parent, None, None).unwrap();
    assert_eq!(counters(&root), (65534, 0, 65534));
    let child = Cidr::new(IpAddress::V6((0x2001_0db8 << 96) | 0x0100), 120).unwrap();
    let elsewhere = Cidr::new(IpAddress::V6((0x2001_0db9 << 96) | 0x0100), 120).unwrap();
    assert_eq!(ipam.subdivide(root.id, 120, None), Err(Error::ContainmentViolation));
    assert_eq!(ipam.subdivide(root.id, 120, Some(elsewhere)), Err(Error::ContainmentViolation));
    assert_eq!(ipam.subdivide(root.id, 124, Some(child)), Err(Error::ContainmentViolation));
    assert_eq!(ipam.subdivide(root.id, 112, Some(child)), Err(Error::InvalidPrefix));
    assert_eq!(ipam.network_count(), 1);
    let made = ipam.subdivide(root.id, 120, Some(child)).unwrap();
    assert_eq!(made.children.len(), 1);
    assert_eq!(made.children[0].network, child);
    assert_eq!(made.children[0].father, Some(root.id));
    assert_eq!(counters(&made.children[0]), (254, 0, 254));
    assert_eq!(made.failure, None);
    assert_eq!(counters_of(&ipam, root.id), (65534 - 254, 0, 65534 - 254));
    assert_eq!(ipam.bulk_create_devices(root.id), Ok(vec![]));
    assert_eq!(ipam.device_count(), 0);
}

#[test]
fn bulk_create_fills_the_gaps() {
    let mut ipam = Ipam::new();
    ipam.create_root_with_id(1, block(10, 0, 0, 0, 29), None, None).unwrap();
    let mut known = Device::new(v4(10, 0, 0, 3), 1);
    known.description = Some(String::from("printer"));
    known.status = Status::Online;
    let created = ipam.create_device(known).unwrap();
    assert_eq!(created.status, Status::Unknown);
    assert_eq!(created.description.as_deref(), Some("printer"));
    let made = ipam.bulk_create_devices(1).unwrap();
    let ips: Vec<IpAddress> = made.iter().map(|d| d.ip).collect();
    assert_eq!(
        ips,
        vec![v4(10, 0, 0, 1), v4(10, 0, 0, 2), v4(10, 0, 0, 4), v4(10, 0, 0, 5), v4(10, 0, 0, 6)]
    );
    assert_eq!(ipam.device_count(), 6);
    assert_eq!(ipam.bulk_create_devices(1), Ok(vec![]));
    assert_eq!(ipam.device_count(), 6);
    assert_eq!(ipam.devices_of(1).len(), 6);
    assert_eq!(ipam.device(v4(10, 0, 0, 3), 1).unwrap().description.as_deref(), Some("printer"));
    // bulk creation moves no counter
    assert_eq!(counters_of(&ipam, 1), (6, 0, 6));
}

#[test]
fn devices_are_unique_within_a_network_only() {
    let mut ipam = three_levels();
    let ip = v4(10, 1, 0, 5);
    ipam.create_device(Device::new(ip, 100)).unwrap();
    assert_eq!(ipam.create_device(Device::new(ip, 100)), Err(Error::BackendError));
    assert_eq!(ipam.create_device(Device::new(ip, 999)), Err(Error::NotFound));
    ipam.create_device(Device::new(ip, 10)).unwrap();
    assert_eq!(ipam.device_count(), 2);
    ipam.record_probe(ip, 10, true).unwrap();
    assert_eq!(ipam.device(ip, 10).unwrap().status, Status::Online);
    assert_eq!(ipam.device(ip, 100).unwrap().status, Status::Unknown);
    assert_eq!(counters_of(&ipam, 100).1, 0);
    assert_eq!(counters_of(&ipam, 10).1, 1);
}

#[test]
fn delete_subtree_empties_the_network() {
    let mut ipam = three_levels();
    ipam.bulk_create_devices(100).unwrap();
    ipam.bulk_create_devices(11).unwrap();
    ipam.create_device(Device::new(v4(10, 1, 0, 1), 10)).unwrap();
    ipam.record_probe(v4(10, 1, 0, 1), 10, true).unwrap();
    let root_before = counters_of(&ipam, 1);
    let removed = ipam.delete_subtree(10).unwrap();
    assert_eq!(removed, Removed { networks_deleted: 4, devices_deleted: 63 });
    assert_eq!(removed.total(), 67);
    assert_eq!(counters_of(&ipam, 10), (254, 0, 254));
    assert_eq!(counters_of(&ipam, 1), root_before);
    assert_eq!(ipam.network_count(), 5);
    assert_eq!(ipam.networks_with_father(Some(10)), vec![]);
    assert_eq!(ipam.network(100), None);
    assert_eq!(ipam.devices_of(10), vec![]);
    assert_eq!(ipam.devices_of(11).len(), 254);
    assert_eq!(ipam.device_count(), 254);
    every_network_keeps_within_budget(&ipam);
    // nothing left to remove: the counters are reset all the same
    assert_eq!(
        ipam.delete_subtree(10),
        Ok(Removed { networks_deleted: 0, devices_deleted: 0 })
    );
}

#[test]
fn delete_network_takes_the_whole_branch() {
    let mut ipam = three_levels();
    ipam.bulk_create_devices(101).unwrap();
    ipam.bulk_create_devices(12).unwrap();
    let removed = ipam.delete_network(10).unwrap();
    assert_eq!(removed, Removed { networks_deleted: 5, devices_deleted: 62 });
    assert_eq!(ipam.network(10), None);
    assert_eq!(ipam.network(103), None);
    let left: Vec<u128> = ipam.networks_with_father(Some(1)).iter().map(|n| n.id).collect();
    assert_eq!(left, vec![11, 12, 13]);
    assert_eq!(ipam.device_count(), 254);
    let removed = ipam.delete_network(1).unwrap();
    assert_eq!(removed, Removed { networks_deleted: 4, devices_deleted: 254 });
    assert_eq!(ipam.network_count(), 0);
    assert_eq!(ipam.device_count(), 0);
}

#[test]
fn delete_device_hands_the_device_back() {
    let mut ipam = Ipam::new();
    ipam.create_root_with_id(1, block(10, 0, 0, 0, 30), None, None).unwrap();
    ipam.bulk_create_devices(1).unwrap();
    ipam.record_probe(v4(10, 0, 0, 2), 1, true).unwrap();
    let gone = ipam.delete_device(v4(10, 0, 0, 2), 1).unwrap();
    assert_eq!(gone.ip, v4(10, 0, 0, 2));
    assert_eq!(gone.status, Status::Online);
    assert_eq!(ipam.device_count(), 1);
    assert_eq!(ipam.device(v4(10, 0, 0, 2), 1), None);
    assert_eq!(counters_of(&ipam, 1), (2, 1, 1));
}

#[test]
fn budgets_hold_through_a_busy_day() {
    let mut ipam = three_levels();
    for id in [100u128, 101, 11, 1] {
        ipam.bulk_create_devices(id).unwrap();
    }
    for (i, d) in ipam.devices_of(100).iter().enumerate() {
        ipam.record_probe(d.ip, 100, i % 3 != 0).unwrap();
        every_network_keeps_within_budget(&ipam);
    }
    for d in ipam.devices_of(11).iter().take(40) {
        ipam.reserve(d.ip, 11).unwrap();
    }
    for d in ipam.devices_of(1).iter().take(20) {
        ipam.record_probe(d.ip, 1, true).unwrap();
    }
    every_network_keeps_within_budget(&ipam);
    ipam.subdivide(11, 28, None).unwrap();
    every_network_keeps_within_budget(&ipam);
    ipam.delete_subtree(10).unwrap();
    every_network_keeps_within_budget(&ipam);
}

#[test]
fn a_wide_split_makes_every_subnet_once() {
    let mut ipam = Ipam::new();
    let root = ipam.create_root(block(10, 0, 0, 0, 12), None, None).unwrap();
    let made = ipam.subdivide(root.id, 24, None).unwrap();
    assert_eq!(made.children.len(), 4096);
    assert_eq!(made.failure, None);
    assert_eq!(made.children[0].network, block(10, 0, 0, 0, 24));
    assert_eq!(made.children[4095].network, block(10, 15, 255, 0, 24));
    let mut ids: Vec<u128> = made.children.iter().map(|n| n.id).collect();
    ids.sort();
    ids.dedup();
    assert_eq!(ids.len(), 4096);
    assert!(!ids.contains(&root.id));
    let budget = (1u32 << 20) - 2;
    assert_eq!(counters_of(&ipam, root.id), (budget - 4096 * 254, 0, budget - 4096 * 254));
    assert_eq!(ipam.network_count(), 4097);
    let devices = ipam.bulk_create_devices(made.children[7].id).unwrap();
    assert_eq!(devices.len(), 254);
    assert_eq!(devices[0].ip, v4(10, 0, 7, 1));
    let removed = ipam.delete_subtree(root.id).unwrap();
    assert_eq!(removed, Removed { networks_deleted: 4096, devices_deleted: 254 });
    assert_eq!(counters_of(&ipam, root.id), (budget, 0, budget));
}
