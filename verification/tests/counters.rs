use ipam::cidr::{Cidr, IpAddress};
use ipam::host_count::{CountError, HostCount, Prefix};
use ipam::network::{CounterOp, Network};
use ipam::vlan::{Vlan, VlanError};

fn v4(a: u8, b: u8, c: u8, d: u8) -> IpAddress {
    IpAddress::V4(u32::from_be_bytes([a, b, c, d]))
}

fn block(a: u8, b: u8, c: u8, d: u8, prefix: u8) -> Cidr {
    Cidr::new(v4(a, b, c, d), prefix).unwrap()
}

#[test]
fn add_stops_at_the_bound() {
    let mut count = HostCount::from_u32(HostCount::MAX - 1);
    assert_eq!(count.add(1), Ok(()));
    assert_eq!(count.value(), HostCount::MAX);
    assert_eq!(count.add(1), Err(CountError::Overflow));
    assert_eq!(count.value(), HostCount::MAX);
}

#[test]
fn sub_stops_at_zero() {
    let mut count = HostCount::from_u32(3);
    assert_eq!(count.sub(3), Ok(()));
    assert_eq!(count.value(), 0);
    assert_eq!(count.sub(1), Err(CountError::Underflow));
    assert_eq!(count.value(), 0);
}

#[test]
fn add_and_sub_give_exact_values() {
    let mut count = HostCount::from_u32(10);
    assert_eq!(count.add(5), Ok(()));
    assert_eq!(count.value(), 15);
    assert_eq!(count.sub(7), Ok(()));
    assert_eq!(count.value(), 8);
    assert_eq!(count.sub(9), Err(CountError::Underflow));
    assert_eq!(count.value(), 8);
}

#[test]
fn available_of_small_ipv4_blocks() {
    assert_eq!(HostCount::new(block(10, 0, 0, 0, 30).host_prefix()).value(), 2);
    assert_eq!(HostCount::new(block(10, 0, 0, 0, 31).host_prefix()).value(), 0);
    assert_eq!(HostCount::new(block(10, 0, 0, 0, 32).host_prefix()).value(), 0);
}

#[test]
fn available_follows_the_formula() {
    assert_eq!(HostCount::new(block(10, 0, 0, 0, 24).host_prefix()).value(), 254);
    assert_eq!(HostCount::new(block(10, 0, 0, 0, 26).host_prefix()).value(), 62);
    assert_eq!(HostCount::new(block(10, 0, 0, 0, 8).host_prefix()).value(), 16_777_214);
    assert_eq!(HostCount::new(block(0, 0, 0, 0, 0).host_prefix()).value(), 4_294_967_294);
    assert_eq!(HostCount::new(Prefix::new(29, 32)).value(), 6);
}

#[test]
fn ipv6_available_is_held_at_the_bound() {
    let wide = Cidr::new(IpAddress::V6(0x2001_0db8 << 96), 64).unwrap();
    assert_eq!(HostCount::new(wide.host_prefix()).value(), HostCount::MAX);
    let at_bound = Cidr::new(IpAddress::V6(0x2001_0db8 << 96), 96).unwrap();
    assert_eq!(HostCount::new(at_bound.host_prefix()).value(), 4_294_967_294);
    let beyond = Cidr::new(IpAddress::V6(0x2001_0db8 << 96), 95).unwrap();
    assert_eq!(HostCount::new(beyond.host_prefix()).value(), HostCount::MAX);
    let small = Cidr::new(IpAddress::V6(0x2001_0db8 << 96), 120).unwrap();
    assert_eq!(HostCount::new(small.host_prefix()).value(), 254);
    let point = Cidr::new(IpAddress::V6(0x2001_0db8 << 96), 127).unwrap();
    assert_eq!(HostCount::new(point.host_prefix()).value(), 0);
    let host = Cidr::new(IpAddress::V6(0x2001_0db8 << 96), 128).unwrap();
    assert_eq!(HostCount::new(host.host_prefix()).value(), 0);
}

#[test]
fn prefix_longer_than_the_address_leaves_no_host() {
    assert_eq!(HostCount::new(Prefix::new(40, 32)).value(), 0);
}

#[test]
fn vlan_accepts_the_range() {
    assert_eq!(Vlan::new(0).unwrap().value(), 0);
    assert_eq!(Vlan::new(4095).unwrap().value(), 4095);
    assert_eq!(Vlan::new(4096), Err(VlanError::InvalidVlan));
    assert_eq!(Vlan::new(u16::MAX), Err(VlanError::InvalidVlan));
}

#[test]
fn set_vlan_leaves_the_tag_on_refusal() {
    let mut tag = Vlan::new(10).unwrap();
    assert_eq!(tag.set_vlan(5000), Err(VlanError::InvalidVlan));
    assert_eq!(tag.value(), 10);
    assert_eq!(tag.set_vlan(20), Ok(()));
    assert_eq!(tag.value(), 20);
}

#[test]
fn new_network_has_its_whole_budget_free() {
    let net = Network::new(7, block(10, 0, 0, 0, 30), None, None, None);
    assert_eq!(net.available.value(), 2);
    assert_eq!(net.used.value(), 0);
    assert_eq!(net.free.value(), 2);
    assert_eq!(net.father, None);
    assert_eq!(net.id, 7);
}

#[test]
fn occupy_moves_one_address_from_free_to_used() {
    let mut net = Network::new(7, block(10, 0, 0, 0, 30), None, None, None);
    assert_eq!(net.apply(CounterOp::Occupy), Ok(()));
    assert_eq!((net.available.value(), net.used.value(), net.free.value()), (2, 1, 1));
    assert_eq!(net.apply(CounterOp::Occupy), Ok(()));
    assert_eq!((net.available.value(), net.used.value(), net.free.value()), (2, 2, 0));
}

#[test]
fn occupy_on_a_full_network_is_refused_and_changes_nothing() {
    let mut net = Network::new(7, block(10, 0, 0, 0, 30), None, None, None);
    net.apply(CounterOp::Occupy).unwrap();
    net.apply(CounterOp::Occupy).unwrap();
    assert_eq!(net.apply(CounterOp::Occupy), Err(CountError::Overflow));
    assert_eq!((net.available.value(), net.used.value(), net.free.value()), (2, 2, 0));
}

#[test]
fn occupy_without_a_free_address_moves_used_alone() {
    let mut net = Network::new(7, block(10, 0, 0, 0, 24), None, None, None);
    net.free = HostCount::from_u32(0);
    assert_eq!(net.apply(CounterOp::Occupy), Err(CountError::Underflow));
    assert_eq!((net.available.value(), net.used.value(), net.free.value()), (254, 1, 0));
    assert!(net.used.value() + net.free.value() <= net.available.value());
}

#[test]
fn commit_takes_from_available_and_free() {
    let mut net = Network::new(7, block(10, 0, 0, 0, 24), None, None, None);
    net.apply(CounterOp::Occupy).unwrap();
    assert_eq!(net.apply(CounterOp::Commit(248)), Ok(()));
    assert_eq!((net.available.value(), net.used.value(), net.free.value()), (6, 1, 5));
}

#[test]
fn commit_beyond_what_is_free_changes_nothing() {
    let mut net = Network::new(7, block(10, 0, 0, 0, 24), None, None, None);
    net.apply(CounterOp::Occupy).unwrap();
    assert_eq!(net.apply(CounterOp::Commit(254)), Err(CountError::Underflow));
    assert_eq!((net.available.value(), net.used.value(), net.free.value()), (254, 1, 253));
    assert_eq!(net.apply(CounterOp::Commit(u64::MAX)), Err(CountError::Underflow));
    assert_eq!((net.available.value(), net.used.value(), net.free.value()), (254, 1, 253));
}

#[test]
fn reset_counters_gives_an_untouched_block() {
    let mut net = Network::new(7, block(10, 0, 0, 0, 24), None, None, None);
    net.apply(CounterOp::Occupy).unwrap();
    net.apply(CounterOp::Commit(100)).unwrap();
    net.reset_counters();
    assert_eq!((net.available.value(), net.used.value(), net.free.value()), (254, 0, 254));
}
