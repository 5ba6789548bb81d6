use ipam::cidr::{Cidr, IpAddress};
use ipam::subnet::subnetting;
use ipnet::{IpNet, Ipv4Net, Ipv6Net};

/// The address, the network address and the broadcast address of a network, as plain numbers.
fn numbers(net: IpNet) -> (IpAddress, IpAddress, IpAddress) {
    match net {
        IpNet::V4(n) => (
            IpAddress::V4(u32::from(n.addr())),
            IpAddress::V4(u32::from(n.network())),
            IpAddress::V4(u32::from(n.broadcast())),
        ),
        IpNet::V6(n) => (
            IpAddress::V6(u128::from(n.addr())),
            IpAddress::V6(u128::from(n.network())),
            IpAddress::V6(u128::from(n.broadcast())),
        ),
    }
}

fn block(net: IpNet) -> Cidr {
    Cidr::new(numbers(net).0, net.prefix_len()).unwrap()
}

fn v4_nets() -> Vec<IpNet> {
    let mut nets = Vec::new();
    for bits in [0u32, 0x0a00_0000, 0x0a01_0203, 0xc0a8_04ff, 0xffff_ffff] {
        for prefix in [0u8, 1, 8, 15, 22, 24, 29, 30, 31, 32] {
            nets.push(IpNet::V4(Ipv4Net::new(bits.into(), prefix).unwrap()));
        }
    }
    nets
}

fn v6_nets() -> Vec<IpNet> {
    let mut nets = Vec::new();
    for bits in [0u128, 0x2001_0db8 << 96, (0x2001_0db8 << 96) | 0xdead_beef, u128::MAX] {
        for prefix in [0u8, 1, 32, 64, 95, 96, 127, 128] {
            nets.push(IpNet::V6(Ipv6Net::new(bits.into(), prefix).unwrap()));
        }
    }
    nets
}

#[test]
fn bounds_agree_with_ipnet() {
    for net in v4_nets().into_iter().chain(v6_nets()) {
        let b = block(net);
        let (_, network, broadcast) = numbers(net);
        assert_eq!(b.addr(), network, "{net}");
        assert_eq!(b.broadcast(), broadcast, "{net}");
        assert_eq!(b.prefix_len(), net.prefix_len(), "{net}");
        assert_eq!(b.max_prefix_len(), net.max_prefix_len(), "{net}");
        assert_eq!(b.is_ipv4(), matches!(net, IpNet::V4(_)), "{net}");
    }
}

#[test]
fn containment_agrees_with_ipnet() {
    let nets: Vec<IpNet> = v4_nets().into_iter().chain(v6_nets()).collect();
    for outer in &nets {
        for inner in &nets {
            assert_eq!(
                block(*outer).contains(&block(*inner)),
                outer.contains(inner),
                "{outer} {inner}"
            );
            assert_eq!(
                block(*outer).contains_addr(&numbers(*inner).0),
                outer.contains(&inner.addr()),
                "{outer} {}",
                inner.addr()
            );
        }
    }
}

#[test]
fn subnets_agree_with_ipnet() {
    for net in v4_nets().into_iter().chain(v6_nets()) {
        for added in 1u8..=6 {
            let new_prefix = net.prefix_len() + added;
            if new_prefix > net.max_prefix_len() {
                continue;
            }
            let expected: Vec<Cidr> = net.trunc().subnets(new_prefix).unwrap().map(block).collect();
            assert_eq!(subnetting(&block(net), new_prefix), Ok(expected), "{net} {new_prefix}");
        }
    }
}

#[test]
fn hosts_agree_with_ipnet_where_a_block_has_usable_hosts() {
    for net in v4_nets() {
        if net.prefix_len() < 22 {
            continue;
        }
        let hosts = block(net).hosts();
        if net.prefix_len() <= 30 {
            let expected: Vec<IpAddress> = match net.trunc() {
                IpNet::V4(n) => n.hosts().map(|a| IpAddress::V4(u32::from(a))).collect(),
                IpNet::V6(_) => unreachable!(),
            };
            assert_eq!(hosts, expected, "{net}");
        } else {
            // a block of one or two addresses has a network and a broadcast address only
            assert_eq!(hosts, vec![], "{net}");
        }
    }
}
