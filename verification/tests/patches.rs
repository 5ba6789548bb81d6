use ipam::cidr::{Cidr, IpAddress};
use ipam::device::Credential;
use ipam::network::UpdateNetwork;
use ipam::patch::{
    text_change, Change, DevicePatch, NetworkPatch, ServicePatch, ServiceUpdate, ServicesPatch,
    ServicesUpdate,
};
use ipam::relocation::UpdateDevice;
use ipam::vlan::Vlan;

fn text(s: &str) -> Option<String> {
    Some(String::from(s))
}

#[test]
fn text_changes() {
    assert_eq!(text_change(None), Change::Keep);
    assert_eq!(text_change(text("")), Change::Clear);
    assert_eq!(text_change(text("rack 4")), Change::Store(String::from("rack 4")));
    assert!(text_change(None).is_keep());
    assert!(!text_change(text("")).is_keep());
}

#[test]
fn idle_updates_give_no_patch() {
    let idle =
        UpdateDevice { ip: None, description: None, location: None, network_id: None, credential: None };
    assert_eq!(idle.get_pair(), None);
    let idle = UpdateNetwork { network: None, description: None, vlan: None };
    assert_eq!(idle.get_pair(), None);
}

#[test]
fn device_patch_puts_the_location_on_the_rack() {
    let update = UpdateDevice {
        ip: Some(IpAddress::V4(7)),
        description: text(""),
        location: text("rack 4"),
        network_id: None,
        credential: Some(Credential { username: String::new(), password: String::new() }),
    };
    assert_eq!(
        update.get_pair(),
        Some(DevicePatch {
            ip: Some(IpAddress::V4(7)),
            description: Change::Clear,
            network_id: None,
            rack: Change::Store(String::from("rack 4")),
            credential: Change::Clear,
        })
    );
    let keeps = Credential { username: String::from("root"), password: String::new() };
    let update = UpdateDevice {
        ip: None,
        description: None,
        location: None,
        network_id: Some(3),
        credential: Some(keeps.clone()),
    };
    assert_eq!(
        update.get_pair(),
        Some(DevicePatch {
            ip: None,
            description: Change::Keep,
            network_id: Some(3),
            rack: Change::Keep,
            credential: Change::Store(keeps),
        })
    );
}

#[test]
fn network_patch() {
    let block = Cidr::new(IpAddress::V4(0x0a00_0000), 8).unwrap();
    let tag = Vlan::new(12).unwrap();
    let update = UpdateNetwork { network: Some(block), description: text("core"), vlan: Some(tag) };
    assert_eq!(
        update.get_pair(),
        Some(NetworkPatch {
            description: Change::Store(String::from("core")),
            network: Some(block),
            vlan: Some(tag),
        })
    );
    let update = UpdateNetwork { network: None, description: text(""), vlan: None };
    assert_eq!(
        update.get_pair(),
        Some(NetworkPatch { description: Change::Clear, network: None, vlan: None })
    );
}

#[test]
fn service_patches() {
    let update = ServicesUpdate { name: text("ssh"), version: text("") };
    assert_eq!(
        update.get_pair(),
        ServicesPatch { name: Change::Store(String::from("ssh")), version: Change::Clear }
    );
    let update = ServiceUpdate {
        port: Some(22),
        ip: None,
        network_id: Some(5),
        service_id: Some(0),
        description: None,
    };
    assert_eq!(
        update.get_pair(),
        ServicePatch {
            port: Some(22),
            description: Change::Keep,
            ip: None,
            network_id: Some(5),
            service_id: Change::Clear,
        }
    );
    let update = ServiceUpdate {
        port: None,
        ip: Some(IpAddress::V6(1)),
        network_id: None,
        service_id: Some(9),
        description: text("daemon"),
    };
    assert_eq!(
        update.get_pair(),
        ServicePatch {
            port: None,
            description: Change::Store(String::from("daemon")),
            ip: Some(IpAddress::V6(1)),
            network_id: None,
            service_id: Change::Store(9),
        }
    );
}
