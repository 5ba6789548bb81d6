use ipam::auth::{encrypt, hashed, verdict, verify_pass, Verify};
use ipam::cidr::{Cidr, IpAddress};
use ipam::cookie::{Cookie, Theme as PageTheme};
use ipam::device::{Device, Status};
use ipam::error::Error;
use ipam::host_count::{CountError, HostCount};
use ipam::ipam::Ipam;
use ipam::network::{Network, UpdateNetwork, UpdateNetworkCount};
use ipam::relocation::{Relocation, RelocationError, UpdateDevice};
use ipam::request::{cookie_value, Theme, Token};

fn v4(a: u8, b: u8, c: u8, d: u8) -> IpAddress {
    IpAddress::V4(u32::from_be_bytes([a, b, c, d]))
}

fn block(a: u8, b: u8, c: u8, d: u8, prefix: u8) -> Cidr {
    Cidr::new(v4(a, b, c, d), prefix).unwrap()
}

#[test]
fn cookie_value_reads_the_first_pair_of_the_name() {
    assert_eq!(cookie_value("token=abc", Cookie::TOKEN), Some(String::from("abc")));
    assert_eq!(cookie_value("theme=dark;token=abc", Cookie::TOKEN), Some(String::from("abc")));
    assert_eq!(cookie_value("token=abc;token=def", Cookie::TOKEN), Some(String::from("abc")));
    assert_eq!(cookie_value("token=a=b=c", Cookie::TOKEN), Some(String::from("a")));
    assert_eq!(cookie_value("token=", Cookie::TOKEN), Some(String::new()));
    assert_eq!(cookie_value("token=é;x=1", Cookie::TOKEN), Some(String::from("é")));
}

#[test]
fn cookie_value_trims_nothing() {
    assert_eq!(cookie_value("theme=dark; token=abc", Cookie::TOKEN), None);
    assert_eq!(cookie_value("token =abc", Cookie::TOKEN), None);
    assert_eq!(cookie_value("token= abc", Cookie::TOKEN), Some(String::from(" abc")));
}

#[test]
fn cookie_value_needs_a_name_and_a_value() {
    assert_eq!(cookie_value("", Cookie::TOKEN), None);
    assert_eq!(cookie_value("token", Cookie::TOKEN), None);
    assert_eq!(cookie_value("tokens=abc", Cookie::TOKEN), None);
    assert_eq!(cookie_value("theme=dark", Cookie::TOKEN), None);
    assert_eq!(cookie_value("token;token=x", Cookie::TOKEN), Some(String::from("x")));
    assert_eq!(cookie_value(";;token=x;", Cookie::TOKEN), Some(String::from("x")));
}

#[test]
fn token_from_cookies() {
    assert_eq!(Token::from_cookies(Some("theme=dark;token=abc")), Ok(Token(String::from("abc"))));
    assert_eq!(Token::from_cookies(Some("theme=dark")), Err(ipam::request::Error::KeyNotFound));
    assert_eq!(Token::from_cookies(None), Err(ipam::request::Error::KeyNotFound));
}

#[test]
fn theme_from_cookies_falls_back_to_light() {
    assert_eq!(Theme::from_cookies(Some("token=abc;theme=dark")), Theme(PageTheme::Dark));
    assert_eq!(Theme::from_cookies(Some("theme=light")), Theme(PageTheme::Light));
    assert_eq!(Theme::from_cookies(Some("theme=blue")), Theme(PageTheme::Light));
    assert_eq!(Theme::from_cookies(Some("theme=blue;theme=dark")), Theme(PageTheme::Light));
    assert_eq!(Theme::from_cookies(Some("token=abc")), Theme(PageTheme::Light));
    assert_eq!(Theme::from_cookies(None), Theme(PageTheme::Light));
}

#[test]
fn verify_pass_knows_the_password() {
    let hash = "$2a$04$UuTkLRZZ6QofpDOlMz32MuuxEHA43WOemOYHPz6.SjsVsyO1tDU96";
    assert_eq!(verify_pass(b"password", hash), Verify::Authorized(true));
    assert_eq!(verify_pass(b"Password", hash), Verify::Unauthorized);
    assert_eq!(verify_pass(b"password", "password"), Verify::Unauthorized);
    assert_eq!(verify_pass(b"password", ""), Verify::Unauthorized);
}

#[test]
fn verdict_goes_through_on_a_match_only() {
    assert_eq!(verdict(Some(true)), Verify::Authorized(true));
    assert_eq!(verdict(Some(false)), Verify::Unauthorized);
    assert_eq!(verdict(None), Verify::Unauthorized);
}

#[test]
fn encrypt_gives_a_hash_of_the_password() {
    let hash = encrypt(b"admin").unwrap();
    assert_ne!(hash, "admin");
    assert_eq!(verify_pass(b"admin", &hash), Verify::Authorized(true));
    assert_eq!(verify_pass(b"nimda", &hash), Verify::Unauthorized);
}

#[test]
fn hashed_maps_the_failure() {
    assert_eq!(hashed(Ok(String::from("h"))), Ok(String::from("h")));
    assert_eq!(
        hashed(Err(bcrypt::BcryptError::InvalidSaltLen(3))),
        Err(ipam::auth::Error::Encrypt)
    );
}

fn update(ip: Option<IpAddress>, network_id: Option<u128>) -> UpdateDevice {
    UpdateDevice { ip, description: None, location: None, network_id, credential: None }
}

#[test]
fn relocation_plans() {
    let home = Network::new(1, block(10, 0, 0, 0, 24), None, None, None);
    let away = Network::new(2, block(10, 0, 1, 0, 24), None, None, None);
    let ip = v4(10, 0, 0, 5);
    assert_eq!(update(None, None).plan(ip, 1, &home), Ok(Relocation::Stay));
    assert_eq!(update(Some(ip), None).plan(ip, 1, &home), Err(RelocationError::Unchanged));
    assert_eq!(update(None, Some(1)).plan(ip, 1, &home), Err(RelocationError::Unchanged));
    assert_eq!(update(Some(ip), Some(1)).plan(ip, 1, &home), Err(RelocationError::Unchanged));
    assert_eq!(
        update(Some(v4(10, 0, 0, 9)), None).plan(ip, 1, &home),
        Ok(Relocation::Clear { ip: v4(10, 0, 0, 9), network_id: 1 })
    );
    assert_eq!(
        update(Some(v4(10, 0, 1, 9)), None).plan(ip, 1, &home),
        Err(RelocationError::Incompatible)
    );
    assert_eq!(
        update(Some(v4(10, 0, 1, 9)), Some(2)).plan(ip, 1, &away),
        Ok(Relocation::Clear { ip: v4(10, 0, 1, 9), network_id: 2 })
    );
    assert_eq!(update(None, Some(2)).plan(ip, 1, &away), Err(RelocationError::Incompatible));
    assert_eq!(update(None, Some(2)).target(1), 2);
    assert_eq!(update(None, None).target(1), 1);
}

#[test]
fn network_updates() {
    let keep = UpdateNetwork { network: None, description: Some(String::from("x")), vlan: None };
    assert!(keep.is_supported());
    let moved = UpdateNetwork { network: Some(block(10, 0, 0, 0, 8)), description: None, vlan: None };
    assert!(!moved.is_supported());
    let before = Network::new(1, block(10, 0, 0, 0, 24), None, None, None);
    let mut after = before.clone();
    assert!(UpdateNetworkCount::between(&before, &after).is_empty());
    after.used = HostCount::from_u32(3);
    after.free = HostCount::from_u32(251);
    let diff = UpdateNetworkCount::between(&before, &after);
    assert_eq!(
        diff,
        UpdateNetworkCount {
            used: Some(HostCount::from_u32(3)),
            free: Some(HostCount::from_u32(251)),
            available: None,
        }
    );
    assert!(!diff.is_empty());
}

#[test]
fn counter_errors_as_engine_errors() {
    assert_eq!(Error::from_count(CountError::Overflow), Error::CounterOverflow);
    assert_eq!(Error::from_count(CountError::Underflow), Error::CounterUnderflow);
}

#[test]
fn adopt_takes_records_as_they_stand() {
    let mut ipam = Ipam::new();
    let mut root = Network::new(1, block(10, 0, 0, 0, 24), None, Some(String::from("lan")), None);
    root.used = HostCount::from_u32(4);
    root.free = HostCount::from_u32(200);
    assert_eq!(ipam.adopt_network(root.clone()), Ok(()));
    assert_eq!(ipam.network(1), Some(root.clone()));
    let child = Network::new(2, block(10, 0, 0, 64, 26), None, None, Some(1));
    assert_eq!(ipam.adopt_network(child.clone()), Ok(()));
    let mut device = Device::new(v4(10, 0, 0, 70), 2);
    device.status = Status::Offline;
    assert_eq!(ipam.adopt_device(device.clone()), Ok(()));
    assert_eq!(ipam.device(v4(10, 0, 0, 70), 2), Some(device.clone()));
    assert_eq!(ipam.chain_of(2), vec![child, root]);
    assert_eq!(ipam.chain_of(3), vec![]);
    // an offline device was counted before
    assert_eq!(ipam.record_probe(v4(10, 0, 0, 70), 2, true).unwrap().device.status, Status::Online);
    assert_eq!(ipam.network(1).unwrap().used.value(), 4);
}

#[test]
fn adopt_refuses_what_breaks_the_forest() {
    let mut ipam = Ipam::new();
    let root = Network::new(1, block(10, 0, 0, 0, 24), None, None, None);
    ipam.adopt_network(root.clone()).unwrap();
    let mut greedy = Network::new(5, block(10, 9, 0, 0, 24), None, None, None);
    greedy.used = HostCount::from_u32(1);
    assert_eq!(ipam.adopt_network(greedy), Err(Error::CounterOverflow));
    assert_eq!(ipam.adopt_network(root), Err(Error::BackendError));
    let orphan = Network::new(6, block(10, 0, 0, 0, 26), None, None, Some(9));
    assert_eq!(ipam.adopt_network(orphan), Err(Error::NotFound));
    let stranger = Network::new(7, block(10, 0, 1, 0, 26), None, None, Some(1));
    assert_eq!(ipam.adopt_network(stranger), Err(Error::ContainmentViolation));
    let twin = Network::new(8, block(10, 0, 0, 0, 24), None, None, Some(1));
    assert_eq!(ipam.adopt_network(twin), Err(Error::ContainmentViolation));
    assert_eq!(ipam.network_count(), 1);
    assert_eq!(ipam.adopt_device(Device::new(v4(10, 0, 0, 1), 9)), Err(Error::NotFound));
    ipam.adopt_device(Device::new(v4(10, 0, 0, 1), 1)).unwrap();
    assert_eq!(ipam.adopt_device(Device::new(v4(10, 0, 0, 1), 1)), Err(Error::BackendError));
    assert_eq!(ipam.device_count(), 1);
}

#[test]
fn auth_errors_in_words() {
    assert_eq!(ipam::auth::Error::Encrypt.message(), "Encrypt Error");
    assert_eq!(ipam::auth::Error::EncodeToken.message(), "Encode Token Error");
    assert_eq!(ipam::auth::Error::SecretKey.message(), "Secret key not found");
}

#[test]
fn every_hash_lets_its_own_password_through() {
    let long = [b'x'; 100];
    let passwords: [&[u8]; 4] = [b"", b"with\0nul", &long, "mot de passe réel".as_bytes()];
    for password in passwords {
        let hash = encrypt(password).unwrap();
        assert_eq!(verify_pass(password, &hash), Verify::Authorized(true));
        assert_ne!(hash.as_bytes(), password);
    }
    let first = encrypt(b"admin").unwrap();
    let second = encrypt(b"admin").unwrap();
    assert_ne!(first, second);
    assert_eq!(verify_pass(b"admin", &second), Verify::Authorized(true));
    assert_eq!(verify_pass(b"Admin", &first), Verify::Unauthorized);
}
