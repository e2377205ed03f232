use omoi::bytes::ipv4_from_octets;
use omoi::conf::{config_servable, Dhcp4Config, Dhcp4HostConfig, Dhcp4SubnetConfig};
use omoi::handler::{reply_destination, ReplyDest};
use omoi::lease::LeaseRequest;
use omoi::store::Leases4Tree;
use omoi::transactions::Transactions;
use omoi::DhcpError;

const NOW: u64 = 1_700_000_000;
const LEASE_TIME: u32 = 172800;

fn subnet() -> Dhcp4SubnetConfig {
    Dhcp4SubnetConfig {
        subnet: ipv4_from_octets(192, 168, 0, 0),
        netmask: ipv4_from_octets(255, 255, 255, 0),
        range: (
            ipv4_from_octets(192, 168, 0, 101),
            ipv4_from_octets(192, 168, 0, 250),
        ),
        domain_name_servers: vec![ipv4_from_octets(192, 168, 0, 1)],
        routers: vec![ipv4_from_octets(192, 168, 0, 1)],
        broadcast_address: ipv4_from_octets(192, 168, 0, 255),
        address_lease_time: LEASE_TIME,
    }
}

fn dhcp4(hosts: Vec<Dhcp4HostConfig>) -> Dhcp4Config {
    Dhcp4Config { subnets: vec![subnet()], hosts }
}

fn temp_tree() -> Leases4Tree {
    let db = sled::Config::new().temporary(true).open().unwrap();
    Leases4Tree::new(db.open_tree("LEASES4").unwrap())
}

const CLIENT: [u8; 6] = [0x00, 0x11, 0x22, 0x33, 0x44, 0x55];

#[test]
fn offer_then_ack_carries_the_subnet_values() {
    let config = dhcp4(vec![]);
    let mut tree = temp_tree();
    let mut txns = Transactions::new();
    let offer = LeaseRequest::new(0x5150, CLIENT.to_vec())
        .offer(&config, &tree, &mut txns, NOW)
        .unwrap();
    assert_eq!(offer.ip_addr, ipv4_from_octets(192, 168, 0, 101));
    assert_eq!(offer.hardware_address, CLIENT.to_vec());
    assert_eq!(offer.subnet_mask, ipv4_from_octets(255, 255, 255, 0));
    assert_eq!(offer.broadcast_address, ipv4_from_octets(192, 168, 0, 255));
    assert_eq!(offer.routers, vec![ipv4_from_octets(192, 168, 0, 1)]);
    assert_eq!(offer.domain_name_servers, vec![ipv4_from_octets(192, 168, 0, 1)]);
    assert_eq!(offer.address_lease_time, LEASE_TIME);
    let ack = LeaseRequest::new(0x5150, CLIENT.to_vec())
        .ack(&config, &mut tree, &mut txns, NOW)
        .unwrap();
    assert_eq!(ack.ip_addr, offer.ip_addr);
    let record = tree.get_by_ip(ack.ip_addr).unwrap();
    assert_eq!(record.hardware_address, CLIENT.to_vec());
    assert_eq!(record.ttl, NOW + LEASE_TIME as u64);
}

#[test]
fn consumed_offer_no_longer_shields_its_address() {
    // Once the REQUEST consumes the transaction, the next DISCOVER
    // from another device may take the next slot after the record.
    let config = dhcp4(vec![]);
    let mut tree = temp_tree();
    let mut txns = Transactions::new();
    LeaseRequest::new(1, CLIENT.to_vec()).offer(&config, &tree, &mut txns, NOW).unwrap();
    LeaseRequest::new(1, CLIENT.to_vec()).ack(&config, &mut tree, &mut txns, NOW).unwrap();
    let other = LeaseRequest::new(2, vec![9, 9, 9, 9, 9, 9])
        .offer(&config, &tree, &mut txns, NOW)
        .unwrap();
    assert_eq!(other.ip_addr, ipv4_from_octets(192, 168, 0, 102));
}

#[test]
fn reservation_wins_over_store_contents() {
    let fixed = ipv4_from_octets(192, 168, 1, 15);
    let config = dhcp4(vec![Dhcp4HostConfig {
        name: String::from("host1"),
        hardware_ethernet: CLIENT.to_vec(),
        fixed_address: fixed,
    }]);
    let mut tree = temp_tree();
    // Even with a record for the same device inside the range, the
    // reservation decides.
    tree.acquire(CLIENT.to_vec(), ipv4_from_octets(192, 168, 0, 130), NOW + 100).unwrap();
    let mut txns = Transactions::new();
    let offer = LeaseRequest::new(7, CLIENT.to_vec()).offer(&config, &tree, &mut txns, NOW).unwrap();
    assert_eq!(offer.ip_addr, fixed);
}

#[test]
fn registry_insert_remove() {
    let mut txns = Transactions::new();
    txns.new_transaction(10, 1234, NOW);
    txns.new_transaction(11, 5678, NOW);
    txns.new_transaction(10, 9999, NOW + 1);
    let offered = txns.offered_ipv4_addresses(NOW + 2);
    assert!(offered.contains(&9999));
    assert!(offered.contains(&5678));
    assert!(!offered.contains(&1234));
    let taken = txns.remove(10).unwrap();
    assert_eq!(taken.offered_ipv4_addr, 9999);
    assert!(txns.remove(10).is_none());
    // Lapsed entries no longer appear.
    let later = txns.offered_ipv4_addresses(NOW + 3600);
    assert!(later.is_empty());
}

#[test]
fn destination_policy() {
    assert_eq!(reply_destination(0, 0), Ok(ReplyDest::LimitedBroadcast));
    assert_eq!(
        reply_destination(0, ipv4_from_octets(192, 168, 0, 5)),
        Err(DhcpError::Unsupported)
    );
    assert_eq!(
        reply_destination(ipv4_from_octets(10, 0, 0, 1), 0),
        Err(DhcpError::Unsupported)
    );
}

#[test]
fn servable_configurations() {
    assert!(config_servable(&dhcp4(vec![])));
    let none = Dhcp4Config { subnets: vec![], hosts: vec![] };
    assert!(!config_servable(&none));
    let two = Dhcp4Config { subnets: vec![subnet(), subnet()], hosts: vec![] };
    assert!(!config_servable(&two));
    let mut backwards = subnet();
    backwards.range = (backwards.range.1, backwards.range.0);
    let bad = Dhcp4Config { subnets: vec![backwards], hosts: vec![] };
    assert!(!config_servable(&bad));
}
