use omoi::bytes::ipv4_from_octets;
use omoi::conf::{CommonConfig, Dhcp4Config, Dhcp4HostConfig, Dhcp4SubnetConfig, OmoiConfig};
use omoi::handler::{handle_request, Context, ReplyDest};
use omoi::options::{DhcpOption, DhcpOptions};
use omoi::protocol::{decode, encode, DhcpMessageFileField, DhcpMessageFormat,
    DhcpMessageSnameField, MSG_TYPE_ACK, MSG_TYPE_DISCOVER, MSG_TYPE_NAK, MSG_TYPE_OFFER,
    MSG_TYPE_REQUEST};
use omoi::store::Leases4Tree;
use omoi::transactions::Transactions;
use omoi::DhcpError;

const NOW: u64 = 1_700_000_000;
const LEASE_TIME: u32 = 172800;

fn subnet() -> Dhcp4SubnetConfig {
    Dhcp4SubnetConfig {
        subnet: ipv4_from_octets(192, 168, 0, 0),
        netmask: ipv4_from_octets(255, 255, 255, 0),
        range: (
            ipv4_from_octets(192, 168, 0, 101),
            ipv4_from_octets(192, 168, 0, 250),
        ),
        domain_name_servers: vec![ipv4_from_octets(192, 168, 0, 1)],
        routers: vec![ipv4_from_octets(192, 168, 0, 1)],
        broadcast_address: ipv4_from_octets(192, 168, 0, 255),
        address_lease_time: LEASE_TIME,
    }
}

fn make_context(hosts: Vec<Dhcp4HostConfig>) -> Context {
    let db = sled::Config::new().temporary(true).open().unwrap();
    Context {
        config: OmoiConfig {
            common: CommonConfig { database_dir: String::from("omoi-db") },
            dhcp4: Dhcp4Config { subnets: vec![subnet()], hosts },
            debug: None,
        },
        tree: Leases4Tree::new(db.open_tree("LEASES4").unwrap()),
        transactions: Transactions::new(),
    }
}

fn chaddr16(mac: [u8; 6]) -> Vec<u8> {
    let mut c = mac.to_vec();
    c.resize(16, 0);
    c
}

fn client_message(msg_type: u8, xid: u32, mac: [u8; 6]) -> Vec<u8> {
    let m = DhcpMessageFormat {
        op: 1,
        htype: 1,
        hlen: 6,
        hops: 0,
        xid,
        secs: 0,
        flags: 0x8000,
        ciaddr: 0,
        yiaddr: 0,
        siaddr: 0,
        giaddr: 0,
        chaddr: chaddr16(mac),
        sname: DhcpMessageSnameField(vec![0; 64]),
        file: DhcpMessageFileField(vec![0; 128]),
        options: DhcpOptions(vec![DhcpOption::MessageType(msg_type), DhcpOption::End]),
    };
    encode(&m).unwrap()
}

fn msg_type_of(m: &DhcpMessageFormat) -> Option<u8> {
    m.options.msg_type()
}

const CLIENT: [u8; 6] = [0x00, 0x11, 0x22, 0x33, 0x44, 0x55];

#[test]
fn discover_on_empty_store_offers_range_start() {
    // S1: the first DISCOVER is offered the bottom of the range with
    // the subnet's option values; no lease record is written yet.
    let mut ctx = make_context(vec![]);
    let buffer = client_message(MSG_TYPE_DISCOVER, 0x12345678, CLIENT);
    let (reply, bytes, dest) = handle_request(&mut ctx, &buffer, NOW).unwrap();
    assert_eq!(dest, ReplyDest::LimitedBroadcast);
    assert_eq!(reply.op, 2);
    assert_eq!(reply.xid, 0x12345678);
    assert_eq!(reply.yiaddr, ipv4_from_octets(192, 168, 0, 101));
    assert_eq!(msg_type_of(&reply), Some(MSG_TYPE_OFFER));
    assert_eq!(reply.chaddr, chaddr16(CLIENT));
    let opts = &reply.options.0;
    assert!(opts.contains(&DhcpOption::SubnetMask(ipv4_from_octets(255, 255, 255, 0))));
    assert!(opts.contains(&DhcpOption::Router(vec![ipv4_from_octets(192, 168, 0, 1)])));
    assert!(opts.contains(&DhcpOption::DomainNameServer(vec![ipv4_from_octets(192, 168, 0, 1)])));
    assert!(opts.contains(&DhcpOption::BroadcastAddress(ipv4_from_octets(192, 168, 0, 255))));
    assert!(opts.contains(&DhcpOption::AddressLeaseTime(LEASE_TIME)));
    assert_eq!(opts.last(), Some(&DhcpOption::End));
    // The reply bytes decode back to the reply message.
    assert_eq!(decode(&bytes).unwrap(), reply);
    // No lease record yet.
    assert_eq!(
        ctx.tree.get_by_ip(ipv4_from_octets(192, 168, 0, 101)),
        Err(DhcpError::NotFound)
    );
}

#[test]
fn request_with_same_xid_acknowledges_the_offer() {
    // S2: the follow-up REQUEST under the same xid is acknowledged the
    // offered address and the lease record is written.
    let mut ctx = make_context(vec![]);
    let discover = client_message(MSG_TYPE_DISCOVER, 0x12345678, CLIENT);
    let (offer, _, _) = handle_request(&mut ctx, &discover, NOW).unwrap();
    let request = client_message(MSG_TYPE_REQUEST, 0x12345678, CLIENT);
    let (ack, _, _) = handle_request(&mut ctx, &request, NOW + 1).unwrap();
    assert_eq!(msg_type_of(&ack), Some(MSG_TYPE_ACK));
    assert_eq!(ack.yiaddr, offer.yiaddr);
    assert_eq!(ack.yiaddr, ipv4_from_octets(192, 168, 0, 101));
    let record = ctx.tree.get_by_ip(ack.yiaddr).unwrap();
    assert_eq!(record.hardware_address, CLIENT.to_vec());
    assert_eq!(record.ttl, NOW + 1 + LEASE_TIME as u64);
}

#[test]
fn static_reservation_shadows_the_range() {
    // S3: a reserved hardware address is always answered with its
    // fixed address, though it lies outside the dynamic range.
    let reserved_mac = [0xdc, 0xa6, 0x32, 0xe6, 0x0f, 0x44];
    let fixed = ipv4_from_octets(192, 168, 1, 15);
    let mut ctx = make_context(vec![Dhcp4HostConfig {
        name: String::from("host1"),
        hardware_ethernet: reserved_mac.to_vec(),
        fixed_address: fixed,
    }]);
    let discover = client_message(MSG_TYPE_DISCOVER, 0x4242, reserved_mac);
    let (offer, _, _) = handle_request(&mut ctx, &discover, NOW).unwrap();
    assert_eq!(msg_type_of(&offer), Some(MSG_TYPE_OFFER));
    assert_eq!(offer.yiaddr, fixed);
    let request = client_message(MSG_TYPE_REQUEST, 0x4242, reserved_mac);
    let (ack, _, _) = handle_request(&mut ctx, &request, NOW).unwrap();
    assert_eq!(msg_type_of(&ack), Some(MSG_TYPE_ACK));
    assert_eq!(ack.yiaddr, fixed);
    let record = ctx.tree.get_by_ip(fixed).unwrap();
    assert_eq!(record.hardware_address, reserved_mac.to_vec());
}

#[test]
fn rediscover_after_ack_is_sticky() {
    // S4: after the DORA exchange, a fresh DISCOVER under a new xid
    // is offered the address already on record.
    let mut ctx = make_context(vec![]);
    let discover = client_message(MSG_TYPE_DISCOVER, 0x12345678, CLIENT);
    handle_request(&mut ctx, &discover, NOW).unwrap();
    let request = client_message(MSG_TYPE_REQUEST, 0x12345678, CLIENT);
    handle_request(&mut ctx, &request, NOW).unwrap();
    let rediscover = client_message(MSG_TYPE_DISCOVER, 0x9999, CLIENT);
    let (offer, _, _) = handle_request(&mut ctx, &rediscover, NOW + 10).unwrap();
    assert_eq!(offer.yiaddr, ipv4_from_octets(192, 168, 0, 101));
}

#[test]
fn exhausted_range_drops_discover_and_naks_request() {
    // S5: with every address of the range held by a live lease, a
    // DISCOVER from a new device is dropped and a REQUEST is answered
    // with a NAK.
    let mut ctx = make_context(vec![]);
    let lo = ipv4_from_octets(192, 168, 0, 101);
    let hi = ipv4_from_octets(192, 168, 0, 250);
    let mut ip = lo;
    let mut n: u8 = 0;
    while ip <= hi {
        ctx.tree
            .acquire(vec![0xee, 0, 0, 0, 0, n], ip, NOW + 1000)
            .unwrap();
        ip += 1;
        n = n.wrapping_add(1);
    }
    let discover = client_message(MSG_TYPE_DISCOVER, 0x7777, CLIENT);
    assert_eq!(
        handle_request(&mut ctx, &discover, NOW),
        Err(DhcpError::NoFreeAddress)
    );
    let request = client_message(MSG_TYPE_REQUEST, 0x7777, CLIENT);
    let (nak, _, _) = handle_request(&mut ctx, &request, NOW).unwrap();
    assert_eq!(msg_type_of(&nak), Some(MSG_TYPE_NAK));
    assert_eq!(nak.yiaddr, 0);
    assert_eq!(nak.xid, 0x7777);
}

#[test]
fn concurrent_discovers_get_distinct_addresses() {
    // Two DISCOVERs under distinct xids from distinct unknown devices
    // against an empty store are offered distinct addresses: the
    // registry shields the first offer until its REQUEST lands.
    let mut ctx = make_context(vec![]);
    let first = client_message(MSG_TYPE_DISCOVER, 0x1111, [1, 1, 1, 1, 1, 1]);
    let second = client_message(MSG_TYPE_DISCOVER, 0x2222, [2, 2, 2, 2, 2, 2]);
    let (offer1, _, _) = handle_request(&mut ctx, &first, NOW).unwrap();
    let (offer2, _, _) = handle_request(&mut ctx, &second, NOW).unwrap();
    assert_ne!(offer1.yiaddr, offer2.yiaddr);
    assert_eq!(offer1.yiaddr, ipv4_from_octets(192, 168, 0, 101));
    assert_eq!(offer2.yiaddr, ipv4_from_octets(192, 168, 0, 102));
}

#[test]
fn unsupported_message_type_is_rejected() {
    let mut ctx = make_context(vec![]);
    let inform = client_message(8, 0x3333, CLIENT);
    assert_eq!(
        handle_request(&mut ctx, &inform, NOW),
        Err(DhcpError::UnsupportedMessageType)
    );
}

#[test]
fn nonzero_ciaddr_is_deferred_as_unsupported() {
    let mut ctx = make_context(vec![]);
    let mut m = decode(&client_message(MSG_TYPE_REQUEST, 0x3434, CLIENT)).unwrap();
    m.ciaddr = ipv4_from_octets(192, 168, 0, 101);
    let buffer = encode(&m).unwrap();
    assert_eq!(
        handle_request(&mut ctx, &buffer, NOW),
        Err(DhcpError::Unsupported)
    );
}

#[test]
fn garbage_datagram_is_malformed() {
    let mut ctx = make_context(vec![]);
    let buffer = vec![0u8; 300];
    assert_eq!(
        handle_request(&mut ctx, &buffer, NOW),
        Err(DhcpError::MalformedMessage)
    );
}

#[test]
fn request_without_offer_allocates_fresh() {
    // A REQUEST whose xid the registry does not hold falls back to a
    // fresh allocation and still writes the record.
    let mut ctx = make_context(vec![]);
    let request = client_message(MSG_TYPE_REQUEST, 0xabcd, CLIENT);
    let (ack, _, _) = handle_request(&mut ctx, &request, NOW).unwrap();
    assert_eq!(msg_type_of(&ack), Some(MSG_TYPE_ACK));
    assert_eq!(ack.yiaddr, ipv4_from_octets(192, 168, 0, 101));
    assert!(ctx.tree.get_by_ip(ack.yiaddr).is_ok());
}

#[test]
fn expired_transaction_does_not_shield_its_address() {
    // An OFFER older than the expiration window no longer reserves
    // its address against a later DISCOVER.
    let mut ctx = make_context(vec![]);
    let first = client_message(MSG_TYPE_DISCOVER, 0x1111, [1, 1, 1, 1, 1, 1]);
    handle_request(&mut ctx, &first, NOW).unwrap();
    let second = client_message(MSG_TYPE_DISCOVER, 0x2222, [2, 2, 2, 2, 2, 2]);
    let (offer2, _, _) = handle_request(&mut ctx, &second, NOW + 3600).unwrap();
    assert_eq!(offer2.yiaddr, ipv4_from_octets(192, 168, 0, 101));
}

#[test]
fn reserved_fixed_address_is_never_offered_dynamically() {
    // A reservation whose fixed address sits at the bottom of the
    // range shadows that slot: an unknown device is offered the next
    // address, and its REQUEST is acknowledged past the slot too.
    let fixed = ipv4_from_octets(192, 168, 0, 101);
    let mut ctx = make_context(vec![Dhcp4HostConfig {
        name: String::from("pinned"),
        hardware_ethernet: vec![0xdc, 0xa6, 0x32, 0xe6, 0x0f, 0x44],
        fixed_address: fixed,
    }]);
    let discover = client_message(MSG_TYPE_DISCOVER, 0x6001, CLIENT);
    let (offer, _, _) = handle_request(&mut ctx, &discover, NOW).unwrap();
    assert_eq!(offer.yiaddr, ipv4_from_octets(192, 168, 0, 102));
    // A REQUEST with an unknown xid re-runs the scan and skips both
    // the pinned slot and the in-flight offer.
    let request = client_message(MSG_TYPE_REQUEST, 0x6002, [9, 9, 9, 9, 9, 9]);
    let (ack, _, _) = handle_request(&mut ctx, &request, NOW).unwrap();
    assert_eq!(ack.yiaddr, ipv4_from_octets(192, 168, 0, 103));
}
