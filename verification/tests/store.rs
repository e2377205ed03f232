use omoi::bytes::ipv4_from_octets;
use omoi::store::{decode_record, encode_record, Leases4Record, Leases4Tree};
use omoi::DhcpError;

fn temp_tree() -> Leases4Tree {
    let db = sled::Config::new().temporary(true).open().unwrap();
    Leases4Tree::new(db.open_tree("LEASES4").unwrap())
}

const NOW: u64 = 1_700_000_000;

#[test]
fn encode_decode_test() {
    let record = Leases4Record {
        hardware_address: vec![1, 2, 3],
        ip_addr: ipv4_from_octets(192, 168, 1, 1),
        ttl: NOW,
    };
    let serialized = encode_record(&record);
    let deserialized = decode_record(&serialized).unwrap();
    assert_eq!(record, deserialized);
}

#[test]
fn damaged_record_bytes_do_not_decode() {
    assert_eq!(decode_record(&vec![]), None);
    assert_eq!(decode_record(&vec![9, 1, 2, 3]), None);
    let record = Leases4Record {
        hardware_address: vec![1, 2, 3],
        ip_addr: ipv4_from_octets(10, 0, 0, 1),
        ttl: NOW,
    };
    let mut serialized = encode_record(&record);
    serialized.pop();
    assert_eq!(decode_record(&serialized), None);
}

#[test]
fn acquire_then_get_by_ip() {
    let mut tree = temp_tree();
    let ip = ipv4_from_octets(192, 168, 0, 101);
    let written = tree.acquire(vec![0, 17, 34, 51, 68, 85], ip, NOW + 172800).unwrap();
    assert_eq!(written.ip_addr, ip);
    let read = tree.get_by_ip(ip).unwrap();
    assert_eq!(read, written);
    assert!(!read.is_expired(NOW));
    assert!(read.is_expired(NOW + 172800));
}

#[test]
fn get_by_ip_not_found() {
    let tree = temp_tree();
    assert_eq!(
        tree.get_by_ip(ipv4_from_octets(192, 168, 0, 101)),
        Err(DhcpError::NotFound)
    );
}

#[test]
fn get_by_hw_finds_first_record_in_key_order() {
    let mut tree = temp_tree();
    let a = ipv4_from_octets(192, 168, 0, 120);
    let b = ipv4_from_octets(192, 168, 0, 105);
    tree.acquire(vec![1, 1, 1, 1, 1, 1], a, NOW).unwrap();
    tree.acquire(vec![1, 1, 1, 1, 1, 1], b, NOW).unwrap();
    let rec = tree.get_by_hw(&vec![1, 1, 1, 1, 1, 1]).unwrap();
    assert_eq!(rec.ip_addr, b);
    assert_eq!(
        tree.get_by_hw(&vec![2, 2, 2, 2, 2, 2]),
        Err(DhcpError::NotFound)
    );
}

#[test]
fn suggest_on_empty_store_takes_range_start() {
    let tree = temp_tree();
    let lo = ipv4_from_octets(192, 168, 0, 101);
    let hi = ipv4_from_octets(192, 168, 0, 250);
    let ip = tree.suggest(&vec![0, 1, 2, 3, 4, 5], lo, hi, &vec![], NOW).unwrap();
    assert_eq!(ip, lo);
}

#[test]
fn suggest_skips_reserved_addresses() {
    let tree = temp_tree();
    let lo = ipv4_from_octets(192, 168, 0, 101);
    let hi = ipv4_from_octets(192, 168, 0, 250);
    let reserved = vec![lo, lo + 1];
    let ip = tree.suggest(&vec![0, 1, 2, 3, 4, 5], lo, hi, &reserved, NOW).unwrap();
    assert_eq!(ip, lo + 2);
}

#[test]
fn suggest_is_sticky_even_for_expired_records() {
    let mut tree = temp_tree();
    let lo = ipv4_from_octets(192, 168, 0, 101);
    let hi = ipv4_from_octets(192, 168, 0, 250);
    let mine = ipv4_from_octets(192, 168, 0, 140);
    let hw = vec![0, 17, 34, 51, 68, 85];
    tree.acquire(hw.clone(), mine, NOW - 10).unwrap();
    // The record has lapsed, yet the same device gets its address back.
    let ip = tree.suggest(&hw, lo, hi, &vec![], NOW).unwrap();
    assert_eq!(ip, mine);
}

#[test]
fn suggest_reuses_expired_slot_of_another_device() {
    let mut tree = temp_tree();
    let lo = ipv4_from_octets(192, 168, 0, 101);
    let hi = ipv4_from_octets(192, 168, 0, 103);
    tree.acquire(vec![1, 1, 1, 1, 1, 1], lo, NOW + 100).unwrap(); // live
    tree.acquire(vec![2, 2, 2, 2, 2, 2], lo + 1, NOW - 1).unwrap(); // expired
    let ip = tree.suggest(&vec![3, 3, 3, 3, 3, 3], lo, hi, &vec![], NOW).unwrap();
    assert_eq!(ip, lo + 1);
}

#[test]
fn suggest_exhausts_full_range() {
    let mut tree = temp_tree();
    let lo = ipv4_from_octets(10, 0, 0, 1);
    let hi = ipv4_from_octets(10, 0, 0, 3);
    let mut ip = lo;
    let mut n: u8 = 0;
    while ip <= hi {
        tree.acquire(vec![9, 9, 9, 9, 9, n], ip, NOW + 1000).unwrap();
        ip += 1;
        n += 1;
    }
    assert_eq!(
        tree.suggest(&vec![7, 7, 7, 7, 7, 7], lo, hi, &vec![], NOW),
        Err(DhcpError::NoFreeAddress)
    );
}

#[test]
fn all_lists_every_decodable_record() {
    let mut tree = temp_tree();
    let a = ipv4_from_octets(10, 0, 0, 1);
    let b = ipv4_from_octets(10, 0, 0, 2);
    tree.acquire(vec![1, 1, 1, 1, 1, 1], a, NOW).unwrap();
    tree.acquire(vec![2, 2, 2, 2, 2, 2], b, NOW).unwrap();
    let mut ips: Vec<u32> = tree.all().unwrap().into_iter().map(|r| r.ip_addr).collect();
    ips.sort();
    assert_eq!(ips, vec![a, b]);
}

#[test]
fn acquire_overwrites_the_slot() {
    let mut tree = temp_tree();
    let ip = ipv4_from_octets(10, 0, 0, 1);
    tree.acquire(vec![1, 1, 1, 1, 1, 1], ip, NOW).unwrap();
    tree.acquire(vec![2, 2, 2, 2, 2, 2], ip, NOW + 5).unwrap();
    let rec = tree.get_by_ip(ip).unwrap();
    assert_eq!(rec.hardware_address, vec![2, 2, 2, 2, 2, 2]);
    assert_eq!(rec.ttl, NOW + 5);
    assert_eq!(tree.all().unwrap().len(), 1);
}

#[test]
fn generate_key_is_the_network_order_octets() {
    let key = Leases4Tree::generate_key(ipv4_from_octets(192, 168, 0, 101));
    assert_eq!(key, vec![192, 168, 0, 101]);
}

#[test]
fn record_bytes_have_the_documented_layout() {
    let record = Leases4Record {
        hardware_address: vec![1, 2, 3],
        ip_addr: ipv4_from_octets(192, 168, 1, 1),
        ttl: 0x0102030405060708,
    };
    let serialized = encode_record(&record);
    assert_eq!(
        serialized,
        vec![3, 1, 2, 3, 192, 168, 1, 1, 1, 2, 3, 4, 5, 6, 7, 8]
    );
}
