//! The durable lease table: one record per IPv4 address, persisted
//! in an embedded ordered key-value tree.
//!
//! Keys are the four address octets in network order.  Values carry
//! the record in a fixed layout: `hw_len(1) hw(hw_len) ip(4) ttl(8)`,
//! multi-byte fields big-endian, the TTL an absolute instant in
//! seconds.  A value that does not decode is treated as a free slot:
//! the protocol tolerates reassignment, and refusing a byte-damaged
//! slot would strand its address.

use vstd::prelude::*;

use crate::bytes::{
    be32_bytes, be32_of, be64_bytes, be64_of, bytes_eq, push_be32, push_be64, push_bytes,
};
use crate::DhcpError;

verus! {

/// Mathematical model of one lease record.
pub struct SpecLeaseRecord {
    pub hardware_address: Seq<u8>,
    pub ip_addr: u32,
    pub ttl: u64,
}

/// One lease: the holder's hardware address, the leased IPv4 address
/// (redundant with the key, kept for scans), and the absolute instant
/// at which the lease lapses.
#[derive(Clone, Debug, PartialEq, Eq)]
pub struct Leases4Record {
    pub hardware_address: Vec<u8>,
    pub ip_addr: u32,
    pub ttl: u64,
}

impl View for Leases4Record {
    type V = SpecLeaseRecord;

    open spec fn view(&self) -> SpecLeaseRecord {
        SpecLeaseRecord {
            hardware_address: self.hardware_address@,
            ip_addr: self.ip_addr,
            ttl: self.ttl,
        }
    }
}

impl Leases4Record {
    /// Whether the lease has lapsed at the given instant.
    pub fn is_expired(&self, now: u64) -> (r: bool)
        ensures
            r == (now >= self.ttl),
    {
        now >= self.ttl
    }
}

/// The key a record is stored under: the address octets in network
/// order.
pub open spec fn spec_key(ip: u32) -> Seq<u8> {
    be32_bytes(ip)
}

/// The stored bytes of a record.
pub open spec fn spec_encode_record(r: SpecLeaseRecord) -> Seq<u8> {
    seq![r.hardware_address.len() as u8] + r.hardware_address + be32_bytes(r.ip_addr)
        + be64_bytes(r.ttl)
}

/// The record read back from stored bytes, if they have the exact
/// layout the store writes.
pub open spec fn spec_decode_record(b: Seq<u8>) -> Option<SpecLeaseRecord> {
    if b.len() < 13 {
        None
    } else if b.len() != 13 + b[0] {
        None
    } else {
        let n = b[0] as int;
        Some(
            SpecLeaseRecord {
                hardware_address: b.subrange(1, 1 + n),
                ip_addr: be32_of(b[1 + n], b[2 + n], b[3 + n], b[4 + n]),
                ttl: be64_of(
                    b[5 + n],
                    b[6 + n],
                    b[7 + n],
                    b[8 + n],
                    b[9 + n],
                    b[10 + n],
                    b[11 + n],
                    b[12 + n],
                ),
            },
        )
    }
}

/// A record whose hardware address fits its one-byte length survives
/// the trip through its stored bytes.
pub proof fn lemma_record_roundtrip(r: SpecLeaseRecord)
    requires
        r.hardware_address.len() <= 255,
    ensures
        spec_decode_record(spec_encode_record(r)) == Some(r),
{
    let b = spec_encode_record(r);
    let n = r.hardware_address.len() as int;
    assert(b.len() == 13 + n);
    assert(b[0] == n as u8);
    assert(b.subrange(1, 1 + n) =~= r.hardware_address);
    assert(b.subrange(1 + n, 5 + n) =~= be32_bytes(r.ip_addr));
    assert(b.subrange(5 + n, 13 + n) =~= be64_bytes(r.ttl));
    crate::bytes::lemma_be32_roundtrip(r.ip_addr);
    crate::bytes::lemma_be64_roundtrip(r.ttl);
    assert(b[1 + n] == be32_bytes(r.ip_addr)[0]);
    assert(b[2 + n] == be32_bytes(r.ip_addr)[1]);
    assert(b[3 + n] == be32_bytes(r.ip_addr)[2]);
    assert(b[4 + n] == be32_bytes(r.ip_addr)[3]);
    assert(b[5 + n] == be64_bytes(r.ttl)[0]);
    assert(b[6 + n] == be64_bytes(r.ttl)[1]);
    assert(b[7 + n] == be64_bytes(r.ttl)[2]);
    assert(b[8 + n] == be64_bytes(r.ttl)[3]);
    assert(b[9 + n] == be64_bytes(r.ttl)[4]);
    assert(b[10 + n] == be64_bytes(r.ttl)[5]);
    assert(b[11 + n] == be64_bytes(r.ttl)[6]);
    assert(b[12 + n] == be64_bytes(r.ttl)[7]);
    let d = spec_decode_record(b).unwrap();
    assert(d.hardware_address =~= r.hardware_address);
}

/// Writes a record into its stored bytes.
pub fn encode_record(rec: &Leases4Record) -> (r: Vec<u8>)
    requires
        rec.hardware_address@.len() <= 255,
    ensures
        r@ == spec_encode_record(rec@),
{
    let mut out: Vec<u8> = Vec::new();
    out.push(rec.hardware_address.len() as u8);
    push_bytes(&mut out, &rec.hardware_address);
    push_be32(&mut out, rec.ip_addr);
    push_be64(&mut out, rec.ttl);
    assert(out@ =~= spec_encode_record(rec@));
    out
}

/// Reads a record back from stored bytes; a damaged value yields
/// nothing.
pub fn decode_record(b: &Vec<u8>) -> (r: Option<Leases4Record>)
    ensures
        match r {
            Some(rec) => spec_decode_record(b@) == Some(rec@),
            None => spec_decode_record(b@) is None,
        },
{
    if b.len() < 13 {
        return None;
    }
    let n = b[0] as usize;
    if b.len() != 13 + n {
        return None;
    }
    let hw = crate::bytes::copy_range(b, 1, 1 + n);
    let ip = crate::bytes::read_be32(b[1 + n], b[2 + n], b[3 + n], b[4 + n]);
    let t0 = b[5 + n];
    let t1 = b[6 + n];
    let t2 = b[7 + n];
    let t3 = b[8 + n];
    let t4 = b[9 + n];
    let t5 = b[10 + n];
    let t6 = b[11 + n];
    let t7 = b[12 + n];
    let ttl = ((t0 as u64) << 56) | ((t1 as u64) << 48) | ((t2 as u64) << 40) | ((t3 as u64) << 32)
        | ((t4 as u64) << 24) | ((t5 as u64) << 16) | ((t6 as u64) << 8) | (t7 as u64);
    let rec = Leases4Record { hardware_address: hw, ip_addr: ip, ttl };
    proof {
        assert(spec_decode_record(b@).unwrap().hardware_address =~= rec@.hardware_address);
    }
    Some(rec)
}

/// Strict lexicographic order on byte strings, the order in which the
/// tree hands entries out.
pub open spec fn lex_lt(a: Seq<u8>, b: Seq<u8>) -> bool
    decreases b.len(),
{
    if b.len() == 0 {
        false
    } else if a.len() == 0 {
        true
    } else if a[0] < b[0] {
        true
    } else if a[0] > b[0] {
        false
    } else {
        lex_lt(a.drop_first(), b.drop_first())
    }
}

pub proof fn lemma_lex_irrefl(a: Seq<u8>)
    ensures
        !lex_lt(a, a),
    decreases a.len(),
{
    if a.len() > 0 {
        lemma_lex_irrefl(a.drop_first());
    }
}

pub proof fn lemma_lex_asym(a: Seq<u8>, b: Seq<u8>)
    requires
        lex_lt(a, b),
    ensures
        !lex_lt(b, a),
    decreases a.len(),
{
    if a.len() > 0 && b.len() > 0 && a[0] == b[0] {
        lemma_lex_asym(a.drop_first(), b.drop_first());
    }
}

#[verifier::external_type_specification]
#[verifier::external_body]
pub struct ExSledTree(sled::Tree);

/// The durable lease table, backed by one named tree of the embedded
/// key-value store.
///
/// The verified operations see the table through `tree_map`, its
/// byte-level contents.  The model assumes this process is the only
/// writer, as the server's single store handle guarantees.
#[verifier::external_body]
pub struct Leases4Tree {
    inner: sled::Tree,
}

/// The byte-level contents of the lease table: stored value bytes,
/// keyed by key bytes.
pub uninterp spec fn tree_map(t: Leases4Tree) -> Map<Seq<u8>, Seq<u8>>;

impl Leases4Tree {
    /// Wraps an already-opened tree of the embedded store.
    #[verifier::external_body]
    pub fn new(inner: sled::Tree) -> Leases4Tree {
        Leases4Tree { inner }
    }
}

/// Relies on sled::Tree::get: returns the value stored at the key, or
/// nothing when the key is absent; a storage fault reports an error.
#[verifier::external_body]
fn tree_get(t: &Leases4Tree, key: &Vec<u8>) -> (r: Result<Option<Vec<u8>>, DhcpError>)
    ensures
        match r {
            Ok(Some(v)) => tree_map(*t).contains_key(key@) && tree_map(*t)[key@] == v@,
            Ok(None) => !tree_map(*t).contains_key(key@),
            Err(e) => e == DhcpError::Store,
        },
{
    match t.inner.get(key) {
        Ok(Some(v)) => Ok(Some(v.to_vec())),
        Ok(None) => Ok(None),
        Err(_) => Err(DhcpError::Store),
    }
}

/// Relies on sled::Tree::insert: stores the value under the key,
/// replacing any previous value; a storage fault reports an error and
/// then promises nothing of the contents.
#[verifier::external_body]
fn tree_insert(t: &mut Leases4Tree, key: Vec<u8>, value: Vec<u8>) -> (r: Result<(), DhcpError>)
    ensures
        match r {
            Ok(_) => tree_map(*final(t)) == tree_map(*old(t)).insert(key@, value@),
            Err(e) => e == DhcpError::Store,
        },
{
    match t.inner.insert(key, value) {
        Ok(_) => Ok(()),
        Err(_) => Err(DhcpError::Store),
    }
}

/// Relies on sled::Tree::iter: yields every key/value pair exactly
/// once, keys in ascending lexicographic order; a fault while
/// iterating reports an error.
#[verifier::external_body]
fn tree_entries(t: &Leases4Tree) -> (r: Result<Vec<(Vec<u8>, Vec<u8>)>, DhcpError>)
    ensures
        match r {
            Ok(es) => {
                &&& forall|i: int|
                    0 <= i < es@.len() ==> tree_map(*t).contains_key(#[trigger] es@[i].0@)
                        && tree_map(*t)[es@[i].0@] == es@[i].1@
                &&& forall|k: Seq<u8>|
                    tree_map(*t).contains_key(k) ==> exists|i: int|
                        0 <= i < es@.len() && (#[trigger] es@[i].0@) == k
                &&& forall|i: int, j: int|
                    0 <= i < j < es@.len() ==> lex_lt(es@[i].0@, es@[j].0@)
            },
            Err(e) => e == DhcpError::Store,
        },
{
    let mut out: Vec<(Vec<u8>, Vec<u8>)> = Vec::new();
    for item in t.inner.iter() {
        match item {
            Ok((k, v)) => out.push((k.to_vec(), v.to_vec())),
            Err(_) => {
                return Err(DhcpError::Store);
            },
        }
    }
    Ok(out)
}

/// The record stored at a key, if the key is present and its value
/// decodes.
pub open spec fn map_rec(m: Map<Seq<u8>, Seq<u8>>, k: Seq<u8>) -> Option<SpecLeaseRecord> {
    if m.contains_key(k) {
        spec_decode_record(m[k])
    } else {
        None
    }
}

/// Whether the key holds a decodable record for this hardware
/// address.
pub open spec fn hw_match(m: Map<Seq<u8>, Seq<u8>>, k: Seq<u8>, hw: Seq<u8>) -> bool {
    match map_rec(m, k) {
        Some(r) => r.hardware_address == hw,
        None => false,
    }
}

/// Whether an address's slot is free at the given instant: no entry,
/// a damaged entry, or an expired record.
pub open spec fn m_free(m: Map<Seq<u8>, Seq<u8>>, ip: u32, now: u64) -> bool {
    match map_rec(m, spec_key(ip)) {
        Some(r) => r.ttl <= now,
        None => true,
    }
}

/// Whether the allocation scan may select this address: inside the
/// range, not held back for another in-flight offer, and free.
pub open spec fn candidate(
    m: Map<Seq<u8>, Seq<u8>>,
    ip: u32,
    lo: u32,
    hi: u32,
    reserved: Set<u32>,
    now: u64,
) -> bool {
    lo <= ip <= hi && !reserved.contains(ip) && m_free(m, ip, now)
}

/// What the allocation scan owes when it yields an address: the
/// sticky address of the first stored record for this hardware
/// address if one exists, else the lowest candidate of the range.
pub open spec fn offered_ip_ok(
    m: Map<Seq<u8>, Seq<u8>>,
    hw: Seq<u8>,
    lo: u32,
    hi: u32,
    reserved: Set<u32>,
    now: u64,
    ip: u32,
) -> bool {
    if exists|k: Seq<u8>| hw_match(m, k, hw) {
        exists|k: Seq<u8>|
            {
                &&& #[trigger] hw_match(m, k, hw)
                &&& map_rec(m, k).unwrap().ip_addr == ip
                &&& forall|k2: Seq<u8>| lex_lt(k2, k) ==> !(#[trigger] hw_match(m, k2, hw))
            }
    } else {
        candidate(m, ip, lo, hi, reserved, now) && forall|a: u32|
            lo <= a < ip ==> !candidate(m, a, lo, hi, reserved, now)
    }
}

/// When the allocation scan owes a failure: no stored record for the
/// hardware address and no candidate in the range.
pub open spec fn no_ip_available(
    m: Map<Seq<u8>, Seq<u8>>,
    hw: Seq<u8>,
    lo: u32,
    hi: u32,
    reserved: Set<u32>,
    now: u64,
) -> bool {
    &&& forall|k: Seq<u8>| !(#[trigger] hw_match(m, k, hw))
    &&& forall|a: u32| lo <= a <= hi ==> !candidate(m, a, lo, hi, reserved, now)
}

/// Whether the record stored at this key appears in the dump.
pub open spec fn lease_collected(m: Map<Seq<u8>, Seq<u8>>, k: Seq<u8>, rs: Seq<Leases4Record>) -> bool {
    exists|i: int| 0 <= i < rs.len() && (#[trigger] rs[i])@ == map_rec(m, k).unwrap()
}

/// A key list certifying a dump: one stored key per listed record,
/// no key used twice, so no record is listed more often than it is
/// stored.
pub open spec fn lease_list_keys(
    m: Map<Seq<u8>, Seq<u8>>,
    rs: Seq<Leases4Record>,
    ks: Seq<Seq<u8>>,
) -> bool {
    &&& ks.len() == rs.len()
    &&& forall|i: int| 0 <= i < rs.len() ==> map_rec(m, #[trigger] ks[i]) == Some(rs[i]@)
    &&& forall|i: int, j: int| 0 <= i < j < ks.len() ==> ks[i] != ks[j]
}

/// The dump the observability surface owes: each element is the
/// record stored under its own distinct key, and every stored
/// decodable record appears.  Order is unspecified.
pub open spec fn lease_list_matches(m: Map<Seq<u8>, Seq<u8>>, rs: Seq<Leases4Record>) -> bool {
    &&& exists|ks: Seq<Seq<u8>>| #[trigger] lease_list_keys(m, rs, ks)
    &&& forall|k: Seq<u8>| #[trigger] map_rec(m, k) is Some ==> lease_collected(m, k, rs)
}

/// Every stored decodable record was collected.
proof fn lemma_all_complete(
    m: Map<Seq<u8>, Seq<u8>>,
    entries: Seq<(Vec<u8>, Vec<u8>)>,
    out: Seq<Leases4Record>,
)
    requires
        forall|t: int|
            0 <= t < entries.len() ==> m.contains_key(#[trigger] entries[t].0@)
                && m[entries[t].0@] == entries[t].1@,
        forall|k: Seq<u8>|
            #[trigger] m.contains_key(k) ==> exists|t: int|
                0 <= t < entries.len() && (#[trigger] entries[t].0@) == k,
        forall|t: int|
            0 <= t < entries.len() && spec_decode_record(#[trigger] entries[t].1@) is Some
                ==> exists|j: int|
                0 <= j < out.len() && (#[trigger] out[j])@ == spec_decode_record(
                    entries[t].1@,
                ).unwrap(),
    ensures
        forall|k: Seq<u8>| #[trigger] map_rec(m, k) is Some ==> lease_collected(m, k, out),
{
    assert forall|k: Seq<u8>| #[trigger] map_rec(m, k) is Some implies lease_collected(
        m,
        k,
        out,
    ) by {
        assert(m.contains_key(k));
        let t = choose|t: int| 0 <= t < entries.len() && (#[trigger] entries[t].0@) == k;
        assert(spec_decode_record(entries[t].1@) is Some);
        let j = choose|j: int|
            0 <= j < out.len() && (#[trigger] out[j])@ == spec_decode_record(
                entries[t].1@,
            ).unwrap();
        assert(out[j]@ == map_rec(m, k).unwrap());
    }
}

impl Leases4Tree {
    /// The key this address's record is stored under.
    pub fn generate_key(address: u32) -> (r: Vec<u8>)
        ensures
            r@ == spec_key(address),
    {
        let mut out: Vec<u8> = Vec::new();
        push_be32(&mut out, address);
        assert(out@ =~= spec_key(address));
        out
    }

    /// The record stored for an address.
    ///
    /// An absent key and a damaged value both report that no record
    /// was found.
    pub fn get_by_ip(&self, address: u32) -> (r: Result<Leases4Record, DhcpError>)
        ensures
            match r {
                Ok(rec) => map_rec(tree_map(*self), spec_key(address)) == Some(rec@),
                Err(e) => (e == DhcpError::NotFound && map_rec(tree_map(*self), spec_key(address))
                    is None) || e == DhcpError::Store,
            },
    {
        let key = Self::generate_key(address);
        match tree_get(self, &key) {
            Err(e) => Err(DhcpError::Store),
            Ok(None) => Err(DhcpError::NotFound),
            Ok(Some(v)) => match decode_record(&v) {
                Some(rec) => Ok(rec),
                None => Err(DhcpError::NotFound),
            },
        }
    }

    /// The first stored record, in key order, whose hardware address
    /// is `address`.
    ///
    /// Entries whose value does not decode are skipped.
    pub fn get_by_hw(&self, address: &Vec<u8>) -> (r: Result<Leases4Record, DhcpError>)
        ensures
            match r {
                Ok(rec) => exists|k: Seq<u8>|
                    {
                        &&& #[trigger] hw_match(tree_map(*self), k, address@)
                        &&& map_rec(tree_map(*self), k) == Some(rec@)
                        &&& forall|k2: Seq<u8>|
                            lex_lt(k2, k) ==> !(#[trigger] hw_match(tree_map(*self), k2, address@))
                    },
                Err(e) => (e == DhcpError::NotFound && forall|k: Seq<u8>|
                    !(#[trigger] hw_match(tree_map(*self), k, address@))) || e == DhcpError::Store,
            },
    {
        let ghost m = tree_map(*self);
        let entries = match tree_entries(self) {
            Ok(es) => es,
            Err(e) => {
                return Err(DhcpError::Store);
            },
        };
        let mut i: usize = 0;
        while i < entries.len()
            invariant
                i <= entries@.len(),
                m == tree_map(*self),
                forall|t: int|
                    0 <= t < entries@.len() ==> m.contains_key(#[trigger] entries@[t].0@)
                        && m[entries@[t].0@] == entries@[t].1@,
                forall|k: Seq<u8>|
                    m.contains_key(k) ==> exists|t: int|
                        0 <= t < entries@.len() && (#[trigger] entries@[t].0@) == k,
                forall|t: int, u: int|
                    0 <= t < u < entries@.len() ==> lex_lt(entries@[t].0@, entries@[u].0@),
                forall|t: int|
                    0 <= t < i ==> !hw_match(m, #[trigger] entries@[t].0@, address@),
            decreases entries@.len() - i,
        {
            let value_copy = entries[i].1.clone();
            match decode_record(&value_copy) {
                Some(rec) => {
                    if bytes_eq(&rec.hardware_address, address) {
                        proof {
                            let k = entries@[i as int].0@;
                            assert(entries@[i as int].1@ == value_copy@);
                            assert(map_rec(m, k) == Some(rec@));
                            assert(hw_match(m, k, address@));
                            assert forall|k2: Seq<u8>| lex_lt(k2, k) implies !(
                            #[trigger] hw_match(m, k2, address@)) by {
                                if hw_match(m, k2, address@) {
                                    assert(m.contains_key(k2));
                                    let t = choose|t: int|
                                        0 <= t < entries@.len() && (#[trigger] entries@[t].0@)
                                            == k2;
                                    if t < i {
                                        assert(!hw_match(m, entries@[t].0@, address@));
                                    } else if t == i {
                                        lemma_lex_irrefl(k);
                                    } else {
                                        assert(lex_lt(entries@[i as int].0@, entries@[t].0@));
                                        lemma_lex_asym(k2, k);
                                    }
                                }
                            }
                        }
                        return Ok(rec);
                    }
                },
                None => {},
            }
            proof {
                assert(entries@[i as int].1@ == value_copy@);
                assert(!hw_match(m, entries@[i as int].0@, address@));
            }
            i = i + 1;
        }
        proof {
            assert forall|k: Seq<u8>| !(#[trigger] hw_match(m, k, address@)) by {
                if hw_match(m, k, address@) {
                    assert(m.contains_key(k));
                    let t = choose|t: int|
                        0 <= t < entries@.len() && (#[trigger] entries@[t].0@) == k;
                    assert(!hw_match(m, entries@[t].0@, address@));
                }
            }
        }
        Err(DhcpError::NotFound)
    }

    /// Every decodable record in the table, each from its own key;
    /// entries whose value does not decode are skipped.  Order is
    /// unspecified.
    pub fn all(&self) -> (r: Result<Vec<Leases4Record>, DhcpError>)
        ensures
            match r {
                Ok(rs) => lease_list_matches(tree_map(*self), rs@),
                Err(e) => e == DhcpError::Store,
            },
    {
        let ghost m = tree_map(*self);
        let entries = match tree_entries(self) {
            Ok(es) => es,
            Err(e) => {
                return Err(DhcpError::Store);
            },
        };
        let mut out: Vec<Leases4Record> = Vec::new();
        let ghost mut keys: Seq<Seq<u8>> = Seq::empty();
        let ghost mut srcs: Seq<int> = Seq::empty();
        let mut i: usize = 0;
        while i < entries.len()
            invariant
                i <= entries@.len(),
                m == tree_map(*self),
                forall|t: int|
                    0 <= t < entries@.len() ==> m.contains_key(#[trigger] entries@[t].0@)
                        && m[entries@[t].0@] == entries@[t].1@,
                forall|t: int, u: int|
                    0 <= t < u < entries@.len() ==> lex_lt(entries@[t].0@, entries@[u].0@),
                keys.len() == out@.len(),
                srcs.len() == out@.len(),
                forall|j: int| 0 <= j < srcs.len() ==> 0 <= #[trigger] srcs[j] < i,
                forall|j1: int, j2: int| 0 <= j1 < j2 < srcs.len() ==> srcs[j1] < srcs[j2],
                forall|j: int| 0 <= j < keys.len() ==> #[trigger] keys[j] == entries@[srcs[j]].0@,
                forall|j: int|
                    0 <= j < out@.len() ==> map_rec(m, #[trigger] keys[j]) == Some(out@[j]@),
                forall|t: int|
                    0 <= t < i && spec_decode_record(#[trigger] entries@[t].1@) is Some
                        ==> exists|j: int|
                        0 <= j < out@.len() && (#[trigger] out@[j])@ == spec_decode_record(
                            entries@[t].1@,
                        ).unwrap(),
            decreases entries@.len() - i,
        {
            let value_copy = entries[i].1.clone();
            let ghost old_out = out@;
            match decode_record(&value_copy) {
                Some(rec) => {
                    proof {
                        let k = entries@[i as int].0@;
                        assert(entries@[i as int].1@ == value_copy@);
                        assert(map_rec(m, k) == Some(rec@));
                        keys = keys.push(k);
                        srcs = srcs.push(i as int);
                    }
                    out.push(rec);
                    proof {
                        assert forall|t: int|
                            0 <= t < i + 1 && spec_decode_record(#[trigger] entries@[t].1@)
                                is Some implies exists|j: int|
                            0 <= j < out@.len() && (#[trigger] out@[j])@ == spec_decode_record(
                                entries@[t].1@,
                            ).unwrap() by {
                            if t == i {
                                assert(out@[out@.len() - 1]@ == spec_decode_record(
                                    entries@[t].1@,
                                ).unwrap());
                            } else {
                                let j = choose|j: int|
                                    0 <= j < old_out.len() && (#[trigger] old_out[j])@
                                        == spec_decode_record(entries@[t].1@).unwrap();
                                assert(out@[j]@ == spec_decode_record(entries@[t].1@).unwrap());
                            }
                        }
                    }
                },
                None => {
                    proof {
                        assert(entries@[i as int].1@ == value_copy@);
                        assert(spec_decode_record(entries@[i as int].1@) is None);
                    }
                },
            }
            i = i + 1;
        }
        proof {
            assert forall|j1: int, j2: int| 0 <= j1 < j2 < keys.len() implies keys[j1]
                != keys[j2] by {
                assert(lex_lt(entries@[srcs[j1]].0@, entries@[srcs[j2]].0@));
                if keys[j1] == keys[j2] {
                    lemma_lex_irrefl(keys[j1]);
                }
            }
            assert(lease_list_keys(m, out@, keys));
            lemma_all_complete(m, entries@, out@);
            assert(lease_list_matches(m, out@));
        }
        Ok(out)
    }

    /// Picks the address to offer this hardware address.
    ///
    /// A device re-acquires the address of its stored record, live or
    /// expired, if it has one; otherwise the scan walks the range
    /// from `lo` upward and selects the first address outside the
    /// caller's reserved set whose slot is free.
    pub fn suggest(
        &self,
        hw_address: &Vec<u8>,
        lo: u32,
        hi: u32,
        reserved: &Vec<u32>,
        now: u64,
    ) -> (r: Result<u32, DhcpError>)
        ensures
            match r {
                Ok(ip) => offered_ip_ok(
                    tree_map(*self),
                    hw_address@,
                    lo,
                    hi,
                    reserved@.to_set(),
                    now,
                    ip,
                ),
                Err(e) => (e == DhcpError::NoFreeAddress && no_ip_available(
                    tree_map(*self),
                    hw_address@,
                    lo,
                    hi,
                    reserved@.to_set(),
                    now,
                )) || e == DhcpError::Store,
            },
    {
        let ghost m = tree_map(*self);
        match self.get_by_hw(hw_address) {
            Ok(rec) => {
                return Ok(rec.ip_addr);
            },
            Err(e) => {
                if e == DhcpError::Store {
                    return Err(DhcpError::Store);
                }
            },
        }
        if lo > hi {
            return Err(DhcpError::NoFreeAddress);
        }
        let mut a = lo;
        loop
            invariant
                lo <= a <= hi,
                m == tree_map(*self),
                forall|k: Seq<u8>| !(#[trigger] hw_match(m, k, hw_address@)),
                forall|x: u32| lo <= x < a ==> !candidate(m, x, lo, hi, reserved@.to_set(), now),
            decreases hi - a,
        {
            if !crate::bytes::contains_u32(reserved, a) {
                match self.get_by_ip(a) {
                    Ok(rec) => {
                        if rec.is_expired(now) {
                            return Ok(a);
                        }
                    },
                    Err(e) => {
                        if e == DhcpError::Store {
                            return Err(DhcpError::Store);
                        }
                        return Ok(a);
                    },
                }
            }
            if a == hi {
                return Err(DhcpError::NoFreeAddress);
            }
            a = a + 1;
        }
    }

    /// Writes the record for an address, replacing whatever the slot
    /// held, and returns the written record.
    pub fn acquire(&mut self, hw_addr: Vec<u8>, ip_addr: u32, ttl: u64) -> (r: Result<
        Leases4Record,
        DhcpError,
    >)
        requires
            hw_addr@.len() <= 255,
        ensures
            match r {
                Ok(rec) => {
                    &&& rec@ == (SpecLeaseRecord { hardware_address: hw_addr@, ip_addr, ttl })
                    &&& tree_map(*final(self)) == tree_map(*old(self)).insert(
                        spec_key(ip_addr),
                        spec_encode_record(rec@),
                    )
                },
                Err(e) => e == DhcpError::Store,
            },
    {
        let record = Leases4Record { hardware_address: hw_addr, ip_addr, ttl };
        let data = encode_record(&record);
        let key = Self::generate_key(ip_addr);
        match tree_insert(self, key, data) {
            Ok(_) => Ok(record),
            Err(e) => Err(DhcpError::Store),
        }
    }
}

/// Stickiness: when the table holds any record for a hardware
/// address, the scan yields that device's stored address (the one
/// under the first matching key), whatever the reserved set holds.
pub proof fn lemma_suggest_sticky(
    m: Map<Seq<u8>, Seq<u8>>,
    hw: Seq<u8>,
    lo: u32,
    hi: u32,
    reserved: Set<u32>,
    now: u64,
    ip: u32,
    k: Seq<u8>,
)
    requires
        hw_match(m, k, hw),
        forall|k2: Seq<u8>| lex_lt(k2, k) ==> !(#[trigger] hw_match(m, k2, hw)),
        offered_ip_ok(m, hw, lo, hi, reserved, now, ip),
    ensures
        ip == map_rec(m, k).unwrap().ip_addr,
{
    let k1 = choose|k1: Seq<u8>|
        {
            &&& #[trigger] hw_match(m, k1, hw)
            &&& map_rec(m, k1).unwrap().ip_addr == ip
            &&& forall|k2: Seq<u8>| lex_lt(k2, k1) ==> !(#[trigger] hw_match(m, k2, hw))
        };
    lemma_lex_trichotomy(k1, k);
}

/// Range containment: an address allocated dynamically (no stored
/// record for the hardware address) lies inside `[lo, hi]` and is
/// not one of the reserved in-flight offers.
pub proof fn lemma_suggest_in_range(
    m: Map<Seq<u8>, Seq<u8>>,
    hw: Seq<u8>,
    lo: u32,
    hi: u32,
    reserved: Set<u32>,
    now: u64,
    ip: u32,
)
    requires
        forall|k: Seq<u8>| !(#[trigger] hw_match(m, k, hw)),
        offered_ip_ok(m, hw, lo, hi, reserved, now, ip),
    ensures
        lo <= ip <= hi,
        !reserved.contains(ip),
        m_free(m, ip, now),
{
}

/// Expiry reuse: once the record under an in-range address has
/// lapsed, the scan for a hardware address with no record of its own
/// cannot fail, and yields exactly that address when every lower
/// address of the range is reserved or still held.
pub proof fn lemma_expired_slot_reusable(
    m: Map<Seq<u8>, Seq<u8>>,
    hw: Seq<u8>,
    lo: u32,
    hi: u32,
    reserved: Set<u32>,
    now: u64,
    a: u32,
)
    requires
        forall|k: Seq<u8>| !(#[trigger] hw_match(m, k, hw)),
        lo <= a <= hi,
        !reserved.contains(a),
        map_rec(m, spec_key(a)) is Some,
        map_rec(m, spec_key(a)).unwrap().ttl <= now,
    ensures
        !no_ip_available(m, hw, lo, hi, reserved, now),
        (forall|b: u32| lo <= b < a ==> !candidate(m, b, lo, hi, reserved, now)) ==> forall|
            ip: u32,
        |
            offered_ip_ok(m, hw, lo, hi, reserved, now, ip) ==> ip == a,
{
    assert(candidate(m, a, lo, hi, reserved, now));
    if forall|b: u32| lo <= b < a ==> !candidate(m, b, lo, hi, reserved, now) {
        assert forall|ip: u32| offered_ip_ok(m, hw, lo, hi, reserved, now, ip) implies ip
            == a by {
            if ip < a {
                assert(!candidate(m, ip, lo, hi, reserved, now));
            } else if ip > a {
                assert(!candidate(m, a, lo, hi, reserved, now));
            }
        }
    }
}

pub proof fn lemma_lex_trichotomy(a: Seq<u8>, b: Seq<u8>)
    ensures
        a == b || lex_lt(a, b) || lex_lt(b, a),
    decreases a.len(),
{
    if a.len() == 0 && b.len() == 0 {
        assert(a =~= b);
    } else if a.len() > 0 && b.len() > 0 && a[0] == b[0] {
        lemma_lex_trichotomy(a.drop_first(), b.drop_first());
        if a.drop_first() == b.drop_first() {
            assert(a =~= b) by {
                assert(a.drop_first().len() == a.len() - 1);
                assert(b.drop_first().len() == b.len() - 1);
                assert(a.len() == b.len());
                assert forall|i: int| 0 <= i < a.len() implies a[i] == b[i] by {
                    if i > 0 {
                        assert(a[i] == a.drop_first()[i - 1]);
                        assert(b[i] == b.drop_first()[i - 1]);
                    }
                }
            }
        }
    }
}

} // verus!
