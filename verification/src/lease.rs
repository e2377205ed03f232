//! The allocator: given the configuration, the lease table and the
//! transaction registry, decides which address a DISCOVER is offered
//! and which address a REQUEST is acknowledged, and applies the
//! protocol's side effects (recording the offer, writing the lease).
//!
//! Static reservations take priority and never consume a range slot;
//! dynamic addresses come from the table's allocation scan, which is
//! shielded from the registry's in-flight offers and from every
//! reservation's pinned address.

use vstd::prelude::*;

use crate::bytes::{copy_bytes, copy_words};

use crate::conf::{append_fixed_addresses, find_host, fixed_seq, fixed_set, lemma_fixed_seq_set,
    spec_find_host, wf_config, Dhcp4Config, SpecDhcp4Config, SpecSubnetConfig};
use crate::store::{
    hw_match, no_ip_available, offered_ip_ok, spec_encode_record, spec_key, tree_map, Leases4Tree,
    SpecLeaseRecord,
};
use crate::transactions::{
    offered_set, spec_find_txn, spec_offered, txn_active, Transaction, Transactions,
};
use crate::DhcpError;

verus! {

/// What both reply builders copy out of the subnet beside the
/// assigned address.
pub struct LeasedResponse {
    pub hardware_address: Vec<u8>,
    pub ip_addr: u32,
    pub broadcast_address: u32,
    pub subnet_mask: u32,
    pub routers: Vec<u32>,
    pub domain_name_servers: Vec<u32>,
    pub address_lease_time: u32,
}

/// The response carries the client's hardware address, the assigned
/// address, and the subnet's option values unchanged.
pub open spec fn response_matches(
    resp: LeasedResponse,
    sn: SpecSubnetConfig,
    hw: Seq<u8>,
    ip: u32,
) -> bool {
    &&& resp.hardware_address@ == hw
    &&& resp.ip_addr == ip
    &&& resp.broadcast_address == sn.broadcast_address
    &&& resp.subnet_mask == sn.netmask
    &&& resp.routers@ == sn.routers
    &&& resp.domain_name_servers@ == sn.domain_name_servers
    &&& resp.address_lease_time == sn.address_lease_time
}

/// The addresses the dynamic scan must not select: the registry's
/// live offers, and every reservation's fixed address — a pinned
/// address is never handed out dynamically, even inside the range.
pub open spec fn dyn_reserved(cfg: SpecDhcp4Config, txns: Seq<Transaction>, now: u64) -> Set<
    u32,
> {
    offered_set(txns, now).union(fixed_set(cfg.hosts))
}

/// Membership in a concatenation is membership in either part.
proof fn lemma_concat_contains(a: Seq<u32>, b: Seq<u32>)
    ensures
        forall|x: u32| #[trigger] (a + b).contains(x) <==> a.contains(x) || b.contains(x),
{
    assert forall|x: u32| #[trigger] (a + b).contains(x) implies a.contains(x) || b.contains(
        x,
    ) by {
        let i = choose|i: int| 0 <= i < (a + b).len() && (a + b)[i] == x;
        if i < a.len() {
            assert(a[i] == x);
        } else {
            assert(b[i - a.len()] == x);
        }
    }
    assert forall|x: u32| a.contains(x) || b.contains(x) implies #[trigger] (a + b).contains(
        x,
    ) by {
        if a.contains(x) {
            let i = choose|i: int| 0 <= i < a.len() && a[i] == x;
            assert((a + b)[i] == x);
        } else {
            let i = choose|i: int| 0 <= i < b.len() && b[i] == x;
            assert((a + b)[a.len() + i] == x);
        }
    }
}

/// The address a DISCOVER is offered: the reservation's fixed address
/// when one matches, else what the allocation scan owes against the
/// registry's live offers and the pinned fixed addresses.
pub open spec fn offer_assigned(
    cfg: SpecDhcp4Config,
    m: Map<Seq<u8>, Seq<u8>>,
    txns: Seq<Transaction>,
    hw: Seq<u8>,
    now: u64,
    ip: u32,
) -> bool {
    match spec_find_host(cfg.hosts, hw) {
        Some(fixed) => ip == fixed,
        None => offered_ip_ok(
            m,
            hw,
            cfg.subnets[0].range_lo,
            cfg.subnets[0].range_hi,
            dyn_reserved(cfg, txns, now),
            now,
            ip,
        ),
    }
}

/// The address a REQUEST is acknowledged: the reservation's fixed
/// address when one matches; else the address recorded under the
/// transaction id, when the registry holds one; else what a fresh
/// allocation scan owes against the live offers and the pinned fixed
/// addresses.
pub open spec fn ack_assigned(
    cfg: SpecDhcp4Config,
    m: Map<Seq<u8>, Seq<u8>>,
    txns: Seq<Transaction>,
    hw: Seq<u8>,
    xid: u32,
    now: u64,
    ip: u32,
) -> bool {
    match spec_find_host(cfg.hosts, hw) {
        Some(fixed) => ip == fixed,
        None => match spec_find_txn(txns, xid) {
            Some(t) => ip == t.offered_ipv4_addr,
            None => offered_ip_ok(
                m,
                hw,
                cfg.subnets[0].range_lo,
                cfg.subnets[0].range_hi,
                dyn_reserved(cfg, txns, now),
                now,
                ip,
            ),
        },
    }
}

/// One client's wish for an address: its transaction id and hardware
/// address, as taken from the request frame.
pub struct LeaseRequest {
    xid: u32,
    hardware_address: Vec<u8>,
}

impl LeaseRequest {
    /// The transaction id this wish arrived under.
    pub closed spec fn spec_xid(self) -> u32 {
        self.xid
    }

    /// The client hardware address asking.
    pub closed spec fn spec_hw(self) -> Seq<u8> {
        self.hardware_address@
    }

    pub fn new(xid: u32, hardware_address: Vec<u8>) -> (r: LeaseRequest)
        ensures
            r.spec_xid() == xid,
            r.spec_hw() == hardware_address@,
    {
        LeaseRequest { xid, hardware_address }
    }

    /// Decides the OFFER for a DISCOVER and records it in the
    /// registry.  No lease record is written at OFFER time: the
    /// registry alone guards the address until the REQUEST lands or
    /// the offer lapses.
    pub fn offer(
        self,
        config: &Dhcp4Config,
        tree: &Leases4Tree,
        transactions: &mut Transactions,
        now: u64,
    ) -> (r: Result<LeasedResponse, DhcpError>)
        requires
            wf_config(config@),
            old(transactions).wf(),
        ensures
            final(transactions).wf(),
            spec_find_host(config@.hosts, self.spec_hw()) is Some ==> r is Ok,
            match r {
                Ok(resp) => {
                    &&& offer_assigned(
                        config@,
                        tree_map(*tree),
                        old(transactions).model(),
                        self.spec_hw(),
                        now,
                        resp.ip_addr,
                    )
                    &&& response_matches(resp, config@.subnets[0], self.spec_hw(), resp.ip_addr)
                    &&& if spec_find_host(config@.hosts, self.spec_hw()) is Some {
                        final(transactions).model() == old(transactions).model()
                    } else {
                        spec_find_txn(final(transactions).model(), self.spec_xid()) == Some(
                            Transaction {
                                xid: self.spec_xid(),
                                offered_ipv4_addr: resp.ip_addr,
                                created_at: now,
                            },
                        ) && forall|x: u32|
                            x != self.spec_xid() ==> #[trigger] spec_find_txn(
                                final(transactions).model(),
                                x,
                            ) == spec_find_txn(old(transactions).model(), x)
                    }
                },
                Err(e) => {
                    &&& final(transactions).model() == old(transactions).model()
                    &&& (e == DhcpError::Store || (e == DhcpError::NoFreeAddress
                        && spec_find_host(config@.hosts, self.spec_hw()) is None
                        && no_ip_available(
                        tree_map(*tree),
                        self.spec_hw(),
                        config@.subnets[0].range_lo,
                        config@.subnets[0].range_hi,
                        dyn_reserved(config@, old(transactions).model(), now),
                        now,
                    )))
                },
            },
    {
        let subnet = &config.subnets[0];
        proof {
            assert(config@.subnets[0] == config.subnets@[0]@);
        }
        let ip = match find_host(&config.hosts, &self.hardware_address) {
            Some(fixed) => fixed,
            None => {
                let mut reserved = transactions.offered_ipv4_addresses(now);
                let ghost offered = reserved@;
                append_fixed_addresses(&mut reserved, &config.hosts);
                proof {
                    lemma_concat_contains(offered, fixed_seq(config@.hosts));
                    lemma_fixed_seq_set(config@.hosts);
                    assert(reserved@.to_set() =~= dyn_reserved(
                        config@,
                        old(transactions).model(),
                        now,
                    ));
                }
                let ip = match tree.suggest(
                    &self.hardware_address,
                    subnet.range.0,
                    subnet.range.1,
                    &reserved,
                    now,
                ) {
                    Ok(ip) => ip,
                    Err(e) => {
                        return Err(e);
                    },
                };
                transactions.new_transaction(self.xid, ip, now);
                ip
            },
        };
        Ok(
            LeasedResponse {
                hardware_address: self.hardware_address,
                ip_addr: ip,
                broadcast_address: subnet.broadcast_address,
                subnet_mask: subnet.netmask,
                routers: copy_words(&subnet.routers),
                domain_name_servers: copy_words(&subnet.domain_name_servers),
                address_lease_time: subnet.address_lease_time,
            },
        )
    }

    /// Decides the ACK for a REQUEST and writes the durable lease
    /// record, consuming the recorded offer if one is present.
    pub fn ack(
        self,
        config: &Dhcp4Config,
        tree: &mut Leases4Tree,
        transactions: &mut Transactions,
        now: u64,
    ) -> (r: Result<LeasedResponse, DhcpError>)
        requires
            wf_config(config@),
            old(transactions).wf(),
            self.spec_hw().len() <= 255,
            now + config@.subnets[0].address_lease_time <= u64::MAX,
        ensures
            final(transactions).wf(),
            match r {
                Ok(resp) => {
                    &&& ack_assigned(
                        config@,
                        tree_map(*old(tree)),
                        old(transactions).model(),
                        self.spec_hw(),
                        self.spec_xid(),
                        now,
                        resp.ip_addr,
                    )
                    &&& response_matches(resp, config@.subnets[0], self.spec_hw(), resp.ip_addr)
                    &&& tree_map(*final(tree)) == tree_map(*old(tree)).insert(
                        spec_key(resp.ip_addr),
                        spec_encode_record(
                            SpecLeaseRecord {
                                hardware_address: self.spec_hw(),
                                ip_addr: resp.ip_addr,
                                ttl: (now + config@.subnets[0].address_lease_time) as u64,
                            },
                        ),
                    )
                    &&& if spec_find_host(config@.hosts, self.spec_hw()) is Some {
                        final(transactions).model() == old(transactions).model()
                    } else {
                        spec_find_txn(final(transactions).model(), self.spec_xid()) is None
                            && forall|x: u32|
                            x != self.spec_xid() ==> #[trigger] spec_find_txn(
                                final(transactions).model(),
                                x,
                            ) == spec_find_txn(old(transactions).model(), x)
                    }
                },
                Err(e) => e == DhcpError::Store || (e == DhcpError::NoFreeAddress
                    && spec_find_host(config@.hosts, self.spec_hw()) is None && spec_find_txn(
                    old(transactions).model(),
                    self.spec_xid(),
                ) is None && final(transactions).model() == old(transactions).model()
                    && tree_map(*final(tree)) == tree_map(*old(tree)) && no_ip_available(
                    tree_map(*old(tree)),
                    self.spec_hw(),
                    config@.subnets[0].range_lo,
                    config@.subnets[0].range_hi,
                    dyn_reserved(config@, old(transactions).model(), now),
                    now,
                )),
            },
    {
        let subnet = &config.subnets[0];
        proof {
            assert(config@.subnets[0] == config.subnets@[0]@);
        }
        let ip = match find_host(&config.hosts, &self.hardware_address) {
            Some(fixed) => fixed,
            None => match transactions.remove(self.xid) {
                Some(t) => t.offered_ipv4_addr,
                None => {
                    let mut reserved = transactions.offered_ipv4_addresses(now);
                    let ghost offered = reserved@;
                    append_fixed_addresses(&mut reserved, &config.hosts);
                    proof {
                        lemma_concat_contains(offered, fixed_seq(config@.hosts));
                        lemma_fixed_seq_set(config@.hosts);
                        assert(reserved@.to_set() =~= dyn_reserved(
                            config@,
                            old(transactions).model(),
                            now,
                        ));
                    }
                    match tree.suggest(
                        &self.hardware_address,
                        subnet.range.0,
                        subnet.range.1,
                        &reserved,
                        now,
                    ) {
                        Ok(ip) => ip,
                        Err(e) => {
                            return Err(e);
                        },
                    }
                },
            },
        };
        let ttl = now + (subnet.address_lease_time as u64);
        let hw = copy_bytes(&self.hardware_address);
        match tree.acquire(hw, ip, ttl) {
            Ok(_) => Ok(
                LeasedResponse {
                    hardware_address: self.hardware_address,
                    ip_addr: ip,
                    broadcast_address: subnet.broadcast_address,
                    subnet_mask: subnet.netmask,
                    routers: copy_words(&subnet.routers),
                    domain_name_servers: copy_words(&subnet.domain_name_servers),
                    address_lease_time: subnet.address_lease_time,
                },
            ),
            Err(e) => Err(e),
        }
    }
}

/// Static priority: whatever the lease table and the registry hold, a
/// DISCOVER from a hardware address with a reservation is offered the
/// reserved address.
pub proof fn lemma_static_priority_offer(
    cfg: SpecDhcp4Config,
    m: Map<Seq<u8>, Seq<u8>>,
    txns: Seq<Transaction>,
    hw: Seq<u8>,
    now: u64,
    ip: u32,
    fixed: u32,
)
    requires
        spec_find_host(cfg.hosts, hw) == Some(fixed),
        offer_assigned(cfg, m, txns, hw, now, ip),
    ensures
        ip == fixed,
{
}

/// Static priority: whatever the lease table and the registry hold, a
/// REQUEST from a hardware address with a reservation is acknowledged
/// the reserved address.
pub proof fn lemma_static_priority_ack(
    cfg: SpecDhcp4Config,
    m: Map<Seq<u8>, Seq<u8>>,
    txns: Seq<Transaction>,
    hw: Seq<u8>,
    xid: u32,
    now: u64,
    ip: u32,
    fixed: u32,
)
    requires
        spec_find_host(cfg.hosts, hw) == Some(fixed),
        ack_assigned(cfg, m, txns, hw, xid, now, ip),
    ensures
        ip == fixed,
{
}

/// No double offer: while the registry holds a live offer of `a1`,
/// a DISCOVER from an unknown, unreserved hardware address is offered
/// some other address.
pub proof fn lemma_no_double_offer(
    cfg: SpecDhcp4Config,
    m: Map<Seq<u8>, Seq<u8>>,
    txns: Seq<Transaction>,
    hw2: Seq<u8>,
    x1: u32,
    now: u64,
    a1: u32,
    a2: u32,
)
    requires
        spec_find_txn(txns, x1) == Some(
            Transaction { xid: x1, offered_ipv4_addr: a1, created_at: now },
        ),
        spec_find_host(cfg.hosts, hw2) is None,
        forall|k: Seq<u8>| !(#[trigger] hw_match(m, k, hw2)),
        offer_assigned(cfg, m, txns, hw2, now, a2),
    ensures
        a1 != a2,
{
    crate::transactions::lemma_find_txn_is_entry(txns, x1);
    let i = choose|i: int| 0 <= i < txns.len() && txns[i] == spec_find_txn(txns, x1).unwrap();
    assert(txn_active(txns[i], now));
    assert(spec_offered(txns, a1, now));
    assert(dyn_reserved(cfg, txns, now).contains(a1));
    crate::store::lemma_suggest_in_range(
        m,
        hw2,
        cfg.subnets[0].range_lo,
        cfg.subnets[0].range_hi,
        dyn_reserved(cfg, txns, now),
        now,
        a2,
    );
}

/// Reservation exclusion: the dynamic scan never hands out a
/// configured reservation's fixed address, even one inside the range.
/// (A device's own stored record decides before the scan, so the
/// statement is for hardware addresses without a record.)
pub proof fn lemma_reservation_excluded_offer(
    cfg: SpecDhcp4Config,
    m: Map<Seq<u8>, Seq<u8>>,
    txns: Seq<Transaction>,
    hw: Seq<u8>,
    now: u64,
    ip: u32,
    h: int,
)
    requires
        spec_find_host(cfg.hosts, hw) is None,
        forall|k: Seq<u8>| !(#[trigger] hw_match(m, k, hw)),
        offer_assigned(cfg, m, txns, hw, now, ip),
        0 <= h < cfg.hosts.len(),
    ensures
        ip != cfg.hosts[h].fixed_address,
{
    assert(fixed_set(cfg.hosts).contains(cfg.hosts[h].fixed_address));
    crate::store::lemma_suggest_in_range(
        m,
        hw,
        cfg.subnets[0].range_lo,
        cfg.subnets[0].range_hi,
        dyn_reserved(cfg, txns, now),
        now,
        ip,
    );
}

/// Reservation exclusion on the acknowledgement path: with no
/// reservation and no recorded offer for the transaction id, the
/// fresh scan never hands out a reservation's fixed address.
pub proof fn lemma_reservation_excluded_ack(
    cfg: SpecDhcp4Config,
    m: Map<Seq<u8>, Seq<u8>>,
    txns: Seq<Transaction>,
    hw: Seq<u8>,
    xid: u32,
    now: u64,
    ip: u32,
    h: int,
)
    requires
        spec_find_host(cfg.hosts, hw) is None,
        spec_find_txn(txns, xid) is None,
        forall|k: Seq<u8>| !(#[trigger] hw_match(m, k, hw)),
        ack_assigned(cfg, m, txns, hw, xid, now, ip),
        0 <= h < cfg.hosts.len(),
    ensures
        ip != cfg.hosts[h].fixed_address,
{
    assert(fixed_set(cfg.hosts).contains(cfg.hosts[h].fixed_address));
    crate::store::lemma_suggest_in_range(
        m,
        hw,
        cfg.subnets[0].range_lo,
        cfg.subnets[0].range_hi,
        dyn_reserved(cfg, txns, now),
        now,
        ip,
    );
}

/// OFFER then ACK: a REQUEST whose transaction id the registry still
/// holds is acknowledged exactly the address that was offered under
/// it; the written lease record is stated by the acknowledgement's
/// own contract.
pub proof fn lemma_offer_then_ack(
    cfg: SpecDhcp4Config,
    m: Map<Seq<u8>, Seq<u8>>,
    txns: Seq<Transaction>,
    hw: Seq<u8>,
    xid: u32,
    created: u64,
    now: u64,
    a: u32,
    ip: u32,
)
    requires
        spec_find_host(cfg.hosts, hw) is None,
        spec_find_txn(txns, xid) == Some(
            Transaction { xid, offered_ipv4_addr: a, created_at: created },
        ),
        ack_assigned(cfg, m, txns, hw, xid, now, ip),
    ensures
        ip == a,
{
}

} // verus!
