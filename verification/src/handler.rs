//! The DISCOVER and REQUEST handlers, the reply builders, the reply
//! destination policy, and the per-datagram entry point that ties
//! decode, dispatch and encode together.

use vstd::prelude::*;

use crate::bytes::copy_range;
use crate::conf::{spec_find_host, wf_config, wf_subnet, Dhcp4Config, Dhcp4SubnetConfig, OmoiConfig,
    SpecSubnetConfig};
use crate::lease::{ack_assigned, dyn_reserved, offer_assigned, LeaseRequest};
use crate::options::{DhcpOption, DhcpOptions, SpecDhcpOption};
use crate::protocol::{
    decode, encode, spec_decode_msg, spec_encode_msg, spec_msg_type, DhcpMessageFileField,
    DhcpMessageFormat, DhcpMessageSnameField, SpecDhcpMessage, MSG_TYPE_ACK, MSG_TYPE_DISCOVER,
    MSG_TYPE_NAK, MSG_TYPE_OFFER, MSG_TYPE_REQUEST, OP_BOOT_REPLY,
};
use crate::store::{no_ip_available, spec_encode_record, spec_key, tree_map, Leases4Tree,
    SpecLeaseRecord};
use crate::transactions::{spec_find_txn, Transaction, Transactions};
use crate::DhcpError;

verus! {

/// Where a reply is sent.  Only the limited-broadcast path
/// (`255.255.255.255`, client port) is served; renewing clients and
/// relay agents are deferred behind a typed error.
#[derive(Clone, Copy, Debug, PartialEq, Eq, Structural)]
pub enum ReplyDest {
    LimitedBroadcast,
}

/// The destination policy: a reply goes to the limited broadcast
/// exactly when the request came directly from an unconfigured
/// client, that is with zero `giaddr` and zero `ciaddr`.
pub fn reply_destination(giaddr: u32, ciaddr: u32) -> (r: Result<ReplyDest, DhcpError>)
    ensures
        match r {
            Ok(d) => giaddr == 0 && ciaddr == 0 && d == ReplyDest::LimitedBroadcast,
            Err(e) => e == DhcpError::Unsupported && !(giaddr == 0 && ciaddr == 0),
        },
{
    if giaddr == 0 && ciaddr == 0 {
        Ok(ReplyDest::LimitedBroadcast)
    } else {
        Err(DhcpError::Unsupported)
    }
}

/// All-zero filler of the given length.
pub open spec fn zeros(n: nat) -> Seq<u8> {
    Seq::new(n, |i: int| 0u8)
}

fn zero_bytes(n: usize) -> (r: Vec<u8>)
    ensures
        r@ == zeros(n as nat),
{
    let mut out: Vec<u8> = Vec::new();
    let mut i: usize = 0;
    while i < n
        invariant
            i <= n,
            out@ == zeros(i as nat),
        decreases n - i,
    {
        out.push(0);
        i = i + 1;
        assert(out@ =~= zeros(i as nat));
    }
    out
}

/// The client hardware address of a message: the first `hlen` bytes
/// of `chaddr`, capped at the field's width.
pub open spec fn spec_hw_of(m: SpecDhcpMessage) -> Seq<u8> {
    m.chaddr.take(
        if m.hlen as int <= m.chaddr.len() as int {
            m.hlen as int
        } else {
            m.chaddr.len() as int
        },
    )
}

/// Extracts the client hardware address from a message.
pub fn hardware_address(m: &DhcpMessageFormat) -> (r: Vec<u8>)
    ensures
        r@ == spec_hw_of(m@),
{
    let n = if (m.hlen as usize) <= m.chaddr.len() {
        m.hlen as usize
    } else {
        m.chaddr.len()
    };
    let r = copy_range(&m.chaddr, 0, n);
    assert(m.chaddr@.subrange(0, n as int) =~= spec_hw_of(m@));
    r
}

/// The option list every OFFER and ACK carries, in this order.
pub open spec fn spec_reply_options(mt: u8, sn: SpecSubnetConfig) -> Seq<SpecDhcpOption> {
    seq![
        SpecDhcpOption::MessageType(mt),
        SpecDhcpOption::SubnetMask(sn.netmask),
        SpecDhcpOption::BroadcastAddress(sn.broadcast_address),
        SpecDhcpOption::Router(sn.routers),
        SpecDhcpOption::DomainNameServer(sn.domain_name_servers),
        SpecDhcpOption::AddressLeaseTime(sn.address_lease_time),
        SpecDhcpOption::End,
    ]
}

/// The reply frame for an OFFER or ACK: a BOOTP reply that echoes the
/// request's `htype`, `hlen`, `xid`, `flags`, `giaddr` and `chaddr`,
/// zeroes `hops`, `secs`, `ciaddr` and `siaddr`, assigns `yiaddr`,
/// and carries the subnet's option values.
pub open spec fn spec_reply(
    req: SpecDhcpMessage,
    mt: u8,
    sn: SpecSubnetConfig,
    yiaddr: u32,
) -> SpecDhcpMessage {
    SpecDhcpMessage {
        op: OP_BOOT_REPLY,
        htype: req.htype,
        hlen: req.hlen,
        hops: 0,
        xid: req.xid,
        secs: 0,
        flags: req.flags,
        ciaddr: 0,
        yiaddr,
        siaddr: 0,
        giaddr: req.giaddr,
        chaddr: req.chaddr,
        sname: zeros(64),
        file: zeros(128),
        options: spec_reply_options(mt, sn),
    }
}

/// The NAK frame: zero `yiaddr`, the request's `xid`, `flags`,
/// `giaddr` and `chaddr` preserved, and only the message type on the
/// option list.
pub open spec fn spec_nak(req: SpecDhcpMessage) -> SpecDhcpMessage {
    SpecDhcpMessage {
        op: OP_BOOT_REPLY,
        htype: req.htype,
        hlen: req.hlen,
        hops: 0,
        xid: req.xid,
        secs: 0,
        flags: req.flags,
        ciaddr: 0,
        yiaddr: 0,
        siaddr: 0,
        giaddr: req.giaddr,
        chaddr: req.chaddr,
        sname: zeros(64),
        file: zeros(128),
        options: seq![SpecDhcpOption::MessageType(MSG_TYPE_NAK), SpecDhcpOption::End],
    }
}

/// Builds the OFFER or ACK frame for a request.
fn build_reply(req: &DhcpMessageFormat, mt: u8, subnet: &Dhcp4SubnetConfig, yiaddr: u32) -> (r:
    DhcpMessageFormat)
    ensures
        r@ == spec_reply(req@, mt, subnet@, yiaddr),
{
    let mut opts: Vec<DhcpOption> = Vec::new();
    opts.push(DhcpOption::MessageType(mt));
    opts.push(DhcpOption::SubnetMask(subnet.netmask));
    opts.push(DhcpOption::BroadcastAddress(subnet.broadcast_address));
    opts.push(DhcpOption::Router(crate::bytes::copy_words(&subnet.routers)));
    opts.push(DhcpOption::DomainNameServer(crate::bytes::copy_words(&subnet.domain_name_servers)));
    opts.push(DhcpOption::AddressLeaseTime(subnet.address_lease_time));
    opts.push(DhcpOption::End);
    let r = DhcpMessageFormat {
        op: OP_BOOT_REPLY,
        htype: req.htype,
        hlen: req.hlen,
        hops: 0,
        xid: req.xid,
        secs: 0,
        flags: req.flags,
        ciaddr: 0,
        yiaddr,
        siaddr: 0,
        giaddr: req.giaddr,
        chaddr: crate::bytes::copy_range(&req.chaddr, 0, req.chaddr.len()),
        sname: DhcpMessageSnameField(zero_bytes(64)),
        file: DhcpMessageFileField(zero_bytes(128)),
        options: DhcpOptions(opts),
    };
    proof {
        assert(req.chaddr@.subrange(0, req.chaddr@.len() as int) =~= req@.chaddr);
        assert(r@.options =~= spec_reply_options(mt, subnet@));
        assert(r@ =~= spec_reply(req@, mt, subnet@, yiaddr));
    }
    r
}

/// Builds the NAK frame for a request.
fn build_nak(req: &DhcpMessageFormat) -> (r: DhcpMessageFormat)
    ensures
        r@ == spec_nak(req@),
{
    let mut opts: Vec<DhcpOption> = Vec::new();
    opts.push(DhcpOption::MessageType(MSG_TYPE_NAK));
    opts.push(DhcpOption::End);
    let r = DhcpMessageFormat {
        op: OP_BOOT_REPLY,
        htype: req.htype,
        hlen: req.hlen,
        hops: 0,
        xid: req.xid,
        secs: 0,
        flags: req.flags,
        ciaddr: 0,
        yiaddr: 0,
        siaddr: 0,
        giaddr: req.giaddr,
        chaddr: crate::bytes::copy_range(&req.chaddr, 0, req.chaddr.len()),
        sname: DhcpMessageSnameField(zero_bytes(64)),
        file: DhcpMessageFileField(zero_bytes(128)),
        options: DhcpOptions(opts),
    };
    proof {
        assert(req.chaddr@.subrange(0, req.chaddr@.len() as int) =~= req@.chaddr);
        assert(r@.options =~= spec_nak(req@).options);
        assert(r@ =~= spec_nak(req@));
    }
    r
}

/// Serves DISCOVER messages.
pub struct DiscoverHandler;

impl DiscoverHandler {
    /// Decides the OFFER for a DISCOVER, records it in the registry,
    /// and builds the reply frame.  The lease table is read, never
    /// written.
    pub fn handle(
        &self,
        message: &DhcpMessageFormat,
        config: &Dhcp4Config,
        tree: &Leases4Tree,
        transactions: &mut Transactions,
        now: u64,
    ) -> (r: Result<DhcpMessageFormat, DhcpError>)
        requires
            wf_config(config@),
            old(transactions).wf(),
            spec_msg_type(message@.options) == Some(MSG_TYPE_DISCOVER),
        ensures
            final(transactions).wf(),
            spec_find_host(config@.hosts, spec_hw_of(message@)) is Some ==> r is Ok,
            match r {
                Ok(reply) => {
                    &&& reply@ == spec_reply(
                        message@,
                        MSG_TYPE_OFFER,
                        config@.subnets[0],
                        reply@.yiaddr,
                    )
                    &&& offer_assigned(
                        config@,
                        tree_map(*tree),
                        old(transactions).model(),
                        spec_hw_of(message@),
                        now,
                        reply@.yiaddr,
                    )
                    &&& if spec_find_host(config@.hosts, spec_hw_of(message@)) is Some {
                        final(transactions).model() == old(transactions).model()
                    } else {
                        spec_find_txn(final(transactions).model(), message@.xid) == Some(
                            Transaction {
                                xid: message@.xid,
                                offered_ipv4_addr: reply@.yiaddr,
                                created_at: now,
                            },
                        ) && forall|x: u32|
                            x != message@.xid ==> #[trigger] spec_find_txn(
                                final(transactions).model(),
                                x,
                            ) == spec_find_txn(old(transactions).model(), x)
                    }
                },
                Err(e) => {
                    &&& final(transactions).model() == old(transactions).model()
                    &&& (e == DhcpError::Store || (e == DhcpError::NoFreeAddress
                        && spec_find_host(config@.hosts, spec_hw_of(message@)) is None
                        && no_ip_available(
                        tree_map(*tree),
                        spec_hw_of(message@),
                        config@.subnets[0].range_lo,
                        config@.subnets[0].range_hi,
                        dyn_reserved(config@, old(transactions).model(), now),
                        now,
                    )))
                },
            },
    {
        let hw = hardware_address(message);
        let request = LeaseRequest::new(message.xid, hw);
        let offer = match request.offer(config, tree, transactions, now) {
            Ok(o) => o,
            Err(e) => {
                return Err(e);
            },
        };
        let subnet = &config.subnets[0];
        proof {
            assert(config@.subnets[0] == config.subnets@[0]@);
        }
        Ok(build_reply(message, MSG_TYPE_OFFER, subnet, offer.ip_addr))
    }
}

/// Serves REQUEST messages.
pub struct RequestHandler;

impl RequestHandler {
    /// Decides the ACK for a REQUEST, writes the durable lease
    /// record, and builds the reply frame; when the range is
    /// exhausted it builds a NAK instead, so the client fails fast.
    pub fn handle(
        &self,
        message: &DhcpMessageFormat,
        config: &Dhcp4Config,
        tree: &mut Leases4Tree,
        transactions: &mut Transactions,
        now: u64,
    ) -> (r: Result<DhcpMessageFormat, DhcpError>)
        requires
            wf_config(config@),
            old(transactions).wf(),
            spec_msg_type(message@.options) == Some(MSG_TYPE_REQUEST),
            spec_hw_of(message@).len() <= 255,
            now + config@.subnets[0].address_lease_time <= u64::MAX,
        ensures
            final(transactions).wf(),
            match r {
                Ok(reply) => {
                    ||| {
                        &&& reply@ == spec_reply(
                            message@,
                            MSG_TYPE_ACK,
                            config@.subnets[0],
                            reply@.yiaddr,
                        )
                        &&& ack_assigned(
                            config@,
                            tree_map(*old(tree)),
                            old(transactions).model(),
                            spec_hw_of(message@),
                            message@.xid,
                            now,
                            reply@.yiaddr,
                        )
                        &&& tree_map(*final(tree)) == tree_map(*old(tree)).insert(
                            spec_key(reply@.yiaddr),
                            spec_encode_record(
                                SpecLeaseRecord {
                                    hardware_address: spec_hw_of(message@),
                                    ip_addr: reply@.yiaddr,
                                    ttl: (now + config@.subnets[0].address_lease_time) as u64,
                                },
                            ),
                        )
                        &&& if spec_find_host(config@.hosts, spec_hw_of(message@)) is Some {
                            final(transactions).model() == old(transactions).model()
                        } else {
                            spec_find_txn(final(transactions).model(), message@.xid) is None
                                && forall|x: u32|
                                x != message@.xid ==> #[trigger] spec_find_txn(
                                    final(transactions).model(),
                                    x,
                                ) == spec_find_txn(old(transactions).model(), x)
                        }
                    }
                    ||| {
                        &&& reply@ == spec_nak(message@)
                        &&& spec_find_host(config@.hosts, spec_hw_of(message@)) is None
                        &&& spec_find_txn(old(transactions).model(), message@.xid) is None
                        &&& final(transactions).model() == old(transactions).model()
                        &&& tree_map(*final(tree)) == tree_map(*old(tree))
                        &&& no_ip_available(
                            tree_map(*old(tree)),
                            spec_hw_of(message@),
                            config@.subnets[0].range_lo,
                            config@.subnets[0].range_hi,
                            dyn_reserved(config@, old(transactions).model(), now),
                            now,
                        )
                    }
                },
                Err(e) => e == DhcpError::Store,
            },
    {
        let hw = hardware_address(message);
        let request = LeaseRequest::new(message.xid, hw);
        let leased = match request.ack(config, tree, transactions, now) {
            Ok(l) => l,
            Err(e) => {
                if e == DhcpError::NoFreeAddress {
                    return Ok(build_nak(message));
                }
                return Err(e);
            },
        };
        let subnet = &config.subnets[0];
        proof {
            assert(config@.subnets[0] == config.subnets@[0]@);
        }
        Ok(build_reply(message, MSG_TYPE_ACK, subnet, leased.ip_addr))
    }
}

/// The option values an OFFER or ACK carries all fit behind their
/// one-byte lengths when the subnet is well-formed.
proof fn lemma_reply_options_encodable(mt: u8, sn: SpecSubnetConfig)
    requires
        wf_subnet(sn),
    ensures
        forall|i: int|
            0 <= i < spec_reply_options(mt, sn).len() ==> crate::options::opt_encodable(
                #[trigger] spec_reply_options(mt, sn)[i],
            ),
{
    let s = spec_reply_options(mt, sn);
    assert forall|i: int| 0 <= i < s.len() implies crate::options::opt_encodable(
        #[trigger] s[i],
    ) by {
        assert(crate::options::opt_encodable(s[0]));
        assert(crate::options::opt_encodable(s[1]));
        assert(crate::options::opt_encodable(s[2]));
        assert(crate::options::opt_encodable(s[3]));
        assert(crate::options::opt_encodable(s[4]));
        assert(crate::options::opt_encodable(s[5]));
        assert(crate::options::opt_encodable(s[6]));
    }
}

/// A NAK's two options always fit.
proof fn lemma_nak_options_encodable(req: SpecDhcpMessage)
    ensures
        forall|i: int|
            0 <= i < spec_nak(req).options.len() ==> crate::options::opt_encodable(
                #[trigger] spec_nak(req).options[i],
            ),
{
    let s = spec_nak(req).options;
    assert forall|i: int| 0 <= i < s.len() implies crate::options::opt_encodable(
        #[trigger] s[i],
    ) by {
        assert(crate::options::opt_encodable(s[0]));
        assert(crate::options::opt_encodable(s[1]));
    }
}

/// Everything one datagram's handling needs: the configuration, the
/// lease table, and the transaction registry.
pub struct Context {
    pub config: OmoiConfig,
    pub tree: Leases4Tree,
    pub transactions: Transactions,
}

/// Serves one datagram: decodes it, dispatches on the message type,
/// and encodes the reply with its destination.
///
/// Per-packet failures come back as errors for the caller to log and
/// drop; an exhausted range on a REQUEST is answered with a NAK
/// rather than an error.
pub fn handle_request(context: &mut Context, buffer: &Vec<u8>, now: u64) -> (r: Result<
    (DhcpMessageFormat, Vec<u8>, ReplyDest),
    DhcpError,
>)
    requires
        wf_config(old(context).config.dhcp4@),
        old(context).transactions.wf(),
        now + old(context).config.dhcp4@.subnets[0].address_lease_time <= u64::MAX,
    ensures
        final(context).transactions.wf(),
        final(context).config == old(context).config,
        (match spec_decode_msg(buffer@) {
            Some(req) => !(req.giaddr == 0 && req.ciaddr == 0) ==> (r matches Err(e) && e
                == DhcpError::Unsupported),
            None => true,
        }),
        (match spec_decode_msg(buffer@) {
            Some(req) => (req.giaddr == 0 && req.ciaddr == 0 && spec_msg_type(req.options)
                != Some(MSG_TYPE_DISCOVER) && spec_msg_type(req.options) != Some(
                MSG_TYPE_REQUEST,
            )) ==> (r matches Err(e) && e == DhcpError::UnsupportedMessageType),
            None => true,
        }),
        (match spec_decode_msg(buffer@) {
            Some(req) => (req.giaddr == 0 && req.ciaddr == 0 && spec_msg_type(req.options)
                == Some(MSG_TYPE_DISCOVER) && spec_find_host(
                old(context).config.dhcp4@.hosts,
                spec_hw_of(req),
            ) is Some) ==> r is Ok,
            None => true,
        }),
        match r {
            Ok((reply, bytes, dest)) => {
                let req = spec_decode_msg(buffer@).unwrap();
                &&& spec_decode_msg(buffer@) is Some
                &&& req.giaddr == 0 && req.ciaddr == 0
                &&& dest == ReplyDest::LimitedBroadcast
                &&& bytes@ == spec_encode_msg(reply@)
                &&& if spec_msg_type(req.options) == Some(MSG_TYPE_DISCOVER) {
                    &&& tree_map(final(context).tree) == tree_map(old(context).tree)
                    &&& reply@ == spec_reply(
                        req,
                        MSG_TYPE_OFFER,
                        old(context).config.dhcp4@.subnets[0],
                        reply@.yiaddr,
                    )
                    &&& offer_assigned(
                        old(context).config.dhcp4@,
                        tree_map(old(context).tree),
                        old(context).transactions.model(),
                        spec_hw_of(req),
                        now,
                        reply@.yiaddr,
                    )
                    &&& (spec_find_host(old(context).config.dhcp4@.hosts, spec_hw_of(req))
                        is None ==> spec_find_txn(final(context).transactions.model(), req.xid)
                        == Some(
                        Transaction {
                            xid: req.xid,
                            offered_ipv4_addr: reply@.yiaddr,
                            created_at: now,
                        },
                    ))
                } else {
                    &&& spec_msg_type(req.options) == Some(MSG_TYPE_REQUEST)
                    &&& (reply@ == spec_reply(
                        req,
                        MSG_TYPE_ACK,
                        old(context).config.dhcp4@.subnets[0],
                        reply@.yiaddr,
                    ) && ack_assigned(
                        old(context).config.dhcp4@,
                        tree_map(old(context).tree),
                        old(context).transactions.model(),
                        spec_hw_of(req),
                        req.xid,
                        now,
                        reply@.yiaddr,
                    ) && tree_map(final(context).tree) == tree_map(old(context).tree).insert(
                        spec_key(reply@.yiaddr),
                        spec_encode_record(
                            SpecLeaseRecord {
                                hardware_address: spec_hw_of(req),
                                ip_addr: reply@.yiaddr,
                                ttl: (now
                                    + old(context).config.dhcp4@.subnets[0].address_lease_time)
                                    as u64,
                            },
                        ),
                    )) || (reply@ == spec_nak(req) && tree_map(final(context).tree) == tree_map(
                        old(context).tree,
                    ) && no_ip_available(
                        tree_map(old(context).tree),
                        spec_hw_of(req),
                        old(context).config.dhcp4@.subnets[0].range_lo,
                        old(context).config.dhcp4@.subnets[0].range_hi,
                        dyn_reserved(
                            old(context).config.dhcp4@,
                            old(context).transactions.model(),
                            now,
                        ),
                        now,
                    ))
                }
            },
            Err(e) => {
                &&& (e != DhcpError::Store ==> tree_map(final(context).tree) == tree_map(
                    old(context).tree,
                ) && final(context).transactions.model() == old(context).transactions.model())
                &&& (e == DhcpError::MalformedMessage <==> spec_decode_msg(buffer@) is None)
                &&& (e == DhcpError::UnsupportedMessageType ==> (spec_decode_msg(buffer@)
                    matches Some(req) && spec_msg_type(req.options) != Some(MSG_TYPE_DISCOVER)
                        && spec_msg_type(req.options) != Some(MSG_TYPE_REQUEST)))
                &&& (e == DhcpError::Unsupported ==> (spec_decode_msg(buffer@) matches Some(req)
                    && !(req.giaddr == 0 && req.ciaddr == 0)))
                &&& (e == DhcpError::NoFreeAddress ==> (spec_decode_msg(buffer@) matches Some(req)
                    && spec_msg_type(req.options) == Some(MSG_TYPE_DISCOVER) && no_ip_available(
                    tree_map(old(context).tree),
                    spec_hw_of(req),
                    old(context).config.dhcp4@.subnets[0].range_lo,
                    old(context).config.dhcp4@.subnets[0].range_hi,
                    dyn_reserved(
                        old(context).config.dhcp4@,
                        old(context).transactions.model(),
                        now,
                    ),
                    now,
                )))
            },
        },
{
    let message = match decode(buffer) {
        Ok(m) => m,
        Err(e) => {
            return Err(DhcpError::MalformedMessage);
        },
    };
    let mt = match message.options.msg_type() {
        Some(t) => t,
        None => {
            return Err(DhcpError::MalformedMessage);
        },
    };
    let dest = match reply_destination(message.giaddr, message.ciaddr) {
        Ok(d) => d,
        Err(e) => {
            return Err(DhcpError::Unsupported);
        },
    };
    let reply = if mt == MSG_TYPE_DISCOVER {
        match (DiscoverHandler).handle(
            &message,
            &context.config.dhcp4,
            &context.tree,
            &mut context.transactions,
            now,
        ) {
            Ok(r) => r,
            Err(e) => {
                assert(e != DhcpError::MalformedMessage && e != DhcpError::UnsupportedMessageType
                    && e != DhcpError::Unsupported);
                return Err(e);
            },
        }
    } else if mt == MSG_TYPE_REQUEST {
        proof {
            assert(spec_hw_of(message@).len() <= 16);
        }
        match (RequestHandler).handle(
            &message,
            &context.config.dhcp4,
            &mut context.tree,
            &mut context.transactions,
            now,
        ) {
            Ok(r) => r,
            Err(e) => {
                assert(e == DhcpError::Store);
                return Err(e);
            },
        }
    } else {
        return Err(DhcpError::UnsupportedMessageType);
    };
    proof {
        let sn = old(context).config.dhcp4@.subnets[0];
        if mt == MSG_TYPE_DISCOVER {
            lemma_reply_options_encodable(MSG_TYPE_OFFER, sn);
        } else if reply@ == spec_nak(message@) {
            lemma_nak_options_encodable(message@);
        } else {
            lemma_reply_options_encodable(MSG_TYPE_ACK, sn);
        }
    }
    let bytes = match encode(&reply) {
        Ok(b) => b,
        Err(e) => {
            proof {
                assert(false);
            }
            return Err(DhcpError::MalformedMessage);
        },
    };
    Ok((reply, bytes, dest))
}

} // verus!
