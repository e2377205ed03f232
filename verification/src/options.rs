//! DHCP option TLVs: the model, the wire encoding, and its proofs.
//!
//! Options sit after the fixed header and the magic cookie as
//! `tag(1) len(1) value(len)` triples; tag 0 (PAD) and tag 255 (END)
//! carry no length byte.  Tags the server works with are decoded by
//! name; every other tag is preserved verbatim and re-emitted
//! unchanged.

use vstd::prelude::*;

use crate::bytes::{be32_bytes, be32_of, push_be32, push_bytes, read_be32};
use crate::DhcpError;

verus! {

pub const TAG_PAD: u8 = 0;
pub const TAG_SUBNET_MASK: u8 = 1;
pub const TAG_ROUTER: u8 = 3;
pub const TAG_DOMAIN_NAME_SERVER: u8 = 6;
pub const TAG_BROADCAST_ADDRESS: u8 = 28;
pub const TAG_ADDRESS_LEASE_TIME: u8 = 51;
pub const TAG_MESSAGE_TYPE: u8 = 53;
pub const TAG_SERVER_IDENTIFIER: u8 = 54;
pub const TAG_PARAMETER_REQUEST_LIST: u8 = 55;
pub const TAG_END: u8 = 255;

/// Mathematical model of one DHCP option.
///
/// IPv4 addresses are 32-bit words; address lists are word sequences.
pub enum SpecDhcpOption {
    Pad,
    SubnetMask(u32),
    Router(Seq<u32>),
    DomainNameServer(Seq<u32>),
    BroadcastAddress(u32),
    AddressLeaseTime(u32),
    MessageType(u8),
    ServerIdentifier(u32),
    ParameterRequestList(Seq<u8>),
    Unknown(u8, Seq<u8>),
    End,
}

/// One DHCP option as the executable code carries it.
#[derive(Clone, Debug, PartialEq, Eq)]
pub enum DhcpOption {
    Pad,
    SubnetMask(u32),
    Router(Vec<u32>),
    DomainNameServer(Vec<u32>),
    BroadcastAddress(u32),
    AddressLeaseTime(u32),
    MessageType(u8),
    ServerIdentifier(u32),
    ParameterRequestList(Vec<u8>),
    Unknown(u8, Vec<u8>),
    End,
}

impl View for DhcpOption {
    type V = SpecDhcpOption;

    open spec fn view(&self) -> SpecDhcpOption {
        match self {
            DhcpOption::Pad => SpecDhcpOption::Pad,
            DhcpOption::SubnetMask(x) => SpecDhcpOption::SubnetMask(*x),
            DhcpOption::Router(l) => SpecDhcpOption::Router(l@),
            DhcpOption::DomainNameServer(l) => SpecDhcpOption::DomainNameServer(l@),
            DhcpOption::BroadcastAddress(x) => SpecDhcpOption::BroadcastAddress(*x),
            DhcpOption::AddressLeaseTime(x) => SpecDhcpOption::AddressLeaseTime(*x),
            DhcpOption::MessageType(t) => SpecDhcpOption::MessageType(*t),
            DhcpOption::ServerIdentifier(x) => SpecDhcpOption::ServerIdentifier(*x),
            DhcpOption::ParameterRequestList(p) => SpecDhcpOption::ParameterRequestList(p@),
            DhcpOption::Unknown(t, p) => SpecDhcpOption::Unknown(*t, p@),
            DhcpOption::End => SpecDhcpOption::End,
        }
    }
}

/// The model of a sequence of executable options.
pub open spec fn view_opts(s: Seq<DhcpOption>) -> Seq<SpecDhcpOption> {
    s.map_values(|o: DhcpOption| o@)
}

/// The option list of a DHCP message, in wire order.
#[derive(Clone, Debug, PartialEq, Eq)]
pub struct DhcpOptions(pub Vec<DhcpOption>);

impl View for DhcpOptions {
    type V = Seq<SpecDhcpOption>;

    open spec fn view(&self) -> Seq<SpecDhcpOption> {
        view_opts(self.0@)
    }
}

/// The wire bytes of a sequence of 32-bit words, each big-endian.
pub open spec fn words_bytes(l: Seq<u32>) -> Seq<u8>
    decreases l.len(),
{
    if l.len() == 0 {
        Seq::empty()
    } else {
        be32_bytes(l[0]) + words_bytes(l.drop_first())
    }
}

/// The 32-bit words read big-endian from a byte string, four bytes each.
pub open spec fn words_of(b: Seq<u8>) -> Seq<u32>
    decreases b.len(),
{
    if b.len() < 4 {
        Seq::empty()
    } else {
        seq![be32_of(b[0], b[1], b[2], b[3])] + words_of(b.skip(4))
    }
}

pub proof fn lemma_words_bytes_len(l: Seq<u32>)
    ensures
        words_bytes(l).len() == 4 * l.len(),
    decreases l.len(),
{
    if l.len() > 0 {
        lemma_words_bytes_len(l.drop_first());
    }
}

/// Word lists survive the trip through their wire bytes.
pub proof fn lemma_words_roundtrip(l: Seq<u32>)
    ensures
        words_of(words_bytes(l)) == l,
    decreases l.len(),
{
    if l.len() == 0 {
        assert(words_of(words_bytes(l)) =~= l);
    } else {
        let b = words_bytes(l);
        lemma_words_bytes_len(l.drop_first());
        assert(b.len() == 4 + words_bytes(l.drop_first()).len());
        crate::bytes::lemma_be32_bytes_of(
            ((l[0] >> 24) & 0xff) as u8,
            ((l[0] >> 16) & 0xff) as u8,
            ((l[0] >> 8) & 0xff) as u8,
            (l[0] & 0xff) as u8,
        );
        crate::bytes::lemma_be32_roundtrip(l[0]);
        assert(be32_of(b[0], b[1], b[2], b[3]) == l[0]);
        assert(b.skip(4) =~= words_bytes(l.drop_first()));
        lemma_words_roundtrip(l.drop_first());
        assert(words_of(words_bytes(l)) =~= l);
    }
}

/// The wire tag of an option.
pub open spec fn spec_tag_of(o: SpecDhcpOption) -> u8 {
    match o {
        SpecDhcpOption::Pad => TAG_PAD,
        SpecDhcpOption::SubnetMask(_) => TAG_SUBNET_MASK,
        SpecDhcpOption::Router(_) => TAG_ROUTER,
        SpecDhcpOption::DomainNameServer(_) => TAG_DOMAIN_NAME_SERVER,
        SpecDhcpOption::BroadcastAddress(_) => TAG_BROADCAST_ADDRESS,
        SpecDhcpOption::AddressLeaseTime(_) => TAG_ADDRESS_LEASE_TIME,
        SpecDhcpOption::MessageType(_) => TAG_MESSAGE_TYPE,
        SpecDhcpOption::ServerIdentifier(_) => TAG_SERVER_IDENTIFIER,
        SpecDhcpOption::ParameterRequestList(_) => TAG_PARAMETER_REQUEST_LIST,
        SpecDhcpOption::Unknown(t, _) => t,
        SpecDhcpOption::End => TAG_END,
    }
}

/// The value bytes an option carries on the wire (PAD and END carry none).
pub open spec fn spec_payload_of(o: SpecDhcpOption) -> Seq<u8> {
    match o {
        SpecDhcpOption::Pad => Seq::empty(),
        SpecDhcpOption::SubnetMask(x) => be32_bytes(x),
        SpecDhcpOption::Router(l) => words_bytes(l),
        SpecDhcpOption::DomainNameServer(l) => words_bytes(l),
        SpecDhcpOption::BroadcastAddress(x) => be32_bytes(x),
        SpecDhcpOption::AddressLeaseTime(x) => be32_bytes(x),
        SpecDhcpOption::MessageType(t) => seq![t],
        SpecDhcpOption::ServerIdentifier(x) => be32_bytes(x),
        SpecDhcpOption::ParameterRequestList(p) => p,
        SpecDhcpOption::Unknown(_, p) => p,
        SpecDhcpOption::End => Seq::empty(),
    }
}

/// The wire bytes of one option.
pub open spec fn spec_encode_opt(o: SpecDhcpOption) -> Seq<u8> {
    match o {
        SpecDhcpOption::Pad => seq![TAG_PAD],
        SpecDhcpOption::End => seq![TAG_END],
        _ => seq![spec_tag_of(o), spec_payload_of(o).len() as u8] + spec_payload_of(o),
    }
}

/// The wire bytes of an option list, in order.
pub open spec fn spec_encode_opts(s: Seq<SpecDhcpOption>) -> Seq<u8>
    decreases s.len(),
{
    if s.len() == 0 {
        Seq::empty()
    } else {
        spec_encode_opt(s[0]) + spec_encode_opts(s.drop_first())
    }
}

/// Whether an option's value fits behind a one-byte length.
pub open spec fn opt_encodable(o: SpecDhcpOption) -> bool {
    match o {
        SpecDhcpOption::Router(l) => l.len() <= 63,
        SpecDhcpOption::DomainNameServer(l) => l.len() <= 63,
        SpecDhcpOption::ParameterRequestList(p) => p.len() <= 255,
        SpecDhcpOption::Unknown(_, p) => p.len() <= 255,
        _ => true,
    }
}

/// The option a decoder builds from a tag and its value bytes.
///
/// A recognized tag whose length does not fit its shape is kept as an
/// opaque option rather than rejected, so that such bytes survive a
/// decode/encode trip unchanged.
pub open spec fn classify_opt(tag: u8, p: Seq<u8>) -> SpecDhcpOption {
    if tag == TAG_SUBNET_MASK && p.len() == 4 {
        SpecDhcpOption::SubnetMask(be32_of(p[0], p[1], p[2], p[3]))
    } else if tag == TAG_ROUTER && p.len() % 4 == 0 {
        SpecDhcpOption::Router(words_of(p))
    } else if tag == TAG_DOMAIN_NAME_SERVER && p.len() % 4 == 0 {
        SpecDhcpOption::DomainNameServer(words_of(p))
    } else if tag == TAG_BROADCAST_ADDRESS && p.len() == 4 {
        SpecDhcpOption::BroadcastAddress(be32_of(p[0], p[1], p[2], p[3]))
    } else if tag == TAG_ADDRESS_LEASE_TIME && p.len() == 4 {
        SpecDhcpOption::AddressLeaseTime(be32_of(p[0], p[1], p[2], p[3]))
    } else if tag == TAG_MESSAGE_TYPE && p.len() == 1 {
        SpecDhcpOption::MessageType(p[0])
    } else if tag == TAG_SERVER_IDENTIFIER && p.len() == 4 {
        SpecDhcpOption::ServerIdentifier(be32_of(p[0], p[1], p[2], p[3]))
    } else if tag == TAG_PARAMETER_REQUEST_LIST {
        SpecDhcpOption::ParameterRequestList(p)
    } else {
        SpecDhcpOption::Unknown(tag, p)
    }
}

/// An option in the canonical form the decoder produces.
///
/// Beyond fitting its length byte, an opaque option must not collide
/// with the shape of a recognized tag: such bytes decode to the named
/// variant instead, so the opaque form would not survive a round trip.
pub open spec fn wf_opt(o: SpecDhcpOption) -> bool {
    match o {
        SpecDhcpOption::Unknown(tag, p) => {
            &&& p.len() <= 255
            &&& tag != TAG_PAD
            &&& tag != TAG_END
            &&& tag != TAG_PARAMETER_REQUEST_LIST
            &&& !(tag == TAG_SUBNET_MASK && p.len() == 4)
            &&& !(tag == TAG_ROUTER && p.len() % 4 == 0)
            &&& !(tag == TAG_DOMAIN_NAME_SERVER && p.len() % 4 == 0)
            &&& !(tag == TAG_BROADCAST_ADDRESS && p.len() == 4)
            &&& !(tag == TAG_ADDRESS_LEASE_TIME && p.len() == 4)
            &&& !(tag == TAG_MESSAGE_TYPE && p.len() == 1)
            &&& !(tag == TAG_SERVER_IDENTIFIER && p.len() == 4)
        },
        _ => opt_encodable(o),
    }
}

/// A canonical option list: every option canonical, END at most as the
/// final element.
pub open spec fn wf_opts(s: Seq<SpecDhcpOption>) -> bool {
    &&& forall|i: int| 0 <= i < s.len() ==> wf_opt(#[trigger] s[i])
    &&& forall|i: int| 0 <= i < s.len() - 1 ==> !(#[trigger] s[i] is End)
}

/// The option list read from the bytes after the magic cookie.
///
/// END stops the parse; bytes after it are discarded.  Running out of
/// bytes between options ends the list; a length byte that overruns
/// the buffer is a malformed message.
pub open spec fn spec_decode_opts(b: Seq<u8>) -> Option<Seq<SpecDhcpOption>>
    decreases b.len(),
{
    if b.len() == 0 {
        Some(Seq::empty())
    } else if b[0] == TAG_PAD {
        match spec_decode_opts(b.skip(1)) {
            Some(rest) => Some(seq![SpecDhcpOption::Pad] + rest),
            None => None,
        }
    } else if b[0] == TAG_END {
        Some(seq![SpecDhcpOption::End])
    } else if b.len() < 2 {
        None
    } else if b.len() < 2 + b[1] {
        None
    } else {
        let o = classify_opt(b[0], b.subrange(2, 2 + b[1]));
        match spec_decode_opts(b.skip(2 + b[1])) {
            Some(rest) => Some(seq![o] + rest),
            None => None,
        }
    }
}

/// Decoding recovers an option from its own wire bytes, whatever follows.
proof fn lemma_classify_encode(o: SpecDhcpOption)
    requires
        wf_opt(o),
        !(o is Pad),
        !(o is End),
    ensures
        classify_opt(spec_tag_of(o), spec_payload_of(o)) == o,
{
    match o {
        SpecDhcpOption::SubnetMask(x) => {
            crate::bytes::lemma_be32_roundtrip(x);
        },
        SpecDhcpOption::BroadcastAddress(x) => {
            crate::bytes::lemma_be32_roundtrip(x);
        },
        SpecDhcpOption::AddressLeaseTime(x) => {
            crate::bytes::lemma_be32_roundtrip(x);
        },
        SpecDhcpOption::ServerIdentifier(x) => {
            crate::bytes::lemma_be32_roundtrip(x);
        },
        SpecDhcpOption::Router(l) => {
            lemma_words_bytes_len(l);
            lemma_words_roundtrip(l);
        },
        SpecDhcpOption::DomainNameServer(l) => {
            lemma_words_bytes_len(l);
            lemma_words_roundtrip(l);
        },
        _ => {},
    }
}

pub proof fn lemma_words_of_len(b: Seq<u8>)
    ensures
        4 * words_of(b).len() <= b.len(),
        b.len() % 4 == 0 ==> 4 * words_of(b).len() == b.len(),
    decreases b.len(),
{
    if b.len() >= 4 {
        lemma_words_of_len(b.skip(4));
        assert(b.skip(4).len() == b.len() - 4);
        if b.len() % 4 == 0 {
            assert((b.len() - 4) % 4 == 0) by {
                vstd::arithmetic::div_mod::lemma_sub_mod_noop(b.len() as int, 4, 4);
            }
        }
    }
}

/// Whatever tag and value the decoder classifies, the option it
/// builds is canonical.
proof fn lemma_classify_wf(tag: u8, p: Seq<u8>)
    requires
        p.len() <= 255,
        tag != TAG_PAD,
        tag != TAG_END,
    ensures
        wf_opt(classify_opt(tag, p)),
        !(classify_opt(tag, p) is End),
        !(classify_opt(tag, p) is Pad),
{
    if (tag == TAG_ROUTER || tag == TAG_DOMAIN_NAME_SERVER) && p.len() % 4 == 0 {
        lemma_words_of_len(p);
    }
}

/// Whatever option list a decode yields is canonical.
pub proof fn lemma_decode_opts_wf(b: Seq<u8>, s: Seq<SpecDhcpOption>)
    requires
        spec_decode_opts(b) == Some(s),
    ensures
        wf_opts(s),
    decreases b.len(),
{
    if b.len() == 0 {
    } else if b[0] == TAG_PAD {
        let rest = spec_decode_opts(b.skip(1)).unwrap();
        lemma_decode_opts_wf(b.skip(1), rest);
        assert(forall|i: int| 0 <= i < s.len() ==> wf_opt(#[trigger] s[i]));
    } else if b[0] == TAG_END {
    } else {
        let p = b.subrange(2, 2 + b[1]);
        let o = classify_opt(b[0], p);
        lemma_classify_wf(b[0], p);
        let rest = spec_decode_opts(b.skip(2 + b[1])).unwrap();
        lemma_decode_opts_wf(b.skip(2 + b[1]), rest);
        assert(forall|i: int| 0 <= i < s.len() ==> wf_opt(#[trigger] s[i]));
    }
}

/// A canonical option list is recovered exactly from its wire bytes.
pub proof fn lemma_opts_roundtrip(s: Seq<SpecDhcpOption>)
    requires
        wf_opts(s),
    ensures
        spec_decode_opts(spec_encode_opts(s)) == Some(s),
    decreases s.len(),
{
    if s.len() == 0 {
        assert(spec_decode_opts(spec_encode_opts(s)) =~= Some(s));
    } else {
        let o = s[0];
        let e = spec_encode_opt(o);
        let rest = spec_encode_opts(s.drop_first());
        let b = e + rest;
        assert(spec_encode_opts(s) == b);
        assert(wf_opts(s.drop_first()));
        match o {
            SpecDhcpOption::Pad => {
                assert(b[0] == TAG_PAD);
                assert(b.skip(1) =~= rest);
                lemma_opts_roundtrip(s.drop_first());
                assert(seq![SpecDhcpOption::Pad] + s.drop_first() =~= s);
            },
            SpecDhcpOption::End => {
                assert(s.len() == 1) by {
                    if s.len() > 1 {
                        assert(!(s[0] is End));
                    }
                }
                assert(b =~= seq![TAG_END]);
                assert(spec_decode_opts(b) == Some(seq![SpecDhcpOption::End]));
                assert(seq![SpecDhcpOption::End] =~= s);
            },
            _ => {
                let p = spec_payload_of(o);
                let tag = spec_tag_of(o);
                assert(p.len() <= 255) by {
                    match o {
                        SpecDhcpOption::Router(l) => lemma_words_bytes_len(l),
                        SpecDhcpOption::DomainNameServer(l) => lemma_words_bytes_len(l),
                        _ => {},
                    }
                }
                assert(tag != TAG_PAD && tag != TAG_END);
                assert(e == seq![tag, p.len() as u8] + p);
                assert(b[0] == tag && b[1] == p.len() as u8);
                assert(b.len() == 2 + p.len() + rest.len());
                assert(b.subrange(2, 2 + p.len() as int) =~= p);
                assert(b.skip(2 + p.len() as int) =~= rest);
                lemma_classify_encode(o);
                lemma_opts_roundtrip(s.drop_first());
                assert(seq![o] + s.drop_first() =~= s);
            },
        }
    }
}

/// Reads the 32-bit words out of a byte string whose length is a
/// multiple of four.
fn words_from_bytes(p: &Vec<u8>) -> (r: Vec<u32>)
    requires
        p@.len() % 4 == 0,
    ensures
        r@ == words_of(p@),
{
    let mut out: Vec<u32> = Vec::new();
    let mut i: usize = 0;
    assert(p@.skip(0) =~= p@);
    while i < p.len()
        invariant
            i <= p@.len(),
            i % 4 == 0,
            p@.len() % 4 == 0,
            out@ + words_of(p@.skip(i as int)) == words_of(p@),
        decreases p@.len() - i,
    {
        assert(p@.len() - i >= 4) by {
            assert(p@.len() % 4 == 0 && i % 4 == 0 && i < p@.len());
            assert((p@.len() - i) % 4 == 0) by {
                vstd::arithmetic::div_mod::lemma_sub_mod_noop(p@.len() as int, i as int, 4);
            }
        }
        let w = read_be32(p[i], p[i + 1], p[i + 2], p[i + 3]);
        proof {
            let t = p@.skip(i as int);
            assert(t[0] == p@[i as int] && t[1] == p@[i as int + 1] && t[2] == p@[i as int + 2]
                && t[3] == p@[i as int + 3]);
            assert(t.skip(4) =~= p@.skip(i as int + 4));
            assert(words_of(t) == seq![w] + words_of(p@.skip(i as int + 4)));
            assert(out@ + words_of(t) =~= out@.push(w) + words_of(p@.skip(i as int + 4)));
        }
        out.push(w);
        i = i + 4;
    }
    proof {
        assert(p@.skip(p@.len() as int) =~= Seq::<u8>::empty());
        assert(out@ =~= words_of(p@));
    }
    out
}

/// Builds the option a given tag and value decode to.
fn make_option(tag: u8, p: Vec<u8>) -> (r: DhcpOption)
    ensures
        r@ == classify_opt(tag, p@),
{
    if tag == TAG_SUBNET_MASK && p.len() == 4 {
        DhcpOption::SubnetMask(read_be32(p[0], p[1], p[2], p[3]))
    } else if tag == TAG_ROUTER && p.len() % 4 == 0 {
        DhcpOption::Router(words_from_bytes(&p))
    } else if tag == TAG_DOMAIN_NAME_SERVER && p.len() % 4 == 0 {
        DhcpOption::DomainNameServer(words_from_bytes(&p))
    } else if tag == TAG_BROADCAST_ADDRESS && p.len() == 4 {
        DhcpOption::BroadcastAddress(read_be32(p[0], p[1], p[2], p[3]))
    } else if tag == TAG_ADDRESS_LEASE_TIME && p.len() == 4 {
        DhcpOption::AddressLeaseTime(read_be32(p[0], p[1], p[2], p[3]))
    } else if tag == TAG_MESSAGE_TYPE && p.len() == 1 {
        DhcpOption::MessageType(p[0])
    } else if tag == TAG_SERVER_IDENTIFIER && p.len() == 4 {
        DhcpOption::ServerIdentifier(read_be32(p[0], p[1], p[2], p[3]))
    } else if tag == TAG_PARAMETER_REQUEST_LIST {
        DhcpOption::ParameterRequestList(p)
    } else {
        DhcpOption::Unknown(tag, p)
    }
}

/// Whether this option's value fits behind a one-byte length.
pub fn option_encodable(o: &DhcpOption) -> (r: bool)
    ensures
        r == opt_encodable(o@),
{
    match o {
        DhcpOption::Router(l) => l.len() <= 63,
        DhcpOption::DomainNameServer(l) => l.len() <= 63,
        DhcpOption::ParameterRequestList(p) => p.len() <= 255,
        DhcpOption::Unknown(_, p) => p.len() <= 255,
        _ => true,
    }
}

/// Appends the 32-bit words of an address list, big-endian each.
fn push_words(out: &mut Vec<u8>, l: &Vec<u32>)
    ensures
        final(out)@ == old(out)@ + words_bytes(l@),
{
    let mut i: usize = 0;
    assert(l@.skip(0) =~= l@);
    while i < l.len()
        invariant
            i <= l@.len(),
            out@ + words_bytes(l@.skip(i as int)) == old(out)@ + words_bytes(l@),
        decreases l@.len() - i,
    {
        proof {
            let t = l@.skip(i as int);
            assert(t[0] == l@[i as int]);
            assert(t.drop_first() =~= l@.skip(i as int + 1));
            assert((out@ + words_bytes(t)) =~= (out@ + be32_bytes(l@[i as int])) + words_bytes(
                l@.skip(i as int + 1)));
        }
        push_be32(out, l[i]);
        i = i + 1;
    }
    proof {
        assert(l@.skip(l@.len() as int) =~= Seq::<u32>::empty());
        assert(out@ =~= old(out)@ + words_bytes(l@));
    }
}

/// Appends the wire bytes of one option.
///
/// Returns false, leaving the output unchanged, when the option's
/// value does not fit behind its one-byte length.
pub fn encode_option(out: &mut Vec<u8>, o: &DhcpOption) -> (ok: bool)
    ensures
        ok == opt_encodable(o@),
        ok ==> final(out)@ == old(out)@ + spec_encode_opt(o@),
        !ok ==> final(out)@ == old(out)@,
{
    if !option_encodable(o) {
        return false;
    }
    match o {
        DhcpOption::Pad => {
            out.push(TAG_PAD);
            assert(out@ =~= old(out)@ + spec_encode_opt(o@));
        },
        DhcpOption::End => {
            out.push(TAG_END);
            assert(out@ =~= old(out)@ + spec_encode_opt(o@));
        },
        DhcpOption::SubnetMask(x) => {
            out.push(TAG_SUBNET_MASK);
            out.push(4);
            push_be32(out, *x);
            assert(out@ =~= old(out)@ + spec_encode_opt(o@));
        },
        DhcpOption::BroadcastAddress(x) => {
            out.push(TAG_BROADCAST_ADDRESS);
            out.push(4);
            push_be32(out, *x);
            assert(out@ =~= old(out)@ + spec_encode_opt(o@));
        },
        DhcpOption::AddressLeaseTime(x) => {
            out.push(TAG_ADDRESS_LEASE_TIME);
            out.push(4);
            push_be32(out, *x);
            assert(out@ =~= old(out)@ + spec_encode_opt(o@));
        },
        DhcpOption::ServerIdentifier(x) => {
            out.push(TAG_SERVER_IDENTIFIER);
            out.push(4);
            push_be32(out, *x);
            assert(out@ =~= old(out)@ + spec_encode_opt(o@));
        },
        DhcpOption::MessageType(t) => {
            out.push(TAG_MESSAGE_TYPE);
            out.push(1);
            out.push(*t);
            assert(out@ =~= old(out)@ + spec_encode_opt(o@));
        },
        DhcpOption::Router(l) => {
            proof {
                lemma_words_bytes_len(l@);
            }
            out.push(TAG_ROUTER);
            out.push((4 * l.len()) as u8);
            push_words(out, l);
            assert(out@ =~= old(out)@ + spec_encode_opt(o@));
        },
        DhcpOption::DomainNameServer(l) => {
            proof {
                lemma_words_bytes_len(l@);
            }
            out.push(TAG_DOMAIN_NAME_SERVER);
            out.push((4 * l.len()) as u8);
            push_words(out, l);
            assert(out@ =~= old(out)@ + spec_encode_opt(o@));
        },
        DhcpOption::ParameterRequestList(p) => {
            out.push(TAG_PARAMETER_REQUEST_LIST);
            out.push(p.len() as u8);
            push_bytes(out, p);
            assert(out@ =~= old(out)@ + spec_encode_opt(o@));
        },
        DhcpOption::Unknown(tag, p) => {
            out.push(*tag);
            out.push(p.len() as u8);
            push_bytes(out, p);
            assert(out@ =~= old(out)@ + spec_encode_opt(o@));
        },
    }
    true
}

/// Appends the wire bytes of an option list, in order.
///
/// Returns false, leaving the output unchanged, when some option's
/// value does not fit behind its one-byte length.
pub fn encode_options(out: &mut Vec<u8>, opts: &Vec<DhcpOption>) -> (ok: bool)
    ensures
        ok == (forall|i: int| 0 <= i < opts@.len() ==> opt_encodable(#[trigger] opts@[i]@)),
        ok ==> final(out)@ == old(out)@ + spec_encode_opts(view_opts(opts@)),
        !ok ==> final(out)@ == old(out)@,
{
    let mut i: usize = 0;
    while i < opts.len()
        invariant
            i <= opts@.len(),
            forall|j: int| 0 <= j < i ==> opt_encodable(#[trigger] opts@[j]@),
        decreases opts@.len() - i,
    {
        if !option_encodable(&opts[i]) {
            return false;
        }
        i = i + 1;
    }
    i = 0;
    assert(view_opts(opts@.skip(0)) =~= view_opts(opts@));
    while i < opts.len()
        invariant
            i <= opts@.len(),
            forall|j: int| 0 <= j < opts@.len() ==> opt_encodable(#[trigger] opts@[j]@),
            out@ + spec_encode_opts(view_opts(opts@.skip(i as int))) == old(out)@
                + spec_encode_opts(view_opts(opts@)),
        decreases opts@.len() - i,
    {
        proof {
            let v = view_opts(opts@.skip(i as int));
            assert(v[0] == opts@[i as int]@);
            assert(v.drop_first() =~= view_opts(opts@.skip(i as int + 1)));
            assert((out@ + spec_encode_opts(v)) =~= (out@ + spec_encode_opt(opts@[i as int]@))
                + spec_encode_opts(view_opts(opts@.skip(i as int + 1))));
        }
        let ok = encode_option(out, &opts[i]);
        assert(ok);
        i = i + 1;
    }
    proof {
        assert(view_opts(opts@.skip(opts@.len() as int)) =~= Seq::<SpecDhcpOption>::empty());
        assert(out@ =~= old(out)@ + spec_encode_opts(view_opts(opts@)));
    }
    true
}

/// Reads the option list that starts at `start`, which sits just
/// after the magic cookie.
pub fn decode_options(buffer: &Vec<u8>, start: usize) -> (r: Result<Vec<DhcpOption>, DhcpError>)
    requires
        start <= buffer@.len(),
    ensures
        match r {
            Ok(v) => spec_decode_opts(buffer@.skip(start as int)) == Some(view_opts(v@)),
            Err(e) => spec_decode_opts(buffer@.skip(start as int)) is None && e
                == DhcpError::MalformedMessage,
        },
{
    let ghost whole = buffer@.skip(start as int);
    let mut acc: Vec<DhcpOption> = Vec::new();
    let mut pos: usize = start;
    loop
        invariant
            start <= pos <= buffer@.len(),
            opts_join(view_opts(acc@), spec_decode_opts(buffer@.skip(pos as int)))
                == spec_decode_opts(whole),
            whole == buffer@.skip(start as int),
        decreases buffer@.len() - pos,
    {
        if pos == buffer.len() {
            proof {
                assert(buffer@.skip(pos as int) =~= Seq::<u8>::empty());
                assert(view_opts(acc@) + Seq::<SpecDhcpOption>::empty() =~= view_opts(acc@));
            }
            return Ok(acc);
        }
        let ghost tail = buffer@.skip(pos as int);
        assert(tail[0] == buffer@[pos as int]);
        let t = buffer[pos];
        if t == TAG_PAD {
            proof {
                assert(tail.skip(1) =~= buffer@.skip(pos as int + 1));
            }
            acc.push(DhcpOption::Pad);
            proof {
                assert(view_opts(acc@) =~= view_opts(acc@.drop_last()) + seq![SpecDhcpOption::Pad]);
                if spec_decode_opts(buffer@.skip(pos as int + 1)) is Some {
                    let rest = spec_decode_opts(buffer@.skip(pos as int + 1)).unwrap();
                    assert(view_opts(acc@.drop_last()) + (seq![SpecDhcpOption::Pad] + rest)
                        =~= view_opts(acc@) + rest);
                }
            }
            pos = pos + 1;
        } else if t == TAG_END {
            acc.push(DhcpOption::End);
            proof {
                assert(spec_decode_opts(tail) == Some(seq![SpecDhcpOption::End]));
                assert(view_opts(acc@) =~= view_opts(acc@.drop_last()) + seq![SpecDhcpOption::End]);
            }
            return Ok(acc);
        } else if pos + 1 >= buffer.len() {
            assert(tail.len() < 2);
            return Err(DhcpError::MalformedMessage);
        } else {
            assert(tail[1] == buffer@[pos as int + 1]);
            let n = buffer[pos + 1] as usize;
            if n > buffer.len() - pos - 2 {
                assert(tail.len() < 2 + tail[1]);
                return Err(DhcpError::MalformedMessage);
            }
            let payload = crate::bytes::copy_range(buffer, pos + 2, pos + 2 + n);
            proof {
                assert(tail.subrange(2, 2 + tail[1]) =~= buffer@.subrange(
                    pos as int + 2,
                    pos as int + 2 + n,
                ));
                assert(tail.skip(2 + tail[1]) =~= buffer@.skip(pos as int + 2 + n));
            }
            let o = make_option(t, payload);
            acc.push(o);
            proof {
                assert(view_opts(acc@) =~= view_opts(acc@.drop_last()) + seq![o@]);
                if spec_decode_opts(buffer@.skip(pos as int + 2 + n)) is Some {
                    let rest = spec_decode_opts(buffer@.skip(pos as int + 2 + n)).unwrap();
                    assert(view_opts(acc@.drop_last()) + (seq![o@] + rest) =~= view_opts(acc@)
                        + rest);
                }
            }
            pos = pos + 2 + n;
        }
    }
}

/// Joins an already-decoded prefix with the outcome on the remaining
/// bytes.
pub open spec fn opts_join(prefix: Seq<SpecDhcpOption>, rest: Option<Seq<SpecDhcpOption>>) -> Option<
    Seq<SpecDhcpOption>,
> {
    match rest {
        Some(r) => Some(prefix + r),
        None => None,
    }
}

} // verus!
