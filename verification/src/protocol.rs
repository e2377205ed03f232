//! The DHCPv4 message frame: fixed BOOTP header, magic cookie, and
//! option list, with the verified encoder and decoder.
//!
//! Wire layout: `op(1) htype(1) hlen(1) hops(1) xid(4) secs(2)
//! flags(2) ciaddr(4) yiaddr(4) siaddr(4) giaddr(4) chaddr(16)
//! sname(64) file(128) magic(4) options…`, all multi-byte fields
//! big-endian.

use vstd::prelude::*;

use crate::bytes::{
    be16_bytes, be16_of, be32_bytes, be32_of, copy_range, push_be16, push_be32, push_bytes,
    read_be16, read_be32,
};
use crate::options::{
    spec_decode_opts, spec_encode_opts, decode_options, encode_options, opt_encodable, view_opts,
    wf_opts, DhcpOption, DhcpOptions, SpecDhcpOption,
};
use crate::DhcpError;

verus! {

/// BOOTP opcode of a client message.
pub const OP_BOOT_REQUEST: u8 = 1;

/// BOOTP opcode of a server reply.
pub const OP_BOOT_REPLY: u8 = 2;

pub const MSG_TYPE_DISCOVER: u8 = 1;

pub const MSG_TYPE_OFFER: u8 = 2;

pub const MSG_TYPE_REQUEST: u8 = 3;

pub const MSG_TYPE_ACK: u8 = 5;

pub const MSG_TYPE_NAK: u8 = 6;

/// The four bytes that separate the fixed header from the options.
pub open spec fn magic_cookie() -> Seq<u8> {
    seq![99u8, 130u8, 83u8, 99u8]
}

/// Mathematical model of a DHCPv4 message.
#[verifier::ext_equal]
pub struct SpecDhcpMessage {
    pub op: u8,
    pub htype: u8,
    pub hlen: u8,
    pub hops: u8,
    pub xid: u32,
    pub secs: u16,
    pub flags: u16,
    pub ciaddr: u32,
    pub yiaddr: u32,
    pub siaddr: u32,
    pub giaddr: u32,
    pub chaddr: Seq<u8>,
    pub sname: Seq<u8>,
    pub file: Seq<u8>,
    pub options: Seq<SpecDhcpOption>,
}

/// The 64-byte server-name field, kept verbatim.
#[derive(Clone, Debug, PartialEq, Eq)]
pub struct DhcpMessageSnameField(pub Vec<u8>);

impl View for DhcpMessageSnameField {
    type V = Seq<u8>;

    open spec fn view(&self) -> Seq<u8> {
        self.0@
    }
}

/// The 128-byte boot-file field, kept verbatim.
#[derive(Clone, Debug, PartialEq, Eq)]
pub struct DhcpMessageFileField(pub Vec<u8>);

impl View for DhcpMessageFileField {
    type V = Seq<u8>;

    open spec fn view(&self) -> Seq<u8> {
        self.0@
    }
}

/// A DHCPv4 message as the executable code carries it.
#[derive(Clone, Debug, PartialEq, Eq)]
pub struct DhcpMessageFormat {
    pub op: u8,
    pub htype: u8,
    pub hlen: u8,
    pub hops: u8,
    pub xid: u32,
    pub secs: u16,
    pub flags: u16,
    pub ciaddr: u32,
    pub yiaddr: u32,
    pub siaddr: u32,
    pub giaddr: u32,
    pub chaddr: Vec<u8>,
    pub sname: DhcpMessageSnameField,
    pub file: DhcpMessageFileField,
    pub options: DhcpOptions,
}

impl View for DhcpMessageFormat {
    type V = SpecDhcpMessage;

    open spec fn view(&self) -> SpecDhcpMessage {
        SpecDhcpMessage {
            op: self.op,
            htype: self.htype,
            hlen: self.hlen,
            hops: self.hops,
            xid: self.xid,
            secs: self.secs,
            flags: self.flags,
            ciaddr: self.ciaddr,
            yiaddr: self.yiaddr,
            siaddr: self.siaddr,
            giaddr: self.giaddr,
            chaddr: self.chaddr@,
            sname: self.sname@,
            file: self.file@,
            options: self.options@,
        }
    }
}

/// The first MessageType option's value, if the list carries one.
pub open spec fn spec_msg_type(s: Seq<SpecDhcpOption>) -> Option<u8>
    decreases s.len(),
{
    if s.len() == 0 {
        None
    } else {
        match s[0] {
            SpecDhcpOption::MessageType(t) => Some(t),
            _ => spec_msg_type(s.drop_first()),
        }
    }
}

/// A message the codec recovers exactly from its own wire bytes:
/// fields of their fixed widths, a canonical option list, and a
/// MessageType option present.
pub open spec fn wf_msg(m: SpecDhcpMessage) -> bool {
    &&& m.hlen != 0
    &&& m.chaddr.len() == 16
    &&& m.sname.len() == 64
    &&& m.file.len() == 128
    &&& wf_opts(m.options)
    &&& spec_msg_type(m.options) is Some
}

/// The fixed 240 bytes before the options: header fields and cookie.
pub open spec fn spec_encode_header(m: SpecDhcpMessage) -> Seq<u8> {
    seq![m.op, m.htype, m.hlen, m.hops] + be32_bytes(m.xid) + be16_bytes(m.secs) + be16_bytes(
        m.flags,
    ) + be32_bytes(m.ciaddr) + be32_bytes(m.yiaddr) + be32_bytes(m.siaddr) + be32_bytes(m.giaddr)
        + m.chaddr + m.sname + m.file + magic_cookie()
}

/// The wire bytes of a whole message.
pub open spec fn spec_encode_msg(m: SpecDhcpMessage) -> Seq<u8> {
    spec_encode_header(m) + spec_encode_opts(m.options)
}

/// The message read from a datagram.
///
/// Fails on a short frame, a zero hardware-address length, a cookie
/// mismatch, an option length past the end of the buffer, or a
/// missing MessageType option.  Bytes after END are discarded.
pub open spec fn spec_decode_msg(b: Seq<u8>) -> Option<SpecDhcpMessage> {
    if b.len() < 240 {
        None
    } else if b[2] == 0 {
        None
    } else if b.subrange(236, 240) != magic_cookie() {
        None
    } else {
        match spec_decode_opts(b.skip(240)) {
            None => None,
            Some(opts) => if spec_msg_type(opts) is None {
                None
            } else {
                Some(
                    SpecDhcpMessage {
                        op: b[0],
                        htype: b[1],
                        hlen: b[2],
                        hops: b[3],
                        xid: be32_of(b[4], b[5], b[6], b[7]),
                        secs: be16_of(b[8], b[9]),
                        flags: be16_of(b[10], b[11]),
                        ciaddr: be32_of(b[12], b[13], b[14], b[15]),
                        yiaddr: be32_of(b[16], b[17], b[18], b[19]),
                        siaddr: be32_of(b[20], b[21], b[22], b[23]),
                        giaddr: be32_of(b[24], b[25], b[26], b[27]),
                        chaddr: b.subrange(28, 44),
                        sname: b.subrange(44, 108),
                        file: b.subrange(108, 236),
                        options: opts,
                    },
                )
            },
        }
    }
}

/// Whatever the option list decoded from bytes, it is canonical.
pub proof fn lemma_decoded_opts_wf(b: Seq<u8>, s: Seq<SpecDhcpOption>)
    requires
        spec_decode_opts(b) == Some(s),
    ensures
        wf_opts(s),
    decreases b.len(),
{
    crate::options::lemma_decode_opts_wf(b, s);
}

/// Decoding the wire bytes of a canonical message recovers it exactly.
///
/// This is the codec round trip: every reply this server sends is
/// canonical, so the bytes it puts on the wire decode back to the
/// message it built, and re-encoding that decoded message gives the
/// same bytes.
pub proof fn lemma_msg_roundtrip(m: SpecDhcpMessage)
    requires
        wf_msg(m),
    ensures
        spec_decode_msg(spec_encode_msg(m)) == Some(m),
{
    let h = spec_encode_header(m);
    let b = spec_encode_msg(m);
    assert(h.len() == 240);
    assert(b.len() >= 240);
    assert(b.subrange(0, 4) =~= seq![m.op, m.htype, m.hlen, m.hops]);
    assert(b.subrange(4, 8) =~= be32_bytes(m.xid));
    assert(b.subrange(8, 10) =~= be16_bytes(m.secs));
    assert(b.subrange(10, 12) =~= be16_bytes(m.flags));
    assert(b.subrange(12, 16) =~= be32_bytes(m.ciaddr));
    assert(b.subrange(16, 20) =~= be32_bytes(m.yiaddr));
    assert(b.subrange(20, 24) =~= be32_bytes(m.siaddr));
    assert(b.subrange(24, 28) =~= be32_bytes(m.giaddr));
    assert(b.subrange(28, 44) =~= m.chaddr);
    assert(b.subrange(44, 108) =~= m.sname);
    assert(b.subrange(108, 236) =~= m.file);
    assert(b.subrange(236, 240) =~= magic_cookie());
    assert(b.skip(240) =~= spec_encode_opts(m.options));
    crate::bytes::lemma_be32_roundtrip(m.xid);
    crate::bytes::lemma_be16_roundtrip(m.secs);
    crate::bytes::lemma_be16_roundtrip(m.flags);
    crate::bytes::lemma_be32_roundtrip(m.ciaddr);
    crate::bytes::lemma_be32_roundtrip(m.yiaddr);
    crate::bytes::lemma_be32_roundtrip(m.siaddr);
    crate::bytes::lemma_be32_roundtrip(m.giaddr);
    crate::options::lemma_opts_roundtrip(m.options);
    assert(b[2] == m.hlen);
    let d = spec_decode_msg(b).unwrap();
    assert(d =~= m);
}

/// Re-encoding the message decoded from server-built bytes gives the
/// same bytes.
pub proof fn lemma_encode_of_decoded(m: SpecDhcpMessage, b: Seq<u8>)
    requires
        wf_msg(m),
        b == spec_encode_msg(m),
    ensures
        spec_decode_msg(b) is Some,
        spec_encode_msg(spec_decode_msg(b).unwrap()) == b,
{
    lemma_msg_roundtrip(m);
}

/// The first MessageType option's value carried by this option list.
pub fn find_message_type(opts: &Vec<DhcpOption>) -> (r: Option<u8>)
    ensures
        r == spec_msg_type(view_opts(opts@)),
{
    let mut i: usize = 0;
    assert(view_opts(opts@.skip(0)) =~= view_opts(opts@));
    while i < opts.len()
        invariant
            i <= opts@.len(),
            spec_msg_type(view_opts(opts@)) == spec_msg_type(view_opts(opts@.skip(i as int))),
        decreases opts@.len() - i,
    {
        proof {
            let v = view_opts(opts@.skip(i as int));
            assert(v[0] == opts@[i as int]@);
            assert(v.drop_first() =~= view_opts(opts@.skip(i as int + 1)));
        }
        match opts[i] {
            DhcpOption::MessageType(t) => {
                return Some(t);
            },
            _ => {},
        }
        i = i + 1;
    }
    proof {
        assert(view_opts(opts@.skip(opts@.len() as int)) =~= Seq::<SpecDhcpOption>::empty());
    }
    None
}

impl DhcpOptions {
    /// The message type this option list announces, if any.
    pub fn msg_type(&self) -> (r: Option<u8>)
        ensures
            r == spec_msg_type(self@),
    {
        find_message_type(&self.0)
    }
}

/// Decodes one datagram into a message.
pub fn decode(buffer: &Vec<u8>) -> (r: Result<DhcpMessageFormat, DhcpError>)
    ensures
        match r {
            Ok(m) => spec_decode_msg(buffer@) == Some(m@) && wf_msg(m@),
            Err(e) => spec_decode_msg(buffer@) is None && e == DhcpError::MalformedMessage,
        },
{
    if buffer.len() < 240 {
        return Err(DhcpError::MalformedMessage);
    }
    let hlen = buffer[2];
    if hlen == 0 {
        return Err(DhcpError::MalformedMessage);
    }
    if !(buffer[236] == 99 && buffer[237] == 130 && buffer[238] == 83 && buffer[239] == 99) {
        assert(buffer@.subrange(236, 240) != magic_cookie()) by {
            let s = buffer@.subrange(236, 240);
            if s == magic_cookie() {
                assert(s[0] == 99 && s[1] == 130 && s[2] == 83 && s[3] == 99);
            }
        }
        return Err(DhcpError::MalformedMessage);
    }
    assert(buffer@.subrange(236, 240) =~= magic_cookie());
    let opts = match decode_options(buffer, 240) {
        Ok(v) => v,
        Err(e) => {
            return Err(DhcpError::MalformedMessage);
        },
    };
    if find_message_type(&opts).is_none() {
        return Err(DhcpError::MalformedMessage);
    }
    let m = DhcpMessageFormat {
        op: buffer[0],
        htype: buffer[1],
        hlen,
        hops: buffer[3],
        xid: read_be32(buffer[4], buffer[5], buffer[6], buffer[7]),
        secs: read_be16(buffer[8], buffer[9]),
        flags: read_be16(buffer[10], buffer[11]),
        ciaddr: read_be32(buffer[12], buffer[13], buffer[14], buffer[15]),
        yiaddr: read_be32(buffer[16], buffer[17], buffer[18], buffer[19]),
        siaddr: read_be32(buffer[20], buffer[21], buffer[22], buffer[23]),
        giaddr: read_be32(buffer[24], buffer[25], buffer[26], buffer[27]),
        chaddr: copy_range(buffer, 28, 44),
        sname: DhcpMessageSnameField(copy_range(buffer, 44, 108)),
        file: DhcpMessageFileField(copy_range(buffer, 108, 236)),
        options: DhcpOptions(opts),
    };
    proof {
        lemma_decoded_opts_wf(buffer@.skip(240), view_opts(opts@));
        assert(spec_decode_msg(buffer@).unwrap() =~= m@);
    }
    Ok(m)
}

/// Encodes a message into its datagram bytes.
///
/// Fails only when some option's value does not fit behind its
/// one-byte length; the header fields are emitted as given.
pub fn encode(m: &DhcpMessageFormat) -> (r: Result<Vec<u8>, DhcpError>)
    ensures
        match r {
            Ok(b) => b@ == spec_encode_msg(m@) && (forall|i: int|
                0 <= i < m@.options.len() ==> opt_encodable(#[trigger] m@.options[i])),
            Err(e) => !(forall|i: int|
                0 <= i < m@.options.len() ==> opt_encodable(#[trigger] m@.options[i])) && e
                == DhcpError::MalformedMessage,
        },
{
    let mut out: Vec<u8> = Vec::new();
    out.push(m.op);
    out.push(m.htype);
    out.push(m.hlen);
    out.push(m.hops);
    push_be32(&mut out, m.xid);
    push_be16(&mut out, m.secs);
    push_be16(&mut out, m.flags);
    push_be32(&mut out, m.ciaddr);
    push_be32(&mut out, m.yiaddr);
    push_be32(&mut out, m.siaddr);
    push_be32(&mut out, m.giaddr);
    push_bytes(&mut out, &m.chaddr);
    push_bytes(&mut out, &m.sname.0);
    push_bytes(&mut out, &m.file.0);
    out.push(99);
    out.push(130);
    out.push(83);
    out.push(99);
    assert(out@ =~= spec_encode_header(m@));
    let ok = encode_options(&mut out, &m.options.0);
    proof {
        if ok {
            assert forall|i: int| 0 <= i < m@.options.len() implies opt_encodable(
                #[trigger] m@.options[i],
            ) by {
                assert(m@.options[i] == m.options.0@[i]@);
                assert(opt_encodable(m.options.0@[i]@));
            }
        } else {
            if forall|i: int| 0 <= i < m@.options.len() ==> opt_encodable(
                #[trigger] m@.options[i],
            ) {
                assert forall|j: int| 0 <= j < m.options.0@.len() implies opt_encodable(
                    #[trigger] m.options.0@[j]@,
                ) by {
                    assert(m@.options[j] == m.options.0@[j]@);
                }
                assert(false);
            }
        }
    }
    if !ok {
        return Err(DhcpError::MalformedMessage);
    }
    assert(out@ =~= spec_encode_msg(m@));
    Ok(out)
}

} // verus!
