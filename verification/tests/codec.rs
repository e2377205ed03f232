use omoi::options::DhcpOption;
use omoi::options::DhcpOptions;
use omoi::protocol::{decode, encode, DhcpMessageFileField, DhcpMessageFormat,
    DhcpMessageSnameField};
use omoi::DhcpError;

fn frame_with_options(options: &[u8]) -> Vec<u8> {
    let mut b = vec![
        1u8, // op
        1, // htype
        6, // hlen
        0, // hops
        2, 44, 180, 37, // xid
        0, 0, // secs
        0, 0, // flags
        0, 0, 0, 0, // ciaddr
        0, 0, 0, 0, // yiaddr
        0, 0, 0, 0, // siaddr
        0, 0, 0, 0, // giaddr
        0, 0, 0, 17, 17, 17, 0, 0, 0, 0, 0, 0, 0, 0, 0, 0, // chaddr
    ];
    b.extend_from_slice(&[0u8; 64]); // sname
    b.extend_from_slice(&[0u8; 128]); // file
    b.extend_from_slice(&[99, 130, 83, 99]); // magic cookie
    b.extend_from_slice(options);
    b
}

#[test]
fn test_message() {
    let buffer = frame_with_options(&[
        53, 1, 1, // dhcp message type
        55, 5, 1, 28, 3, 15, 6, // parameter list
        255, // end
    ]);
    assert_eq!(buffer.len(), 251);
    let m = decode(&buffer).unwrap();
    assert_eq!(m.op, 1);
    assert_eq!(m.htype, 1);
    assert_eq!(m.hlen, 6);
    assert_eq!(m.xid, 0x022c_b425);
    assert_eq!(m.chaddr[3..6], [17, 17, 17]);
    assert_eq!(
        m.options.0,
        vec![
            DhcpOption::MessageType(1),
            DhcpOption::ParameterRequestList(vec![1, 28, 3, 15, 6]),
            DhcpOption::End,
        ]
    );
}

#[test]
fn roundtrip_with_unknown_option() {
    // A DISCOVER carrying a parameter request list and an unknown tag:
    // decoding and re-encoding gives back the same bytes, option order
    // preserved.
    let buffer = frame_with_options(&[
        53, 1, 1, // dhcp message type
        55, 5, 1, 28, 3, 15, 6, // parameter list
        77, 2, 0xab, 0xcd, // unknown tag, kept verbatim
        255, // end
    ]);
    let m = decode(&buffer).unwrap();
    assert!(m.options.0.contains(&DhcpOption::Unknown(77, vec![0xab, 0xcd])));
    let encoded = encode(&m).unwrap();
    assert_eq!(encoded, buffer);
}

#[test]
fn roundtrip_of_constructed_message() {
    let m = DhcpMessageFormat {
        op: 2,
        htype: 1,
        hlen: 6,
        hops: 0,
        xid: 0x12345678,
        secs: 0,
        flags: 0x8000,
        ciaddr: 0,
        yiaddr: omoi::bytes::ipv4_from_octets(192, 168, 0, 101),
        siaddr: 0,
        giaddr: 0,
        chaddr: vec![0, 17, 34, 51, 68, 85, 0, 0, 0, 0, 0, 0, 0, 0, 0, 0],
        sname: DhcpMessageSnameField(vec![0; 64]),
        file: DhcpMessageFileField(vec![0; 128]),
        options: DhcpOptions(vec![
            DhcpOption::MessageType(2),
            DhcpOption::SubnetMask(omoi::bytes::ipv4_from_octets(255, 255, 255, 0)),
            DhcpOption::Router(vec![omoi::bytes::ipv4_from_octets(192, 168, 0, 1)]),
            DhcpOption::AddressLeaseTime(172800),
            DhcpOption::End,
        ]),
    };
    let bytes = encode(&m).unwrap();
    let back = decode(&bytes).unwrap();
    assert_eq!(back, m);
}

#[test]
fn recognized_tag_with_wrong_length_is_kept_opaque() {
    // Subnet mask (tag 1) must carry four bytes; three bytes decode as
    // an opaque option and survive re-encoding unchanged.
    let buffer = frame_with_options(&[53, 1, 1, 1, 3, 9, 9, 9, 255]);
    let m = decode(&buffer).unwrap();
    assert!(m.options.0.contains(&DhcpOption::Unknown(1, vec![9, 9, 9])));
    let encoded = encode(&m).unwrap();
    assert_eq!(encoded, buffer);
}

#[test]
fn trailing_bytes_after_end_are_discarded() {
    let buffer = frame_with_options(&[53, 1, 1, 255, 7, 7, 7]);
    let m = decode(&buffer).unwrap();
    assert_eq!(m.options.0.last(), Some(&DhcpOption::End));
    let encoded = encode(&m).unwrap();
    assert_eq!(encoded.len(), buffer.len() - 3);
}

#[test]
fn short_frame_is_malformed() {
    let buffer = vec![1u8; 100];
    assert_eq!(decode(&buffer), Err(DhcpError::MalformedMessage));
}

#[test]
fn bad_cookie_is_malformed() {
    let mut buffer = frame_with_options(&[53, 1, 1, 255]);
    buffer[236] = 0;
    assert_eq!(decode(&buffer), Err(DhcpError::MalformedMessage));
}

#[test]
fn zero_hlen_is_malformed() {
    let mut buffer = frame_with_options(&[53, 1, 1, 255]);
    buffer[2] = 0;
    assert_eq!(decode(&buffer), Err(DhcpError::MalformedMessage));
}

#[test]
fn missing_message_type_is_malformed() {
    let buffer = frame_with_options(&[55, 2, 1, 28, 255]);
    assert_eq!(decode(&buffer), Err(DhcpError::MalformedMessage));
}

#[test]
fn option_length_past_end_is_malformed() {
    let buffer = frame_with_options(&[53, 1, 1, 55, 200, 1]);
    assert_eq!(decode(&buffer), Err(DhcpError::MalformedMessage));
}

#[test]
fn dotted_quad_is_big_endian() {
    assert_eq!(omoi::bytes::ipv4_from_octets(192, 168, 0, 101), 0xc0a8_0065);
    assert_eq!(omoi::bytes::ipv4_from_octets(255, 255, 255, 255), u32::MAX);
    assert_eq!(omoi::bytes::ipv4_from_octets(0, 0, 0, 0), 0);
    assert_eq!(omoi::bytes::read_be16(0x12, 0x34), 0x1234);
    assert_eq!(omoi::bytes::read_be32(0x12, 0x34, 0x56, 0x78), 0x1234_5678);
}
