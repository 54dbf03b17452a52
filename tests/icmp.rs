use rustmap::checksum::{internet_checksum, internet_checksum_incremental, ones_complement_sum};
use rustmap::icmp::{IcmpEchoPacket, IcmpEchoType};

#[test]
fn test_internet_checksum() {
    assert_eq!(
        internet_checksum(&[
            0x45, 0x00, 0x00, 0x73, 0x00, 0x00, 0x40, 0x00, 0x40, 0x11, 0x00, 0x00, 0xc0, 0xa8,
            0x00, 0x01, 0xc0, 0xa8, 0x00, 0xc7, 0x01
        ]),
        0xb761
    );

    assert_eq!(
        internet_checksum(&[
            0x45, 0x00, 0x00, 0x73, 0x00, 0x00, 0x40, 0x00, 0x40, 0x11, 0xb7, 0x61, 0xc0, 0xa8,
            0x00, 0x01, 0xc0, 0xa8, 0x00, 0xc7, 0x01
        ]),
        0x0000
    );
}

#[test]
fn checksum_of_nothing_is_all_ones() {
    assert_eq!(internet_checksum(&[]), 0xFFFF);
}

#[test]
fn ones_complement_sum_carries_around() {
    assert_eq!(ones_complement_sum(0xFFFF, 0x0001), 0x0001);
    assert_eq!(ones_complement_sum(0x8000, 0x8000), 0x0001);
    assert_eq!(ones_complement_sum(0x1234, 0x0001), 0x1235);
    assert_eq!(ones_complement_sum(0, 0), 0);
}

#[test]
fn checksum_continues_over_split_input() {
    let bytes = [
        0x45u8, 0x00, 0x00, 0x73, 0x00, 0x00, 0x40, 0x00, 0x40, 0x11, 0x00, 0x00, 0xc0, 0xa8,
        0x00, 0x01, 0xc0, 0xa8, 0x00, 0xc7, 0x01,
    ];
    let head = internet_checksum(&bytes[..8]);
    assert_eq!(internet_checksum_incremental(head, &bytes[8..]), 0xb761);
}

#[test]
fn encode_writes_header_and_checksum() {
    let p = IcmpEchoPacket::new(IcmpEchoType::Request, 0x1234, 0x0001, &[0xAB]);
    let bytes = p.encode();
    assert_eq!(bytes.len(), 9);
    assert_eq!(&bytes[0..2], &[8, 0]);
    assert_eq!(&bytes[4..], &[0x12, 0x34, 0x00, 0x01, 0xAB]);
    // 0x0800 + 0x1234 + 0x0001 + 0xAB00 = 0xC535, complemented
    assert_eq!(&bytes[2..4], &[0x3A, 0xCA]);
    assert_eq!(internet_checksum(&bytes), 0);
}

#[test]
fn encoded_ipv4_packets_check_to_zero() {
    for t in [IcmpEchoType::Request, IcmpEchoType::Reply] {
        let p = IcmpEchoPacket::new(t, 54321, 7, b"rustmap/0.1.0");
        assert_eq!(internet_checksum(&p.encode()), 0);
    }
}

#[test]
fn ipv6_kinds_leave_checksum_zero() {
    let p = IcmpEchoPacket::new(IcmpEchoType::RequestV6, 0xFFFF, 0xFFFF, &[1, 2, 3]);
    let bytes = p.encode();
    assert_eq!(bytes, vec![128, 0, 0, 0, 0xFF, 0xFF, 0xFF, 0xFF, 1, 2, 3]);
    let r = IcmpEchoPacket::new(IcmpEchoType::ReplyV6, 1, 2, &[]);
    assert_eq!(r.encode(), vec![129, 0, 0, 0, 0, 1, 0, 2]);
}

#[test]
fn decode_of_encode_gives_the_packet_back() {
    for t in [
        IcmpEchoType::Reply,
        IcmpEchoType::ReplyV6,
        IcmpEchoType::Request,
        IcmpEchoType::RequestV6,
    ] {
        let p = IcmpEchoPacket::new(t, 0xBEEF, 0x0102, &[9, 8, 7, 6, 5]);
        let q = IcmpEchoPacket::from(&p.encode()).unwrap();
        assert_eq!(q.type_, t);
        assert_eq!(q.identifier, 0xBEEF);
        assert_eq!(q.sequence_number, 0x0102);
        assert_eq!(q.data, vec![9, 8, 7, 6, 5]);
        assert_eq!(q.len(), 13);
    }
}

#[test]
fn decode_rejects_bad_code_and_type() {
    assert!(IcmpEchoPacket::from(&[0, 1, 0, 0, 0, 0, 0, 0]).is_none());
    assert!(IcmpEchoPacket::from(&[3, 0, 0, 0, 0, 0, 0, 0]).is_none());
    assert!(IcmpEchoPacket::from(&[0, 0, 0, 0, 0, 0, 0]).is_none());
    assert!(IcmpEchoPacket::from(&[]).is_none());
    let p = IcmpEchoPacket::from(&[0, 0, 0xAA, 0xBB, 0, 5, 0, 6]).unwrap();
    assert_eq!(p.type_, IcmpEchoType::Reply);
    assert_eq!(p.identifier, 5);
    assert_eq!(p.sequence_number, 6);
    assert!(p.data.is_empty());
}

#[test]
fn from_ipv4_strips_the_ip_header() {
    let mut buf = vec![0x45u8];
    buf.extend_from_slice(&[0; 19]);
    buf.extend_from_slice(&[0, 0, 0x12, 0x34, 0x30, 0x39, 0, 0, 0x61]);
    let p = IcmpEchoPacket::from_ipv4(&buf).unwrap();
    assert_eq!(p.type_, IcmpEchoType::Reply);
    assert_eq!(p.identifier, 12345);
    assert_eq!(p.data, vec![0x61]);
    assert!(IcmpEchoPacket::from_ipv4(&[0x4F, 0, 0]).is_none());
    assert!(IcmpEchoPacket::from_ipv4(&[]).is_none());
}

#[test]
fn write_header_leaves_payload_bytes() {
    let p = IcmpEchoPacket::new(IcmpEchoType::RequestV6, 1, 2, &[]);
    let mut buf = [7u8; 10];
    p.write_header_to(&mut buf);
    assert_eq!(buf, [128, 0, 0, 0, 0, 1, 0, 2, 7, 7]);
}

#[test]
fn echo_type_codes() {
    assert_eq!(IcmpEchoType::Reply.code(), 0);
    assert_eq!(IcmpEchoType::ReplyV6.code(), 129);
    assert_eq!(IcmpEchoType::Request.code(), 8);
    assert_eq!(IcmpEchoType::RequestV6.code(), 128);
    assert_eq!(IcmpEchoType::from_code(128), Some(IcmpEchoType::RequestV6));
    assert_eq!(IcmpEchoType::from_code(1), None);
    assert_eq!(IcmpEchoType::default(), IcmpEchoType::Reply);
}
