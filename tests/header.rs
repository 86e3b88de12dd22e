use ring_bridge::header::{frame_headers, IPv4Address, IPv4Header, MacAddress, MacHeader};
use ring_bridge::poll::{has_error, next_step, PollStep};

fn ipv4_frame() -> Vec<u8> {
    let mut f = vec![
        0xff, 0xff, 0xff, 0xff, 0xff, 0xff, 0x00, 0x1a, 0x2b, 0x3c, 0x4d, 0x5e, 0x08, 0x00,
    ];
    f.extend_from_slice(&[0x45, 0, 0, 40, 0, 0, 0, 0, 64, 6, 0, 0]);
    f.extend_from_slice(&[192, 168, 1, 1, 10, 0, 0, 254]);
    f.extend_from_slice(&[0xaa; 6]);
    f
}

#[test]
fn type_0800_is_ipv4() {
    let h = MacHeader::parse(&ipv4_frame()).unwrap();
    assert_eq!(h.ethertype(), 0x0800);
    assert!(h.is_ipv4());
    assert_eq!(h.ethertype_string(), "IPv4");
}

#[test]
fn other_types_are_unknown() {
    for (hi, lo) in [(0x86u8, 0xddu8), (0x00, 0x08), (0x08, 0x06), (0x00, 0x00), (0xff, 0xff)] {
        let mut f = ipv4_frame();
        f[12] = hi;
        f[13] = lo;
        let h = MacHeader::parse(&f).unwrap();
        assert_eq!(h.ethertype(), (hi as u16) << 8 | lo as u16);
        assert!(!h.is_ipv4());
        assert_eq!(h.ethertype_string(), "Unknown");
    }
}

#[test]
fn mac_address_renders_as_hex_octets() {
    let m = MacAddress(0x00, 0x1a, 0x2b, 0x3c, 0x4d, 0x5e);
    assert_eq!(m.to_string(), "00:1a:2b:3c:4d:5e");
    assert_eq!(MacAddress(0xff, 0xa0, 0x09, 0x10, 0xbc, 0x01).to_string(), "ff:a0:09:10:bc:01");
}

#[test]
fn ipv4_address_renders_dotted_decimal() {
    assert_eq!(IPv4Address(192, 168, 1, 1).to_string(), "192.168.1.1");
    assert_eq!(IPv4Address(0, 10, 255, 99).to_string(), "0.10.255.99");
}

#[test]
fn mac_header_fields_and_text() {
    let h = MacHeader::parse(&ipv4_frame()).unwrap();
    assert_eq!(h.dst, MacAddress(0xff, 0xff, 0xff, 0xff, 0xff, 0xff));
    assert_eq!(h.src, MacAddress(0x00, 0x1a, 0x2b, 0x3c, 0x4d, 0x5e));
    assert_eq!(h.to_string(), "Type IPv4. 00:1a:2b:3c:4d:5e -> ff:ff:ff:ff:ff:ff");
}

#[test]
fn short_frame_has_no_header() {
    assert_eq!(MacHeader::parse(&[0u8; 13]), None);
    assert_eq!(MacHeader::parse(&[]), None);
    assert!(MacHeader::parse(&[0u8; 14]).is_some());
    assert_eq!(frame_headers(&[1u8; 10]), (None, None));
}

#[test]
fn ipv4_header_addresses() {
    let f = ipv4_frame();
    let ip = IPv4Header::parse(&f).unwrap();
    assert_eq!(ip.src, IPv4Address(192, 168, 1, 1));
    assert_eq!(ip.dst, IPv4Address(10, 0, 0, 254));
    assert_eq!(ip.to_string(), "192.168.1.1 -> 10.0.0.254");
    assert_eq!(IPv4Header::parse(&f[..33]), None);
}

#[test]
fn frame_headers_follow_the_type() {
    let f = ipv4_frame();
    let (mac, ip) = frame_headers(&f);
    assert!(mac.unwrap().is_ipv4());
    assert_eq!(ip.unwrap().src, IPv4Address(192, 168, 1, 1));

    let mut arp = f.clone();
    arp[13] = 0x06;
    let (mac, ip) = frame_headers(&arp);
    assert_eq!(mac.unwrap().ethertype(), 0x0806);
    assert_eq!(ip, None);

    let (mac, ip) = frame_headers(&f[..20]);
    assert!(mac.is_some());
    assert_eq!(ip, None);
}

#[test]
fn poll_status_decides_the_step() {
    assert_eq!(next_step(-1), PollStep::Fatal);
    assert_eq!(next_step(0), PollStep::Idle);
    assert_eq!(next_step(1), PollStep::Transfer);
    assert_eq!(next_step(2), PollStep::Transfer);
    assert!(has_error(0x0009, 0x0008));
    assert!(!has_error(0x0001, 0x0008));
}
