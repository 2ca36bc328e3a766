use channelserver::ip::{
    format_ip, is_trusted_proxy, parse_ip, parse_ipv4, parse_ipv6, parse_network,
    trusted_proxy_list, IpAddress, IpNetwork,
};

fn v4(a: u8, b: u8, c: u8, d: u8) -> IpAddress {
    IpAddress::V4(u32::from_be_bytes([a, b, c, d]))
}

#[test]
fn parses_dotted_quads() {
    assert_eq!(parse_ipv4(&b"1.2.3.4".to_vec()), Some(0x01020304));
    assert_eq!(parse_ipv4(&b"255.255.255.255".to_vec()), Some(0xffffffff));
    assert_eq!(parse_ipv4(&b"0.0.0.0".to_vec()), Some(0));
    assert_eq!(parse_ipv4(&b"256.1.1.1".to_vec()), None);
    assert_eq!(parse_ipv4(&b"1.2.3".to_vec()), None);
    assert_eq!(parse_ipv4(&b"1.2.3.4.5".to_vec()), None);
    assert_eq!(parse_ipv4(&b"01.2.3.4".to_vec()), None);
    assert_eq!(parse_ipv4(&b"a.b.c.d".to_vec()), None);
    assert_eq!(parse_ipv4(&b"".to_vec()), None);
    assert_eq!(parse_ip(&b"9.8.7.6".to_vec()), Some(v4(9, 8, 7, 6)));
}

#[test]
fn formats_addresses() {
    assert_eq!(format_ip(&v4(192, 168, 0, 10)), "192.168.0.10");
    // The longest zero run is compressed, as peers and logs expect.
    assert_eq!(format_ip(&IpAddress::V6(0)), "::");
    assert_eq!(format_ip(&IpAddress::V6(1)), "::1");
    assert_eq!(format_ip(&IpAddress::V6(1u128 << 112)), "1::");
    assert_eq!(
        format_ip(&IpAddress::V6(0x20010db8_00000000_00000000_00000042)),
        "2001:db8::42"
    );
    // A lone zero group is not compressed.
    assert_eq!(
        format_ip(&IpAddress::V6(parse_ipv6(&b"1:0:2:3:4:5:6:7".to_vec()).unwrap())),
        "1:0:2:3:4:5:6:7"
    );
    // On a tie the leftmost run is compressed.
    assert_eq!(
        format_ip(&IpAddress::V6(parse_ipv6(&b"1:0:0:2:0:0:3:4".to_vec()).unwrap())),
        "1::2:0:0:3:4"
    );
    // No run at all.
    assert_eq!(
        format_ip(&IpAddress::V6(parse_ipv6(&b"1:2:3:4:5:6:7:8".to_vec()).unwrap())),
        "1:2:3:4:5:6:7:8"
    );
}

#[test]
fn network_containment() {
    let net = parse_network(&b"10.0.0.0/8".to_vec()).unwrap();
    assert!(net.contains(&v4(10, 200, 1, 2)));
    assert!(!net.contains(&v4(11, 0, 0, 1)));
    assert!(!net.contains(&IpAddress::V6(1)));
    let host = parse_network(&b"9.9.9.9".to_vec()).unwrap();
    assert_eq!(host, IpNetwork { addr: v4(9, 9, 9, 9), prefix: 32 });
    assert!(host.contains(&v4(9, 9, 9, 9)));
    assert!(!host.contains(&v4(9, 9, 9, 8)));
    assert_eq!(parse_network(&b"10.0.0.0/33".to_vec()), None);
    assert_eq!(parse_network(&b"junk/8".to_vec()), None);
}

#[test]
fn proxy_list_includes_private_networks() {
    let list = trusted_proxy_list(&b" 192.168.0.0/24 , junk, 8.8.8.8 ".to_vec());
    // Three private networks, then the two parsable entries.
    assert_eq!(list.len(), 5);
    assert!(is_trusted_proxy(&list, &v4(10, 1, 1, 1)));
    assert!(is_trusted_proxy(&list, &v4(172, 16, 0, 9)));
    assert!(is_trusted_proxy(&list, &v4(192, 168, 77, 1)));
    assert!(is_trusted_proxy(&list, &v4(8, 8, 8, 8)));
    assert!(!is_trusted_proxy(&list, &v4(8, 8, 8, 9)));
    assert!(!is_trusted_proxy(&list, &v4(1, 2, 3, 4)));
}

#[test]
fn parses_ipv6_forms() {
    assert_eq!(parse_ipv6(&b"::".to_vec()), Some(0));
    assert_eq!(parse_ipv6(&b"::1".to_vec()), Some(1));
    assert_eq!(parse_ipv6(&b"1::".to_vec()), Some(1u128 << 112));
    assert_eq!(
        parse_ipv6(&b"1:2:3:4:5:6:7:8".to_vec()),
        Some(
            (1u128 << 112) | (2u128 << 96) | (3u128 << 80) | (4u128 << 64) | (5u128 << 48)
                | (6u128 << 32) | (7u128 << 16) | 8u128
        )
    );
    assert_eq!(
        parse_ipv6(&b"2001:db8::42".to_vec()),
        Some((0x2001u128 << 112) | (0xdb8u128 << 96) | 0x42u128)
    );
    assert_eq!(
        parse_ipv6(&b"fe80::A00:1".to_vec()),
        Some((0xfe80u128 << 112) | (0xa00u128 << 16) | 1u128)
    );
    // Malformed forms are rejected.
    assert_eq!(parse_ipv6(&b":::".to_vec()), None);
    assert_eq!(parse_ipv6(&b"1::2::3".to_vec()), None);
    assert_eq!(parse_ipv6(&b":1:2:3:4:5:6:7".to_vec()), None);
    assert_eq!(parse_ipv6(&b"1:2:3:4:5:6:7:".to_vec()), None);
    assert_eq!(parse_ipv6(&b"12345::".to_vec()), None);
    assert_eq!(parse_ipv6(&b"1:2:3:4:5:6:7:8:9".to_vec()), None);
    assert_eq!(parse_ipv6(&b"1:2:3:4:5:6:7".to_vec()), None);
    assert_eq!(parse_ipv6(&b"g::1".to_vec()), None);
    // An embedded dotted-quad tail stands for the last two groups.
    assert_eq!(
        parse_ipv6(&b"::ffff:1.2.3.4".to_vec()),
        Some((0xffffu128 << 32) | 0x01020304)
    );
    assert_eq!(
        parse_ipv6(&b"64:ff9b::192.0.2.33".to_vec()),
        Some((0x64u128 << 112) | (0xff9bu128 << 96) | 0xc0000221)
    );
    assert_eq!(
        parse_ipv6(&b"1:2:3:4:5:6:1.2.3.4".to_vec()),
        Some(
            (1u128 << 112) | (2u128 << 96) | (3u128 << 80) | (4u128 << 64) | (5u128 << 48)
                | (6u128 << 32) | 0x01020304
        )
    );
    // The quad may stand only at the end, and only once.
    assert_eq!(parse_ipv6(&b"1.2.3.4::".to_vec()), None);
    assert_eq!(parse_ipv6(&b"::1.2.3.4:1".to_vec()), None);
    assert_eq!(parse_ipv6(&b"1:2:3:4:5:6:7:1.2.3.4".to_vec()), None);
    // Either family through the shared entry point.
    assert_eq!(parse_ip(&b"::1".to_vec()), Some(IpAddress::V6(1)));
    assert_eq!(parse_ip(&b"nonsense".to_vec()), None);
    // A bare IPv6 address in the proxy list takes the full prefix.
    let host6 = parse_network(&b"::1".to_vec()).unwrap();
    assert_eq!(host6, IpNetwork { addr: IpAddress::V6(1), prefix: 128 });
    assert!(host6.contains(&IpAddress::V6(1)));
    assert!(!host6.contains(&IpAddress::V6(2)));
}

#[test]
fn loopback_detection() {
    assert!(v4(127, 0, 0, 1).is_loopback());
    assert!(v4(127, 99, 0, 200).is_loopback());
    assert!(!v4(128, 0, 0, 1).is_loopback());
    assert!(IpAddress::V6(1).is_loopback());
    assert!(!IpAddress::V6(2).is_loopback());
}
