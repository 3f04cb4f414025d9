use quilkin::net::address::{
    AddressKind, EndpointAddress, IpAddr, Ipv4Addr, Ipv6Addr, SocketAddr,
};

fn v6(segments: [u16; 8]) -> IpAddr {
    IpAddr::V6(Ipv6Addr::new(segments))
}

#[test]
fn ipv4_is_written_in_dotted_decimal() {
    assert_eq!(IpAddr::V4(Ipv4Addr::new(0, 0, 0, 0)).to_string(), "0.0.0.0");
    assert_eq!(IpAddr::V4(Ipv4Addr::new(127, 0, 0, 1)).to_string(), "127.0.0.1");
    assert_eq!(
        IpAddr::V4(Ipv4Addr::new(255, 255, 255, 255)).to_string(),
        "255.255.255.255"
    );
    assert_eq!(IpAddr::V4(Ipv4Addr::new(9, 10, 99, 100)).to_string(), "9.10.99.100");
    assert_eq!(IpAddr::V4(Ipv4Addr::new(1, 20, 109, 200)).to_string(), "1.20.109.200");
}

#[test]
fn ipv6_is_written_with_its_longest_zero_run_shortened() {
    assert_eq!(v6([0; 8]).to_string(), "::");
    assert_eq!(v6([0, 0, 0, 0, 0, 0, 0, 1]).to_string(), "::1");
    assert_eq!(v6([1, 0, 0, 0, 0, 0, 0, 0]).to_string(), "1::");
    assert_eq!(
        v6([0x2001, 0xdb8, 0, 0, 0, 0, 0, 1]).to_string(),
        "2001:db8::1"
    );
    assert_eq!(
        v6([0x2001, 0xdb8, 0x85a3, 0, 0, 0x8a2e, 0x370, 0x7334]).to_string(),
        "2001:db8:85a3::8a2e:370:7334"
    );
    assert_eq!(
        v6([0xfe80, 0, 0, 0, 0xabcd, 0xef01, 0x10, 0xffff]).to_string(),
        "fe80::abcd:ef01:10:ffff"
    );
}

#[test]
fn ipv6_without_a_run_of_two_zeros_is_written_in_full() {
    assert_eq!(
        v6([1, 2, 3, 4, 5, 6, 7, 8]).to_string(),
        "1:2:3:4:5:6:7:8"
    );
    assert_eq!(
        v6([1, 0, 3, 0, 5, 0, 7, 0]).to_string(),
        "1:0:3:0:5:0:7:0"
    );
    assert_eq!(
        v6([0, 2, 3, 4, 5, 6, 7, 8]).to_string(),
        "0:2:3:4:5:6:7:8"
    );
    assert_eq!(
        v6([0x1000, 0x100, 0x10, 0x1, 0xfff, 0xff, 0xf, 0xabcd]).to_string(),
        "1000:100:10:1:fff:ff:f:abcd"
    );
}

#[test]
fn of_two_runs_of_equal_length_the_first_is_shortened() {
    assert_eq!(
        v6([1, 0, 0, 4, 5, 0, 0, 8]).to_string(),
        "1::4:5:0:0:8"
    );
    assert_eq!(
        v6([1, 0, 0, 4, 0, 0, 0, 8]).to_string(),
        "1:0:0:4::8"
    );
    assert_eq!(
        v6([0, 0, 3, 4, 5, 6, 0, 0]).to_string(),
        "::3:4:5:6:0:0"
    );
    assert_eq!(
        v6([1, 2, 3, 4, 5, 6, 0, 0]).to_string(),
        "1:2:3:4:5:6::"
    );
}

#[test]
fn text_of_more_addresses() {
    let addresses = [
        ([0, 0, 0, 0, 0, 0xffff, 0x0102, 0x0304], "::ffff:1.2.3.4", "1.2.3.4"),
        ([0, 0, 0, 0, 0, 0, 0x0102, 0x0304], "::102:304", "::102:304"),
        (
            [0x2001, 0xdb8, 0, 0, 1, 0, 0, 1],
            "2001:db8::1:0:0:1",
            "2001:db8::1:0:0:1",
        ),
        ([0x2001, 0, 0, 1, 0, 0, 0, 1], "2001:0:0:1::1", "2001:0:0:1::1"),
        (
            [0xffff; 8],
            "ffff:ffff:ffff:ffff:ffff:ffff:ffff:ffff",
            "ffff:ffff:ffff:ffff:ffff:ffff:ffff:ffff",
        ),
        ([0, 1, 0, 0, 0, 1, 0, 0], "0:1::1:0:0", "0:1::1:0:0"),
        (
            [0x64, 0xff9b, 0, 0, 0, 0, 0xc000, 0x221],
            "64:ff9b::c000:221",
            "64:ff9b::c000:221",
        ),
    ];
    for (segments, text, canonical) in addresses {
        assert_eq!(v6(segments).to_string(), text);
        assert_eq!(v6(segments).to_canonical().to_string(), canonical);
    }
}

#[test]
fn mapped_address_becomes_ipv4() {
    let mapped = v6([0, 0, 0, 0, 0, 0xffff, 0xc0a8, 0x0102]);
    assert_eq!(mapped.to_string(), "::ffff:192.168.1.2");
    let canonical = mapped.to_canonical();
    assert!(matches!(canonical, IpAddr::V4(_)));
    assert_eq!(canonical.to_string(), "192.168.1.2");
    assert!(canonical.same(&IpAddr::V4(Ipv4Addr::new(192, 168, 1, 2))));
}

#[test]
fn other_addresses_are_canonical_already() {
    let plain = IpAddr::V4(Ipv4Addr::new(1, 2, 3, 4));
    assert!(plain.to_canonical().same(&plain));
    // compatible, not mapped: the sixth segment is zero
    let compatible = v6([0, 0, 0, 0, 0, 0, 0xc0a8, 0x0102]);
    assert!(compatible.to_canonical().same(&compatible));
    assert_eq!(compatible.to_string(), "::c0a8:102");
    let almost = v6([0, 0, 0, 0, 1, 0xffff, 0xc0a8, 0x0102]);
    assert!(almost.to_canonical().same(&almost));
    assert!(!almost.same(&compatible));
    assert!(!plain.same(&compatible));
}

#[test]
fn endpoint_addresses_compare_by_host_and_port() {
    let ip = IpAddr::V4(Ipv4Addr::new(127, 0, 0, 1));
    let a = EndpointAddress::new(AddressKind::Ip(ip), 80);
    let b = EndpointAddress::from_socket_addr(SocketAddr::new(ip, 80));
    let c = EndpointAddress::new(AddressKind::Ip(ip), 81);
    let d = EndpointAddress::new(AddressKind::Name("localhost".into()), 80);
    let e = EndpointAddress::new(AddressKind::Name("localhost".into()), 80);
    assert_eq!(a, b);
    assert_ne!(a, c);
    assert_ne!(a, d);
    assert_eq!(d, e);
    assert_eq!(a.clone(), a);
    assert_eq!(d.clone(), d);
    assert_eq!(c.port(), 81);
    let socket = SocketAddr::new(ip, 9);
    assert_eq!(socket.port(), 9);
    assert!(socket.ip().same(&ip));
}
