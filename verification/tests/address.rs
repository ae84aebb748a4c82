#![allow(non_snake_case)]

use rproxy::address::{
    bracketedHostWithPort, formatHostAndPort, hostWithPort, ipText, ipv4Loopback, ipv4Text,
    ipv4Unspecified, ipv6Loopback, ipv6Text, ipv6Unspecified, portOf, unspecifiedSocketAddress,
    IpAddress, SocketAddress,
};
use rproxy::service::addressText;

fn groups(list: [u16; 8]) -> [u8; 16] {
    let mut octets = [0u8; 16];
    for i in 0..8 {
        octets[2 * i] = (list[i] >> 8) as u8;
        octets[2 * i + 1] = (list[i] & 0xff) as u8;
    }
    octets
}

#[test]
fn ipv4_addresses_are_dotted() {
    assert_eq!(ipv4Text(&[0, 0, 0, 0]), "0.0.0.0");
    assert_eq!(ipv4Text(&[192, 168, 0, 255]), "192.168.0.255");
    assert_eq!(ipText(&ipv4Loopback()), "127.0.0.1");
    assert_eq!(ipText(&ipv4Unspecified()), "0.0.0.0");
}

#[test]
fn ipv6_addresses_are_written_in_canonical_form() {
    let cases: [([u16; 8], &str); 12] = [
        ([0, 0, 0, 0, 0, 0, 0, 0], "::"),
        ([0, 0, 0, 0, 0, 0, 0, 1], "::1"),
        ([1, 0, 0, 0, 0, 0, 0, 0], "1::"),
        ([0x2001, 0xdb8, 0, 0, 0, 0, 0, 1], "2001:db8::1"),
        ([0x2001, 0xdb8, 0, 1, 1, 1, 1, 1], "2001:db8:0:1:1:1:1:1"),
        ([1, 0, 0, 2, 0, 0, 0, 3], "1:0:0:2::3"),
        ([1, 0, 0, 2, 0, 0, 3, 4], "1::2:0:0:3:4"),
        ([0xfe80, 0, 0, 0, 0xabcd, 0xef01, 0x2345, 0x6789], "fe80::abcd:ef01:2345:6789"),
        ([1, 2, 3, 4, 5, 6, 7, 8], "1:2:3:4:5:6:7:8"),
        ([0, 0, 0, 0, 0, 0xffff, 0xc000, 0x280], "::ffff:192.0.2.128"),
        ([0, 0, 0, 0, 0, 0, 0xc00a, 0x2ff], "::c00a:2ff"),
        ([0, 0, 1, 0, 0, 0xffff, 0xc000, 0x280], "::1:0:0:ffff:c000:280"),
    ];
    for (list, text) in cases {
        assert_eq!(ipv6Text(&groups(list)), text);
    }
    assert_eq!(ipText(&ipv6Loopback()), "::1");
    assert_eq!(ipText(&ipv6Unspecified()), "::");
}

#[test]
fn hosts_and_ports_are_joined() {
    assert_eq!(formatHostAndPort("example.com", 80), "example.com:80");
    assert_eq!(formatHostAndPort("1.2.3.4", 65535), "1.2.3.4:65535");
    assert_eq!(formatHostAndPort("::1", 443), "[::1]:443");
    assert_eq!(formatHostAndPort("[::1]", 443), "[::1]:443");
    assert_eq!(formatHostAndPort("", 0), ":0");
    assert_eq!(hostWithPort("a:b", 1), "a:b:1");
    assert_eq!(bracketedHostWithPort("a", 1), "[a]:1");
}

#[test]
fn addresses_are_dialled_in_the_form_of_their_family() {
    let v4 = SocketAddress { ip: IpAddress::V4([10, 0, 0, 1]), port: 53, scope: 0 };
    let v6 = SocketAddress { ip: ipv6Loopback(), port: 1082, scope: 0 };
    assert_eq!(addressText(&v4), "10.0.0.1:53");
    assert_eq!(addressText(&v6), "[::1]:1082");
    assert_eq!(addressText(&SocketAddress { scope: 12, ..v6 }), "[::1%12]:1082");
    assert_eq!(addressText(&SocketAddress { scope: 12, ..v4 }), "10.0.0.1:53");
}

#[test]
fn ports_are_big_endian() {
    assert_eq!(portOf(0x01, 0xbb), 443);
    assert_eq!(portOf(0xff, 0xff), 65535);
    assert_eq!(portOf(0, 0), 0);
}

#[test]
fn the_placeholder_names_no_host() {
    let address = unspecifiedSocketAddress();
    assert_eq!(address, SocketAddress { ip: IpAddress::V4([0, 0, 0, 0]), port: 0, scope: 0 });
}
