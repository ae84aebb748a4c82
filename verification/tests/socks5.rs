#![allow(non_snake_case)]

use rproxy::address::{IpAddress, SocketAddress};
use rproxy::error::{ErrorKind, ProxyError};
use rproxy::socks5::{
    appendSocks5UdpHeader, buildSocks5ReplyPacket, buildSocks5UdpResponse, firstSocketAddress,
    parseSocks5UdpTarget, planSocks5UdpPacket, relayBindAddress,
};
use rproxy::socks5_session::{associationAddress, Socks5Action, Socks5Session};
use rproxy::udp_session::{UdpAction, UdpSession};

const LOCAL6: [u8; 16] = [0, 0, 0, 0, 0, 0, 0, 0, 0, 0, 0, 0, 0, 0, 0, 1];

fn v4(a: u8, b: u8, c: u8, d: u8, port: u16) -> SocketAddress {
    SocketAddress { ip: IpAddress::V4([a, b, c, d]), port, scope: 0 }
}

fn v6(port: u16) -> SocketAddress {
    SocketAddress { ip: IpAddress::V6(LOCAL6), port, scope: 0 }
}

/// Feeds a handshake to a session until it asks for something other than bytes; returns what
/// was written and that action.
fn shake(session: &mut Socks5Session, mut stream: &[u8]) -> (Vec<u8>, Result<Socks5Action, ProxyError>) {
    let mut written = Vec::new();
    loop {
        match session.next() {
            Ok(Socks5Action::ReadExact(n)) => {
                let (front, rest) = stream.split_at(n);
                stream = rest;
                if let Err(e) = session.receive(front) {
                    return (written, Err(e));
                }
            }
            Ok(Socks5Action::Write(bytes)) => written.extend_from_slice(&bytes),
            other => {
                assert!(other.is_err() || stream.is_empty());
                return (written, other);
            }
        }
    }
}

fn failure(stream: &[u8]) -> (Vec<u8>, ErrorKind, String) {
    let mut session = Socks5Session::new();
    let (written, outcome) = shake(&mut session, stream);
    let e = outcome.unwrap_err();
    assert!(matches!(session.next(), Ok(Socks5Action::Close)));
    (written, e.kind, e.message)
}

fn target(stream: &[u8]) -> String {
    match shake(&mut Socks5Session::new(), stream) {
        (written, Ok(Socks5Action::Connect(address))) => {
            assert_eq!(written, [5, 0]);
            address
        }
        other => panic!("{:?}", other),
    }
}

#[test]
fn connect_requests_are_dialled() {
    assert_eq!(target(&[5, 1, 0, 5, 1, 0, 1, 10, 0, 0, 7, 0x1f, 0x90]), "10.0.0.7:8080");
    let mut request = vec![5, 2, 2, 0, 5, 1, 0, 4];
    request.extend_from_slice(&LOCAL6);
    request.extend_from_slice(&[0x01, 0xbb]);
    assert_eq!(target(&request), "[::1]:443");
    let mut request = vec![5, 1, 0, 5, 1, 0, 3, 11];
    request.extend_from_slice(b"example.com");
    request.extend_from_slice(&[0, 80]);
    assert_eq!(target(&request), "example.com:80");
}

#[test]
fn a_connection_is_confirmed_with_its_local_address() {
    let mut session = Socks5Session::new();
    shake(&mut session, &[5, 1, 0, 5, 1, 0, 1, 10, 0, 0, 7, 0, 80]);
    session.connected(Some(v4(192, 168, 1, 2, 0x1234)));
    let (written, outcome) = shake(&mut session, &[]);
    assert_eq!(written, [5, 0, 0, 1, 192, 168, 1, 2, 0x12, 0x34]);
    assert!(matches!(outcome, Ok(Socks5Action::Relay)));
    assert!(matches!(session.next(), Ok(Socks5Action::Close)));

    let mut session = Socks5Session::new();
    shake(&mut session, &[5, 1, 0, 5, 1, 0, 1, 10, 0, 0, 7, 0, 80]);
    session.connected(None);
    assert_eq!(shake(&mut session, &[]).0, [5, 0, 0, 1, 0, 0, 0, 0, 0, 0]);
}

#[test]
fn a_failed_connection_is_reported() {
    let mut session = Socks5Session::new();
    shake(&mut session, &[5, 1, 0, 5, 1, 0, 1, 10, 0, 0, 7, 0, 80]);
    session.connectFailed(std::io::ErrorKind::ConnectionRefused, "no route");
    let (written, outcome) = shake(&mut session, &[]);
    assert_eq!(written, [5, 5, 0, 1, 0, 0, 0, 0, 0, 0]);
    let e = outcome.unwrap_err();
    assert_eq!((e.kind, e.message), (
        ErrorKind::ConnectFailed(std::io::ErrorKind::ConnectionRefused),
        "SOCKS5 connect 10.0.0.7:80 failed: no route".to_string(),
    ));
}

#[test]
fn an_association_lasts_as_long_as_its_connection() {
    for (local, expected) in [
        (Some(v4(127, 0, 0, 1, 1082)), v4(127, 0, 0, 1, 1082)),
        (Some(v4(10, 0, 0, 1, 7)), v4(127, 0, 0, 1, 1082)),
        (Some(v6(1082)), v6(1082)),
        (None, v4(127, 0, 0, 1, 1082)),
    ] {
        let mut session = Socks5Session::new();
        let (_, outcome) = shake(&mut session, &[5, 1, 0, 5, 3, 0, 1, 0, 0, 0, 0, 0, 0]);
        assert!(matches!(outcome, Ok(Socks5Action::Associate)));
        assert_eq!(session.associate(local), expected);
        assert_eq!(associationAddress(local), expected);
        let (written, outcome) = shake(&mut session, &[]);
        assert_eq!(written, buildSocks5ReplyPacket(0, &expected));
        assert!(matches!(outcome, Ok(Socks5Action::Hold)));
        assert!(matches!(session.next(), Ok(Socks5Action::Close)));
    }
}

#[test]
fn bad_handshakes_are_refused() {
    let invalid = ErrorKind::InvalidData;
    assert_eq!(failure(&[4, 1]), (vec![], invalid, "unsupported SOCKS version".to_string()));
    let no_method = "SOCKS5 no-auth method is not supported by client".to_string();
    assert_eq!(failure(&[5, 1, 2]), (vec![5, 0xff], invalid, no_method.clone()));
    assert_eq!(failure(&[5, 0]), (vec![5, 0xff], invalid, no_method));
    let header = "invalid SOCKS5 request header".to_string();
    assert_eq!(failure(&[5, 1, 0, 4, 1, 0, 1]), (vec![5, 0], invalid, header.clone()));
    assert_eq!(failure(&[5, 1, 0, 5, 1, 9, 1]), (vec![5, 0], invalid, header));
    assert_eq!(
        failure(&[5, 1, 0, 5, 1, 0, 2]),
        (vec![5, 0], invalid, "unsupported SOCKS5 address type 2".to_string())
    );
    assert_eq!(
        failure(&[5, 1, 0, 5, 1, 0, 3, 0]),
        (vec![5, 0], invalid, "empty SOCKS5 domain".to_string())
    );
    let reason = String::from_utf8(vec![0xff]).unwrap_err().to_string();
    assert_eq!(
        failure(&[5, 1, 0, 5, 1, 0, 3, 1, 0xff, 0, 80]),
        (vec![5, 0], invalid, format!("invalid SOCKS5 domain: {}", reason))
    );
    assert_eq!(
        failure(&[5, 1, 0, 5, 2, 0, 1, 1, 2, 3, 4, 0, 80]),
        (
            vec![5, 0, 5, 7, 0, 1, 0, 0, 0, 0, 0, 0],
            invalid,
            "unsupported SOCKS5 command 2".to_string(),
        )
    );
}

#[test]
fn replies_name_an_address() {
    assert_eq!(
        buildSocks5ReplyPacket(0, &v4(1, 2, 3, 4, 258)),
        [5, 0, 0, 1, 1, 2, 3, 4, 1, 2]
    );
    let reply = buildSocks5ReplyPacket(9, &v6(1));
    assert_eq!(reply.len(), 22);
    assert_eq!(reply[..4], [5, 9, 0, 4]);
    assert_eq!(reply[4..20], LOCAL6);
    assert_eq!(reply[20..], [0, 1]);
}

#[test]
fn udp_targets_are_parsed() {
    assert_eq!(
        parseSocks5UdpTarget(&[0, 0, 0, 1, 8, 8, 4, 4, 0, 53, 9]).unwrap(),
        ("8.8.4.4".to_string(), 53, 10)
    );
    assert_eq!(
        parseSocks5UdpTarget(&[0, 0, 0, 3, 2, b'a', b'b', 1, 0]).unwrap(),
        ("ab".to_string(), 256, 9)
    );
    let mut packet = vec![0, 0, 0, 4];
    packet.extend_from_slice(&LOCAL6);
    packet.extend_from_slice(&[0, 7]);
    assert_eq!(parseSocks5UdpTarget(&packet).unwrap(), ("::1".to_string(), 7, 22));
}

#[test]
fn bad_udp_targets_are_refused() {
    let reason = String::from_utf8(vec![b'a', 0xc3]).unwrap_err().to_string();
    let utf8 = format!("invalid UDP domain: {}", reason);
    let cases: [(&[u8], &str); 8] = [
        (&[0, 0, 0, 1, 1, 2, 3, 4, 0], "invalid IPv4 UDP packet"),
        (&[0, 0, 0, 3], "invalid domain UDP packet"),
        (&[0, 0, 0, 3, 0, 0, 0], "invalid domain length in UDP packet"),
        (&[0, 0, 0, 3, 2, b'a', b'b', 0], "invalid domain length in UDP packet"),
        (&[0, 0, 0, 3, 2, b'a', 0xc3, 0, 80], &utf8),
        (&[0, 0, 0, 4, 1, 2, 3], "invalid IPv6 UDP packet"),
        (&[0, 0, 0, 0], "unsupported SOCKS5 UDP address type 0"),
        (&[0, 0, 0, 255], "unsupported SOCKS5 UDP address type 255"),
    ];
    for (packet, message) in cases {
        let e = parseSocks5UdpTarget(packet).unwrap_err();
        assert_eq!((e.kind, e.message), (ErrorKind::InvalidData, message.to_string()));
    }
}

#[test]
fn udp_headers_are_read_back() {
    for (address, host) in [(v4(9, 8, 7, 6, 5353), "9.8.7.6"), (v6(65535), "::1")] {
        let packet = buildSocks5UdpResponse(&address, b"data");
        let (name, port, start) = parseSocks5UdpTarget(&packet).unwrap();
        assert_eq!((name.as_str(), port), (host, address.port));
        assert_eq!(&packet[start..], b"data");
        let mut header = vec![1, 2];
        appendSocks5UdpHeader(&mut header, &address);
        assert_eq!(header[..2], [1, 2]);
        assert_eq!(header[2..], packet[..start]);
    }
}

#[test]
fn datagrams_are_dropped_or_sent_on() {
    for packet in [
        &[][..],
        &[0, 0, 0],
        &[1, 0, 0, 1, 1, 2, 3, 4, 0, 80, 9],
        &[0, 1, 0, 1, 1, 2, 3, 4, 0, 80, 9],
        &[0, 0, 1, 1, 1, 2, 3, 4, 0, 80, 9],
        &[0, 0, 0, 1, 1, 2, 3, 4, 0, 80],
    ] {
        assert!(planSocks5UdpPacket(packet).unwrap().is_none(), "{:?}", packet);
    }
    let relay = planSocks5UdpPacket(&[0, 0, 0, 1, 1, 2, 3, 4, 0, 80, 9, 8]).unwrap().unwrap();
    assert_eq!(relay.target, "1.2.3.4:80");
    assert_eq!(relay.payload, [9, 8]);
}

#[test]
fn the_first_address_counts() {
    assert_eq!(firstSocketAddress(&[v6(1), v4(1, 1, 1, 1, 1)]).unwrap(), v6(1));
    let e = firstSocketAddress(&[]).unwrap_err();
    assert_eq!((e.kind, e.message), (
        ErrorKind::InvalidData,
        "DNS resolution returned no address".to_string(),
    ));
    assert_eq!(relayBindAddress(&v4(1, 2, 3, 4, 5)), v4(0, 0, 0, 0, 0));
    assert_eq!(
        relayBindAddress(&v6(5)),
        SocketAddress { ip: IpAddress::V6([0; 16]), port: 0, scope: 0 }
    );
}

#[test]
fn a_datagram_goes_out_and_its_answer_comes_back() {
    let mut packet = vec![0, 0, 0, 3, 3];
    packet.extend_from_slice(b"dns");
    packet.extend_from_slice(&[0, 53]);
    packet.extend_from_slice(b"query");
    let mut session = UdpSession::new(packet);
    match session.next().unwrap() {
        UdpAction::Resolve(name) => assert_eq!(name, "dns:53"),
        other => panic!("{:?}", other),
    }
    session.resolved(&[v4(9, 9, 9, 9, 53), v6(53)]).unwrap();
    match session.next().unwrap() {
        UdpAction::Bind(address) => assert_eq!(address, v4(0, 0, 0, 0, 0)),
        other => panic!("{:?}", other),
    }
    match session.next().unwrap() {
        UdpAction::Send { payload, target } => {
            assert_eq!(payload, b"query");
            assert_eq!(target, v4(9, 9, 9, 9, 53));
        }
        other => panic!("{:?}", other),
    }
    assert!(matches!(session.next(), Ok(UdpAction::Receive)));
    session.received(&v4(9, 9, 9, 9, 53), b"answer");
    match session.next().unwrap() {
        UdpAction::Reply(bytes) => {
            assert_eq!(bytes, buildSocks5UdpResponse(&v4(9, 9, 9, 9, 53), b"answer"))
        }
        other => panic!("{:?}", other),
    }
    assert!(matches!(session.next(), Ok(UdpAction::Close)));
}

#[test]
fn a_datagram_may_come_to_nothing() {
    let mut session = UdpSession::new(vec![0, 0]);
    assert!(matches!(session.next(), Ok(UdpAction::Close)));

    let mut session = UdpSession::new(vec![0, 0, 0, 9]);
    assert_eq!(session.next().unwrap_err().message, "unsupported SOCKS5 UDP address type 9");

    let mut session = UdpSession::new(vec![0, 0, 0, 1, 1, 2, 3, 4, 0, 80, 9]);
    assert!(matches!(session.next(), Ok(UdpAction::Resolve(_))));
    assert_eq!(
        session.resolved(&[]).unwrap_err().message,
        "DNS resolution returned no address"
    );
    assert!(matches!(session.next(), Ok(UdpAction::Close)));

    let mut session = UdpSession::new(vec![0, 0, 0, 1, 1, 2, 3, 4, 0, 80, 9]);
    assert!(session.timedOut("late").is_none());
    session.next().unwrap();
    session.resolved(&[v4(1, 2, 3, 4, 80)]).unwrap();
    session.next().unwrap();
    session.next().unwrap();
    let note = session.timedOut("late").unwrap();
    assert_eq!(note.message, "SOCKS5 UDP response timeout from 1.2.3.4:80: late");
    assert!(matches!(session.next(), Ok(UdpAction::Close)));

    let mut session = UdpSession::Waiting { target: SocketAddress { scope: 3, ..v6(80) } };
    assert_eq!(
        session.timedOut("late").unwrap().message,
        "SOCKS5 UDP response timeout from [::1%3]:80: late"
    );
}

#[test]
fn a_datagram_is_taken_alone_out_of_its_buffer() {
    let mut buffer = vec![7u8; 16];
    buffer[..2].copy_from_slice(&[1, 2]);
    match UdpSession::fromBuffer(&buffer, 2) {
        UdpSession::Received { packet } => assert_eq!(packet, [1, 2]),
        other => panic!("{:?}", other),
    }
}
