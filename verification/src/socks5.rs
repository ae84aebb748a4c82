//! SOCKS5 on the wire: replies, addresses and the datagrams of a UDP association.

use vstd::prelude::*;
use vstd::slice::slice_subrange;
use vstd::utf8::{
    decode_utf8, encode_utf8, encode_utf8_decode_utf8, encode_utf8_valid_utf8, valid_utf8,
};

use crate::address::{
    formatHostAndPort, host_and_port, ip_text, ipv4_text, ipv4Text, ipv4Unspecified, ipv6_text,
    ipv6Text, ipv6Unspecified, law_port_round_trip, port_bytes, port_of, portOf, IpAddress,
    SocketAddress,
};
use crate::error::{detailed, invalid, invalidData, ErrorKind, ErrorView, ProxyError};
use crate::number::{decimal, pushDecimal};
use crate::stream::appendBytes;
use crate::text::{textFromUtf8, utf8_error_text};

verus! {

// ---------------------------------------------------------------------------------------------
// Writing addresses
// ---------------------------------------------------------------------------------------------

/// The byte that announces the family of an address.
pub open spec fn address_type(ip: IpAddress) -> u8 {
    match ip {
        IpAddress::V4(_) => 1,
        IpAddress::V6(_) => 4,
    }
}

/// An address on the wire: its type, its bytes and the port.
pub open spec fn address_bytes(address: SocketAddress) -> Seq<u8> {
    seq![address_type(address.ip)] + address.ip.octets() + port_bytes(address.port)
}

/// A reply with the given code.
pub open spec fn reply_packet(code: u8, address: SocketAddress) -> Seq<u8> {
    seq![5u8, code, 0] + address_bytes(address)
}

/// What stands in front of the payload of a datagram: two reserved bytes, no fragment, and the
/// address.
pub open spec fn udp_header(address: SocketAddress) -> Seq<u8> {
    seq![0u8, 0, 0] + address_bytes(address)
}

fn pushAddress(packet: &mut Vec<u8>, address: &SocketAddress)
    ensures
        final(packet)@ == old(packet)@ + address_bytes(*address),
{
    let ghost start = packet@;
    match &address.ip {
        IpAddress::V4(bytes) => {
            packet.push(1);
            appendBytes(packet, bytes.as_slice());
        },
        IpAddress::V6(bytes) => {
            packet.push(4);
            appendBytes(packet, bytes.as_slice());
        },
    }
    packet.push((address.port / 256) as u8);
    packet.push((address.port % 256) as u8);
    assert(packet@ =~= start + address_bytes(*address));
}

/// Builds a reply to a SOCKS5 request.
pub fn buildSocks5ReplyPacket(replyCode: u8, boundAddress: &SocketAddress) -> (packet: Vec<u8>)
    ensures
        packet@ == reply_packet(replyCode, *boundAddress),
{
    let mut packet: Vec<u8> = Vec::with_capacity(22);
    packet.push(5);
    packet.push(replyCode);
    packet.push(0);
    assert(packet@ =~= seq![5u8, replyCode, 0]);
    pushAddress(&mut packet, boundAddress);
    packet
}

/// Appends what stands in front of the payload of a datagram.
pub fn appendSocks5UdpHeader(packet: &mut Vec<u8>, remoteAddress: &SocketAddress)
    ensures
        final(packet)@ == old(packet)@ + udp_header(*remoteAddress),
{
    let ghost start = packet@;
    packet.push(0);
    packet.push(0);
    packet.push(0);
    assert(packet@ =~= start + seq![0u8, 0, 0]);
    pushAddress(packet, remoteAddress);
    assert(packet@ =~= start + udp_header(*remoteAddress));
}

/// Wraps a datagram from a remote host for the client.
pub fn buildSocks5UdpResponse(remoteAddress: &SocketAddress, data: &[u8]) -> (packet: Vec<u8>)
    ensures
        packet@ == udp_header(*remoteAddress) + data@,
{
    let mut packet: Vec<u8> = Vec::new();
    appendSocks5UdpHeader(&mut packet, remoteAddress);
    appendBytes(&mut packet, data);
    assert(packet@ =~= udp_header(*remoteAddress) + data@);
    packet
}

// ---------------------------------------------------------------------------------------------
// Reading addresses
// ---------------------------------------------------------------------------------------------

/// The error for something unsupported that a number names.
pub open spec fn unsupported(lead: Seq<char>, number: u8) -> ErrorView {
    invalid(lead + decimal(number as nat))
}

/// Builds the error for something unsupported that a number names.
pub fn unsupportedError(lead: &str, number: u8) -> (e: ProxyError)
    ensures
        e@ == unsupported(lead@, number),
{
    let mut message = lead.to_owned();
    pushDecimal(&mut message, number as u64);
    ProxyError { kind: ErrorKind::InvalidData, message }
}

/// The IPv4 text of the four bytes from `at` on.
pub fn ipv4TextAt(bytes: &[u8], at: usize) -> (text: String)
    requires
        at + 4 <= bytes.len(),
    ensures
        text@ == ipv4_text(bytes@.subrange(at as int, at + 4)),
{
    let octets: [u8; 4] = [bytes[at], bytes[at + 1], bytes[at + 2], bytes[at + 3]];
    assert(octets@ =~= bytes@.subrange(at as int, at + 4));
    ipv4Text(&octets)
}

/// The IPv6 text of the sixteen bytes from `at` on.
pub fn ipv6TextAt(bytes: &[u8], at: usize) -> (text: String)
    requires
        at + 16 <= bytes.len(),
    ensures
        text@ == ipv6_text(bytes@.subrange(at as int, at + 16)),
{
    let octets: [u8; 16] = [
        bytes[at],
        bytes[at + 1],
        bytes[at + 2],
        bytes[at + 3],
        bytes[at + 4],
        bytes[at + 5],
        bytes[at + 6],
        bytes[at + 7],
        bytes[at + 8],
        bytes[at + 9],
        bytes[at + 10],
        bytes[at + 11],
        bytes[at + 12],
        bytes[at + 13],
        bytes[at + 14],
        bytes[at + 15],
    ];
    assert(octets@ =~= bytes@.subrange(at as int, at + 16));
    ipv6Text(&octets)
}

/// The target that a datagram names, and where its payload starts.
pub open spec fn parse_udp_target(packet: Seq<u8>) -> Result<(Seq<char>, u16, nat), ErrorView> {
    let n = packet[4] as int;
    let name = packet.subrange(5, 5 + n);
    if packet[3] == 1 {
        if packet.len() < 10 {
            Err(invalid("invalid IPv4 UDP packet"@))
        } else {
            Ok((ipv4_text(packet.subrange(4, 8)), port_of(packet[8], packet[9]), 10))
        }
    } else if packet[3] == 3 {
        if packet.len() < 5 {
            Err(invalid("invalid domain UDP packet"@))
        } else if n == 0 || packet.len() < n + 7 {
            Err(invalid("invalid domain length in UDP packet"@))
        } else if !valid_utf8(name) {
            Err(invalid("invalid UDP domain: "@ + utf8_error_text(name)))
        } else {
            Ok((decode_utf8(name), port_of(packet[n + 5], packet[n + 6]), (n + 7) as nat))
        }
    } else if packet[3] == 4 {
        if packet.len() < 22 {
            Err(invalid("invalid IPv6 UDP packet"@))
        } else {
            Ok((ipv6_text(packet.subrange(4, 20)), port_of(packet[20], packet[21]), 22))
        }
    } else {
        Err(unsupported("unsupported SOCKS5 UDP address type "@, packet[3]))
    }
}

/// Reads the target of a datagram and the position of its payload.
pub fn parseSocks5UdpTarget(packet: &[u8]) -> (r: Result<(String, u16, usize), ProxyError>)
    requires
        packet.len() >= 4,
    ensures
        match r {
            Ok(target) => parse_udp_target(packet@) == Ok::<(Seq<char>, u16, nat), ErrorView>(
                (target.0@, target.1, target.2 as nat),
            ),
            Err(e) => parse_udp_target(packet@) == Err::<(Seq<char>, u16, nat), ErrorView>(e@),
        },
{
    let addressType = packet[3];
    if addressType == 1 {
        if packet.len() < 10 {
            return Err(invalidData("invalid IPv4 UDP packet"));
        }
        let host = ipv4TextAt(packet, 4);
        return Ok((host, portOf(packet[8], packet[9]), 10));
    }
    if addressType == 3 {
        if packet.len() < 5 {
            return Err(invalidData("invalid domain UDP packet"));
        }
        let domainLength = packet[4] as usize;
        if domainLength == 0 || packet.len() < domainLength + 7 {
            return Err(invalidData("invalid domain length in UDP packet"));
        }
        return match textFromUtf8(slice_subrange(packet, 5, 5 + domainLength)) {
            Ok(host) => Ok(
                (
                    host,
                    portOf(packet[domainLength + 5], packet[domainLength + 6]),
                    domainLength + 7,
                ),
            ),
            Err(reason) => Err(
                detailed(ErrorKind::InvalidData, "invalid UDP domain: ", &reason),
            ),
        };
    }
    if addressType == 4 {
        if packet.len() < 22 {
            return Err(invalidData("invalid IPv6 UDP packet"));
        }
        let host = ipv6TextAt(packet, 4);
        return Ok((host, portOf(packet[20], packet[21]), 22));
    }
    Err(unsupportedError("unsupported SOCKS5 UDP address type ", addressType))
}

// ---------------------------------------------------------------------------------------------
// Relaying datagrams
// ---------------------------------------------------------------------------------------------

/// A datagram to send on, as contracts see it.
pub struct UdpRelayView {
    pub target: Seq<char>,
    pub payload: Seq<u8>,
}

/// A datagram to send on.
#[derive(Debug)]
pub struct UdpRelay {
    /// The host and port to look up.
    pub target: String,
    /// The bytes to send there.
    pub payload: Vec<u8>,
}

impl View for UdpRelay {
    type V = UdpRelayView;

    open spec fn view(&self) -> UdpRelayView {
        UdpRelayView { target: self.target@, payload: self.payload@ }
    }
}

/// What becomes of a client's datagram: one that is too short, fragmented or without payload is
/// dropped, any other is sent on to the target that it names.
pub open spec fn plan_udp_packet(packet: Seq<u8>) -> Result<Option<UdpRelayView>, ErrorView> {
    if packet.len() < 4 || packet[0] != 0 || packet[1] != 0 || packet[2] != 0 {
        Ok(None)
    } else {
        match parse_udp_target(packet) {
            Err(e) => Err(e),
            Ok((host, port, start)) => if start >= packet.len() {
                Ok(None)
            } else {
                Ok(
                    Some(
                        UdpRelayView {
                            target: host_and_port(host, port),
                            payload: packet.skip(start as int),
                        },
                    ),
                )
            },
        }
    }
}

/// Decides what becomes of a client's datagram.
pub fn planSocks5UdpPacket(packet: &[u8]) -> (r: Result<Option<UdpRelay>, ProxyError>)
    ensures
        match r {
            Ok(None) => plan_udp_packet(packet@) == Ok::<Option<UdpRelayView>, ErrorView>(None),
            Ok(Some(relay)) => plan_udp_packet(packet@) == Ok::<Option<UdpRelayView>, ErrorView>(
                Some(relay@),
            ),
            Err(e) => plan_udp_packet(packet@) == Err::<Option<UdpRelayView>, ErrorView>(e@),
        },
{
    if packet.len() < 4 {
        return Ok(None);
    }
    if packet[0] != 0 || packet[1] != 0 || packet[2] != 0 {
        return Ok(None);
    }
    let targetInfo = match parseSocks5UdpTarget(packet) {
        Ok(targetInfo) => targetInfo,
        Err(e) => {
            return Err(e);
        },
    };
    let payloadStartIndex: usize = targetInfo.2;
    if payloadStartIndex >= packet.len() {
        return Ok(None);
    }
    let payload = vstd::slice::slice_to_vec(
        slice_subrange(packet, payloadStartIndex, packet.len()),
    );
    assert(payload@ =~= packet@.skip(payloadStartIndex as int));
    Ok(Some(UdpRelay { target: formatHostAndPort(&targetInfo.0, targetInfo.1), payload }))
}

/// The first of the addresses that a lookup found.
pub open spec fn first_address(found: Seq<SocketAddress>) -> Result<SocketAddress, ErrorView> {
    if found.len() > 0 {
        Ok(found[0])
    } else {
        Err(invalid("DNS resolution returned no address"@))
    }
}

/// Picks the first of the addresses that a lookup found.
pub fn firstSocketAddress(found: &[SocketAddress]) -> (r: Result<SocketAddress, ProxyError>)
    ensures
        match r {
            Ok(address) => first_address(found@) == Ok::<SocketAddress, ErrorView>(address),
            Err(e) => first_address(found@) == Err::<SocketAddress, ErrorView>(e@),
        },
{
    if found.len() > 0 {
        Ok(found[0])
    } else {
        Err(invalidData("DNS resolution returned no address"))
    }
}

/// Whether an address is where datagrams for a target are sent from: any address of its family
/// at any port.
pub open spec fn sends_from(address: SocketAddress, target: SocketAddress) -> bool {
    &&& address.ip.is_unspecified()
    &&& address.port == 0
    &&& address.scope == 0
    &&& address.ip is V6 <==> target.ip is V6
}

/// Picks the local address from which a datagram is sent on.
pub fn relayBindAddress(target: &SocketAddress) -> (address: SocketAddress)
    ensures
        sends_from(address, *target),
{
    let ip = match target.ip {
        IpAddress::V6(_) => ipv6Unspecified(),
        IpAddress::V4(_) => ipv4Unspecified(),
    };
    SocketAddress { ip, port: 0, scope: 0 }
}

// ---------------------------------------------------------------------------------------------
// Laws
// ---------------------------------------------------------------------------------------------

/// The header that is put in front of a datagram is read back as the address that it names.
pub proof fn law_udp_header_round_trip(address: SocketAddress, payload: Seq<u8>)
    ensures
        parse_udp_target(udp_header(address) + payload) == Ok::<(Seq<char>, u16, nat), ErrorView>(
            (ip_text(address.ip), address.port, udp_header(address).len()),
        ),
        (udp_header(address) + payload).skip(udp_header(address).len() as int) == payload,
{
    let packet = udp_header(address) + payload;
    law_port_round_trip(address.port);
    match address.ip {
        IpAddress::V4(bytes) => {
            assert(packet.subrange(4, 8) =~= bytes@);
        },
        IpAddress::V6(bytes) => {
            assert(packet.subrange(4, 20) =~= bytes@);
        },
    }
    assert(packet.skip(udp_header(address).len() as int) =~= payload);
}

/// A wrapped datagram with a payload, sent back by a client, goes to where it came from.
pub proof fn law_udp_answer_returns_to_its_sender(address: SocketAddress, payload: Seq<u8>)
    requires
        payload.len() > 0,
    ensures
        plan_udp_packet(udp_header(address) + payload) == Ok::<Option<UdpRelayView>, ErrorView>(
            Some(
                UdpRelayView {
                    target: host_and_port(ip_text(address.ip), address.port),
                    payload,
                },
            ),
        ),
{
    law_udp_header_round_trip(address, payload);
}

/// A datagram for a named host, as a client writes it.
pub open spec fn udp_domain_packet(name: Seq<char>, port: u16, payload: Seq<u8>) -> Seq<u8> {
    let bytes = encode_utf8(name);
    seq![0u8, 0, 0, 3, bytes.len() as u8] + bytes + port_bytes(port) + payload
}

/// A datagram for a named host goes to that host, whatever the name.
pub proof fn law_udp_domain_round_trip(name: Seq<char>, port: u16, payload: Seq<u8>)
    requires
        0 < encode_utf8(name).len() < 256,
        payload.len() > 0,
    ensures
        plan_udp_packet(udp_domain_packet(name, port, payload)) == Ok::<
            Option<UdpRelayView>,
            ErrorView,
        >(Some(UdpRelayView { target: host_and_port(name, port), payload })),
{
    let bytes = encode_utf8(name);
    let packet = udp_domain_packet(name, port, payload);
    let n = bytes.len() as int;
    encode_utf8_valid_utf8(name);
    encode_utf8_decode_utf8(name);
    law_port_round_trip(port);
    assert(packet[4] == n);
    assert(packet.subrange(5, 5 + n) =~= bytes);
    assert(packet[n + 5] == port_bytes(port)[0]);
    assert(packet[n + 6] == port_bytes(port)[1]);
    assert(packet.skip(n + 7) =~= payload);
}

/// A datagram that is one of several fragments is never sent on.
pub proof fn law_fragments_are_dropped(packet: Seq<u8>)
    requires
        packet.len() > 2,
        packet[2] != 0,
    ensures
        plan_udp_packet(packet) == Ok::<Option<UdpRelayView>, ErrorView>(None),
{
}

} // verus!
