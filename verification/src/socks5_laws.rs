//! What SOCKS5 clients send and get, byte by byte.

use vstd::prelude::*;
use vstd::utf8::{decode_utf8, encode_utf8, valid_utf8};

use crate::address::{
    host_and_port, ip_text, ipv4_text, ipv6_text, law_ip_text_is_dialled_in_its_form, port_bytes,
    IpAddress, SocketAddress,
};
use crate::address_laws::{law_a_port_is_two_bytes, law_an_address_is_host_colon_port};
use crate::error::{invalid, ErrorKind, ErrorView};
use crate::number::decimal;
use crate::socks5::{
    address_bytes, first_address, law_udp_answer_returns_to_its_sender, law_udp_domain_round_trip,
    parse_udp_target, plan_udp_packet, reply_packet, sends_from, udp_domain_packet, udp_header,
    UdpRelayView,
};
use crate::socks5_session::{
    address_request, greeting, handshake, is_association,
    law_a_request_for_a_name_is_understood, law_a_request_for_an_address_is_understood,
    name_request, on_command, socks5_associated, socks5_connect_failed, socks5_connected,
    socks5_next, socks5_receive, Socks5State, Socks5Step, Stage,
};
use crate::text::utf8_error_text;

verus! {

// ---------------------------------------------------------------------------------------------
// Addresses on the wire
// ---------------------------------------------------------------------------------------------

/// A reply is version 5, its code and a zero byte, and the header of a datagram three zero bytes;
/// then either holds the type of the address (1 for IPv4, 4 for IPv6), its bytes, and the port in
/// two bytes of which the first counts 256 times as much as the second.
pub proof fn law_replies_and_datagram_headers(code: u8, address: SocketAddress)
    ensures
        ({
            let reply = reply_packet(code, address);
            let header = udp_header(address);
            let octets = address.ip.octets();
            let n = octets.len() as int;
            &&& n == if address.ip is V6 {
                16int
            } else {
                4
            }
            &&& reply.len() == n + 6
            &&& header.len() == n + 6
            &&& reply[0] == 5 && reply[1] == code && reply[2] == 0
            &&& header[0] == 0 && header[1] == 0 && header[2] == 0
            &&& reply[3] == if address.ip is V6 {
                4u8
            } else {
                1
            }
            &&& forall|i: int| 0 <= i < n ==> #[trigger] reply[4 + i] == octets[i]
            &&& reply[n + 4] * 256 + reply[n + 5] == address.port
            &&& header.skip(3) == reply.skip(3)
        }),
{
    let reply = reply_packet(code, address);
    let header = udp_header(address);
    law_a_port_is_two_bytes(address.port, 0, 0);
    let n = address.ip.octets().len() as int;
    assert(reply[n + 4] == port_bytes(address.port)[0]);
    assert(reply[n + 5] == port_bytes(address.port)[1]);
    assert(header.skip(3) =~= address_bytes(address));
    assert(reply.skip(3) =~= address_bytes(address));
}

// ---------------------------------------------------------------------------------------------
// Requests
// ---------------------------------------------------------------------------------------------

/// What a client sends that offers methods and then asks for an IPv4 address: the greeting, then
/// version, command, zero, 1, the bytes of the address and those of the port.
pub open spec fn ipv4_client(methods: Seq<u8>, command: u8, ip: [u8; 4], port: (u8, u8)) -> Seq<
    u8,
> {
    seq![5u8, methods.len() as u8] + methods + seq![5u8, command, 0, 1] + ip@ + seq![port.0, port.1]
}

/// The same for an IPv6 address, whose type is 4.
pub open spec fn ipv6_client(methods: Seq<u8>, command: u8, ip: [u8; 16], port: (u8, u8)) -> Seq<
    u8,
> {
    seq![5u8, methods.len() as u8] + methods + seq![5u8, command, 0, 4] + ip@ + seq![port.0, port.1]
}

/// The same for a host name, whose type is 3 and whose length stands in front of it.
pub open spec fn name_client(
    methods: Seq<u8>,
    command: u8,
    name: Seq<char>,
    port: (u8, u8),
) -> Seq<u8> {
    seq![5u8, methods.len() as u8] + methods + seq![
        5u8,
        command,
        0,
        3,
        encode_utf8(name).len() as u8,
    ] + encode_utf8(name) + seq![port.0, port.1]
}

/// What a command for a host and port, as text to dial, leads to: 1 dials it, 3 makes a UDP
/// association, and any other is refused with code 7.
pub open spec fn is_answer_to(state: Socks5State, command: u8, address: Seq<char>) -> bool {
    &&& command == 1 ==> state == Socks5State::Dialling { address }
    &&& command == 3 ==> state is Associating
    &&& command != 1 && command != 3 ==> {
        &&& state matches Socks5State::Refusing { reply, error }
        &&& reply == seq![5u8, 7, 0, 1, 0, 0, 0, 0, 0, 0]
        &&& error.kind is InvalidData
        &&& error.message == "unsupported SOCKS5 command "@ + decimal(command as nat)
    }
}

proof fn lemma_port_bytes_of(high: u8, low: u8)
    ensures
        port_bytes((high * 256 + low) as u16) == seq![high, low],
{
    let port = (high * 256 + low) as u16;
    assert(port == high * 256 + low);
    assert(port / 256 == high);
    assert(port % 256 == low);
    assert(port_bytes(port) =~= seq![high, low]);
}

proof fn lemma_on_command(command: u8, host: Seq<char>, port: u16)
    ensures
        is_answer_to(on_command(command, host, port), command, host_and_port(host, port)),
{
}

/// A client that offers to do without authentication and asks for a connection to an IPv4 address
/// gets one to exactly that address and port; likewise for its other commands.
pub proof fn law_an_ipv4_client_gets_to_its_address(
    methods: Seq<u8>,
    command: u8,
    ip: [u8; 4],
    port: (u8, u8),
)
    requires
        methods.len() < 256,
        methods.contains(0u8),
    ensures
        handshake(
            Socks5State::Reading(Stage::Greeting),
            ipv4_client(methods, command, ip, port),
        ) matches Some(state) && is_answer_to(
            state,
            command,
            ipv4_text(ip@) + seq![':'] + decimal((port.0 * 256 + port.1) as nat),
        ),
{
    let number = (port.0 * 256 + port.1) as u16;
    let address = SocketAddress { ip: IpAddress::V4(ip), port: number, scope: 0 };
    lemma_port_bytes_of(port.0, port.1);
    assert(ipv4_client(methods, command, ip, port) =~= greeting(methods) + address_request(
        command,
        address,
    ));
    law_a_request_for_an_address_is_understood(methods, command, address);
    lemma_on_command(command, ip_text(address.ip), number);
    law_ip_text_is_dialled_in_its_form(address.ip, number);
    law_an_address_is_host_colon_port(ip_text(address.ip), number);
}

/// A client that offers to do without authentication and asks for a connection to an IPv6 address
/// gets one to exactly that address and port; likewise for its other commands.
pub proof fn law_an_ipv6_client_gets_to_its_address(
    methods: Seq<u8>,
    command: u8,
    ip: [u8; 16],
    port: (u8, u8),
)
    requires
        methods.len() < 256,
        methods.contains(0u8),
    ensures
        handshake(
            Socks5State::Reading(Stage::Greeting),
            ipv6_client(methods, command, ip, port),
        ) matches Some(state) && is_answer_to(
            state,
            command,
            seq!['['] + ipv6_text(ip@) + seq![']', ':'] + decimal(
                (port.0 * 256 + port.1) as nat,
            ),
        ),
{
    let number = (port.0 * 256 + port.1) as u16;
    let address = SocketAddress { ip: IpAddress::V6(ip), port: number, scope: 0 };
    lemma_port_bytes_of(port.0, port.1);
    assert(ipv6_client(methods, command, ip, port) =~= greeting(methods) + address_request(
        command,
        address,
    ));
    law_a_request_for_an_address_is_understood(methods, command, address);
    lemma_on_command(command, ip_text(address.ip), number);
    law_ip_text_is_dialled_in_its_form(address.ip, number);
    law_an_address_is_host_colon_port(ip_text(address.ip), number);
}

/// A client that offers to do without authentication and asks for a connection to a named host
/// gets one to exactly that host and port; likewise for its other commands.
pub proof fn law_a_client_gets_to_the_host_it_names(
    methods: Seq<u8>,
    command: u8,
    name: Seq<char>,
    port: (u8, u8),
)
    requires
        methods.len() < 256,
        methods.contains(0u8),
        0 < encode_utf8(name).len() < 256,
    ensures
        handshake(
            Socks5State::Reading(Stage::Greeting),
            name_client(methods, command, name, port),
        ) matches Some(state) && is_answer_to(
            state,
            command,
            if name.contains(':') && name[0] != '[' {
                seq!['['] + name + seq![']', ':'] + decimal((port.0 * 256 + port.1) as nat)
            } else {
                name + seq![':'] + decimal((port.0 * 256 + port.1) as nat)
            },
        ),
{
    let number = (port.0 * 256 + port.1) as u16;
    lemma_port_bytes_of(port.0, port.1);
    assert(name_client(methods, command, name, port) =~= greeting(methods) + name_request(
        command,
        name,
        number,
    ));
    law_a_request_for_a_name_is_understood(methods, command, name, number);
    lemma_on_command(command, name, number);
    law_an_address_is_host_colon_port(name, number);
}

/// A greeting of another version, a request of another version or with another byte than zero
/// behind the command, an address of an unknown type, and a name that is empty or no text are
/// refused at once; a client without a method that needs no authentication is told so first. All
/// else is accepted.
pub proof fn law_what_a_socks5_client_may_not_send(command: u8, length: u8, data: Seq<u8>)
    ensures
        data.len() == 2 ==> socks5_receive(
            Socks5State::Reading(Stage::Greeting),
            data,
        ) == if data[0] != 5 {
            Err::<Socks5State, ErrorView>(invalid("unsupported SOCKS version"@))
        } else {
            Ok(Socks5State::Reading(Stage::Methods { count: data[1] }))
        },
        data.len() == length ==> socks5_receive(
            Socks5State::Reading(Stage::Methods { count: length }),
            data,
        ) == Ok::<Socks5State, ErrorView>(
            if data.contains(0u8) {
                Socks5State::Accepting
            } else {
                Socks5State::Refusing {
                    reply: seq![5u8, 0xff],
                    error: invalid("SOCKS5 no-auth method is not supported by client"@),
                }
            },
        ),
        data.len() == 4 && (data[0] != 5 || data[2] != 0) ==> socks5_receive(
            Socks5State::Reading(Stage::Request),
            data,
        ) == Err::<Socks5State, ErrorView>(invalid("invalid SOCKS5 request header"@)),
        data.len() == 4 && data[0] == 5 && data[2] == 0 && data[3] != 1 && data[3] != 3 && data[3]
            != 4 ==> socks5_receive(Socks5State::Reading(Stage::Request), data) == Err::<
            Socks5State,
            ErrorView,
        >(invalid("unsupported SOCKS5 address type "@ + decimal(data[3] as nat))),
        data.len() == 1 && data[0] == 0 ==> socks5_receive(
            Socks5State::Reading(Stage::NameLength { command }),
            data,
        ) == Err::<Socks5State, ErrorView>(invalid("empty SOCKS5 domain"@)),
        data.len() == length + 2 && !valid_utf8(data.take(length as int)) ==> socks5_receive(
            Socks5State::Reading(Stage::Name { command, length }),
            data,
        ) == Err::<Socks5State, ErrorView>(
            invalid("invalid SOCKS5 domain: "@ + utf8_error_text(data.take(length as int))),
        ),
{
    if data.len() == length + 2 {
        assert(data.subrange(0, length as int) =~= data.take(length as int));
    }
}

/// Before each answer exactly as many bytes are read as the client owes: two for the greeting, as
/// many as it announced for the methods, four for the request, the address with its port, and for
/// a name one byte for its length, then the name and the port. A client that is accepted is told
/// so by version and zero, and then its request is read.
pub proof fn law_how_much_is_read_and_when(count: u8, command: u8, length: u8)
    ensures
        socks5_next(Socks5State::Reading(Stage::Greeting)) matches Ok((state, step)) && state
            == Socks5State::Reading(Stage::Greeting) && step == Socks5Step::ReadExact(2),
        socks5_next(Socks5State::Reading(Stage::Methods { count })) matches Ok((state, step))
            && state == Socks5State::Reading(Stage::Methods { count }) && step
            == Socks5Step::ReadExact(count as nat),
        socks5_next(Socks5State::Reading(Stage::Request)) matches Ok((state, step)) && state
            == Socks5State::Reading(Stage::Request) && step == Socks5Step::ReadExact(4),
        socks5_next(Socks5State::Reading(Stage::Ipv4 { command })) matches Ok((state, step))
            && state == Socks5State::Reading(Stage::Ipv4 { command }) && step
            == Socks5Step::ReadExact(6),
        socks5_next(Socks5State::Reading(Stage::Ipv6 { command })) matches Ok((state, step))
            && state == Socks5State::Reading(Stage::Ipv6 { command }) && step
            == Socks5Step::ReadExact(18),
        socks5_next(Socks5State::Reading(Stage::NameLength { command })) matches Ok((state, step))
            && state == Socks5State::Reading(Stage::NameLength { command }) && step
            == Socks5Step::ReadExact(1),
        socks5_next(Socks5State::Reading(Stage::Name { command, length })) matches Ok((state, step))
            && state == Socks5State::Reading(Stage::Name { command, length }) && step
            == Socks5Step::ReadExact(length as nat + 2),
        socks5_next(Socks5State::Accepting) matches Ok((state, step)) && state
            == Socks5State::Reading(Stage::Request) && step == Socks5Step::Write(seq![5u8, 0]),
{
}

// ---------------------------------------------------------------------------------------------
// Answers
// ---------------------------------------------------------------------------------------------

/// A target is dialled as it was asked for. Where it was reached, the client is sent code 0 with
/// the local address of the connection, or with zeros where that is not known, and then everything
/// is relayed. Where it was not, the client is sent code 5, and the connection fails with an error
/// that names the target and the reason.
pub proof fn law_a_dialled_target_is_answered(
    address: Seq<char>,
    local: SocketAddress,
    kind: std::io::ErrorKind,
    reason: Seq<char>,
)
    ensures
        ({
            let dialling = Socks5State::Dialling { address };
            let reached = socks5_connected(dialling, Some(local));
            let unknown = socks5_connected(dialling, None);
            let failed = socks5_connect_failed(dialling, kind, reason);
            let error = ErrorView {
                kind: ErrorKind::ConnectFailed(kind),
                message: "SOCKS5 connect "@ + address + " failed: "@ + reason,
            };
            &&& socks5_next(dialling) == Ok::<(Socks5State, Socks5Step), ErrorView>(
                (dialling, Socks5Step::Connect(address)),
            )
            &&& socks5_next(reached) == Ok::<(Socks5State, Socks5Step), ErrorView>(
                (Socks5State::Relaying, Socks5Step::Write(reply_packet(0, local))),
            )
            &&& socks5_next(unknown) == Ok::<(Socks5State, Socks5Step), ErrorView>(
                (
                    Socks5State::Relaying,
                    Socks5Step::Write(seq![5u8, 0, 0, 1, 0, 0, 0, 0, 0, 0]),
                ),
            )
            &&& socks5_next(Socks5State::Relaying) == Ok::<(Socks5State, Socks5Step), ErrorView>(
                (Socks5State::Closed, Socks5Step::Relay),
            )
            &&& socks5_next(failed) == Ok::<(Socks5State, Socks5Step), ErrorView>(
                (
                    Socks5State::Failed { error },
                    Socks5Step::Write(seq![5u8, 5, 0, 1, 0, 0, 0, 0, 0, 0]),
                ),
            )
            &&& socks5_next(Socks5State::Failed { error }) == Err::<
                (Socks5State, Socks5Step),
                ErrorView,
            >(error)
        }),
{
}

/// Only a target that is dialled can be reached or not, and only an association that is asked for
/// can be made.
pub proof fn law_answers_come_in_their_turn(
    state: Socks5State,
    bound: Option<SocketAddress>,
    address: SocketAddress,
    kind: std::io::ErrorKind,
    reason: Seq<char>,
    data: Seq<u8>,
)
    ensures
        !(state is Dialling) ==> socks5_connected(state, bound) == state && socks5_connect_failed(
            state,
            kind,
            reason,
        ) == state,
        !(state is Associating) ==> socks5_associated(state, address) == state,
        !(state is Reading) ==> socks5_receive(state, data) == Ok::<Socks5State, ErrorView>(state),
        socks5_next(Socks5State::Closed) == Ok::<(Socks5State, Socks5Step), ErrorView>(
            (Socks5State::Closed, Socks5Step::Close),
        ),
{
}

/// A client that asks for a UDP association is sent code 0 with the loopback address of the family
/// at which it was accepted and port 1082, and its connection is then held open until it closes.
pub proof fn law_an_association_is_answered(address: SocketAddress, local: Option<SocketAddress>)
    requires
        is_association(address, local),
    ensures
        address.port == 1082,
        address.scope == 0,
        (local matches Some(l) && l.ip is V6) ==> address.ip is V6 && address.ip.octets() == seq![
            0u8,
            0,
            0,
            0,
            0,
            0,
            0,
            0,
            0,
            0,
            0,
            0,
            0,
            0,
            0,
            1,
        ],
        !(local matches Some(l) && l.ip is V6) ==> address.ip is V4 && address.ip.octets() == seq![
            127u8,
            0,
            0,
            1,
        ],
        socks5_next(Socks5State::Associating) == Ok::<(Socks5State, Socks5Step), ErrorView>(
            (Socks5State::Associating, Socks5Step::Associate),
        ),
        socks5_next(socks5_associated(Socks5State::Associating, address)) == Ok::<
            (Socks5State, Socks5Step),
            ErrorView,
        >((Socks5State::Holding, Socks5Step::Write(reply_packet(0, address)))),
        socks5_next(Socks5State::Holding) == Ok::<(Socks5State, Socks5Step), ErrorView>(
            (Socks5State::Closed, Socks5Step::Hold),
        ),
{
    if local matches Some(l) && l.ip is V6 {
        assert(address.ip.octets() =~= seq![0u8, 0, 0, 0, 0, 0, 0, 0, 0, 0, 0, 0, 0, 0, 0, 1]);
    }
}

// ---------------------------------------------------------------------------------------------
// Datagrams
// ---------------------------------------------------------------------------------------------

/// A datagram for an IPv4 address goes to exactly that address and port, and what follows the
/// header goes there as it is.
#[verifier::spinoff_prover]
pub proof fn law_a_datagram_goes_to_its_ipv4_address(ip: [u8; 4], port: (u8, u8), payload: Seq<u8>)
    requires
        payload.len() > 0,
    ensures
        plan_udp_packet(seq![0u8, 0, 0, 1] + ip@ + seq![port.0, port.1] + payload) == Ok::<
            Option<UdpRelayView>,
            ErrorView,
        >(
            Some(
                UdpRelayView {
                    target: ipv4_text(ip@) + seq![':'] + decimal((port.0 * 256 + port.1) as nat),
                    payload,
                },
            ),
        ),
{
    let number = (port.0 * 256 + port.1) as u16;
    let address = SocketAddress { ip: IpAddress::V4(ip), port: number, scope: 0 };
    lemma_port_bytes_of(port.0, port.1);
    law_udp_answer_returns_to_its_sender(address, payload);
    law_ip_text_is_dialled_in_its_form(address.ip, number);
    law_an_address_is_host_colon_port(ip_text(address.ip), number);
    assert(seq![0u8, 0, 0, 1] + ip@ + seq![port.0, port.1] + payload =~= udp_header(address)
        + payload);
}

/// A datagram for an IPv6 address goes to exactly that address and port, and what follows the
/// header goes there as it is.
#[verifier::spinoff_prover]
pub proof fn law_a_datagram_goes_to_its_ipv6_address(ip: [u8; 16], port: (u8, u8), payload: Seq<u8>)
    requires
        payload.len() > 0,
    ensures
        plan_udp_packet(seq![0u8, 0, 0, 4] + ip@ + seq![port.0, port.1] + payload) == Ok::<
            Option<UdpRelayView>,
            ErrorView,
        >(
            Some(
                UdpRelayView {
                    target: seq!['['] + ipv6_text(ip@) + seq![']', ':'] + decimal(
                        (port.0 * 256 + port.1) as nat,
                    ),
                    payload,
                },
            ),
        ),
{
    let number = (port.0 * 256 + port.1) as u16;
    let address = SocketAddress { ip: IpAddress::V6(ip), port: number, scope: 0 };
    lemma_port_bytes_of(port.0, port.1);
    law_udp_answer_returns_to_its_sender(address, payload);
    law_ip_text_is_dialled_in_its_form(address.ip, number);
    law_an_address_is_host_colon_port(ip_text(address.ip), number);
    assert(seq![0u8, 0, 0, 4] + ip@ + seq![port.0, port.1] + payload =~= udp_header(address)
        + payload);
}

/// A datagram for a named host goes to exactly that host and port, and what follows the header
/// goes there as it is.
pub proof fn law_a_datagram_goes_to_the_host_it_names(
    name: Seq<char>,
    port: (u8, u8),
    payload: Seq<u8>,
)
    requires
        payload.len() > 0,
        0 < encode_utf8(name).len() < 256,
    ensures
        plan_udp_packet(
            seq![0u8, 0, 0, 3, encode_utf8(name).len() as u8] + encode_utf8(name) + seq![
                port.0,
                port.1,
            ] + payload,
        ) == Ok::<Option<UdpRelayView>, ErrorView>(
            Some(
                UdpRelayView {
                    target: if name.contains(':') && name[0] != '[' {
                        seq!['['] + name + seq![']', ':'] + decimal(
                            (port.0 * 256 + port.1) as nat,
                        )
                    } else {
                        name + seq![':'] + decimal((port.0 * 256 + port.1) as nat)
                    },
                    payload,
                },
            ),
        ),
{
    let number = (port.0 * 256 + port.1) as u16;
    lemma_port_bytes_of(port.0, port.1);
    law_udp_domain_round_trip(name, number, payload);
    law_an_address_is_host_colon_port(name, number);
    assert(seq![0u8, 0, 0, 3, encode_utf8(name).len() as u8] + encode_utf8(name) + seq![
        port.0,
        port.1,
    ] + payload =~= udp_domain_packet(name, number, payload));
}

/// Whether a datagram is dropped without a word.
pub open spec fn is_dropped(packet: Seq<u8>) -> bool {
    plan_udp_packet(packet) == Ok::<Option<UdpRelayView>, ErrorView>(None)
}

/// Whether a datagram is reported as one that the protocol does not allow, in these words.
pub open spec fn is_reported(packet: Seq<u8>, message: Seq<char>) -> bool {
    plan_udp_packet(packet) matches Err(e) && e.kind is InvalidData && e.message == message
}

/// A datagram is dropped without a word exactly if it is shorter than four bytes, its first three
/// bytes are not all zero, or nothing follows its header. One whose header is cut short, whose
/// address has an unknown type, or whose name is empty or no text is reported.
pub proof fn law_which_datagrams_are_dropped(packet: Seq<u8>)
    ensures
        packet.len() < 4 || packet[0] != 0 || packet[1] != 0 || packet[2] != 0 ==> is_dropped(
            packet,
        ),
        packet.len() >= 4 && packet[0] == 0 && packet[1] == 0 && packet[2] == 0 ==> {
            &&& packet[3] != 1 && packet[3] != 3 && packet[3] != 4 ==> is_reported(
                packet,
                "unsupported SOCKS5 UDP address type "@ + decimal(packet[3] as nat),
            )
            &&& packet[3] == 1 ==> {
                &&& packet.len() < 10 ==> is_reported(packet, "invalid IPv4 UDP packet"@)
                &&& packet.len() == 10 ==> is_dropped(packet)
                &&& packet.len() > 10 ==> plan_udp_packet(packet) matches Ok(Some(_))
            }
            &&& packet[3] == 4 ==> {
                &&& packet.len() < 22 ==> is_reported(packet, "invalid IPv6 UDP packet"@)
                &&& packet.len() == 22 ==> is_dropped(packet)
                &&& packet.len() > 22 ==> plan_udp_packet(packet) matches Ok(Some(_))
            }
            &&& packet[3] == 3 ==> {
                let n = packet[4] as int;
                let name = packet.subrange(5, 5 + n);
                &&& packet.len() < 5 ==> is_reported(packet, "invalid domain UDP packet"@)
                &&& packet.len() >= 5 && (n == 0 || packet.len() < n + 7) ==> is_reported(
                    packet,
                    "invalid domain length in UDP packet"@,
                )
                &&& packet.len() >= n + 7 && n > 0 && !valid_utf8(name) ==> is_reported(
                    packet,
                    "invalid UDP domain: "@ + utf8_error_text(name),
                )
                &&& packet.len() == n + 7 && n > 0 && valid_utf8(name) ==> is_dropped(packet)
                &&& packet.len() > n + 7 && n > 0 && valid_utf8(name) ==> plan_udp_packet(
                    packet,
                ) matches Ok(Some(_))
            }
        },
{
}

/// A name in a datagram is the text that its bytes encode.
pub proof fn law_a_name_in_a_datagram_is_its_text(packet: Seq<u8>)
    requires
        packet.len() >= 5,
        packet[3] == 3,
        0 < packet[4],
        packet.len() >= packet[4] + 7,
        valid_utf8(packet.subrange(5, 5 + packet[4])),
    ensures
        parse_udp_target(packet) matches Ok((host, port, start)) && host == decode_utf8(
            packet.subrange(5, 5 + packet[4]),
        ) && port == packet[packet[4] + 5] * 256 + packet[packet[4] + 6] && start == packet[4] + 7,
{
}

/// A datagram is sent to the first address that was found, from any address of the same family at
/// any port; without an address it is reported.
pub proof fn law_datagrams_are_sent_to_the_first_address(
    found: Seq<SocketAddress>,
    from: SocketAddress,
    target: SocketAddress,
)
    ensures
        found.len() > 0 ==> first_address(found) == Ok::<SocketAddress, ErrorView>(found[0]),
        found.len() == 0 ==> first_address(found) is Err,
        sends_from(from, target) ==> {
            &&& from.port == 0 && from.scope == 0
            &&& target.ip is V4 ==> from.ip is V4 && from.ip.octets() == seq![0u8, 0, 0, 0]
            &&& target.ip is V6 ==> from.ip is V6 && from.ip.octets() == seq![
                0u8,
                0,
                0,
                0,
                0,
                0,
                0,
                0,
                0,
                0,
                0,
                0,
                0,
                0,
                0,
                0,
            ]
        },
{
    let octets = from.ip.octets();
    if sends_from(from, target) {
        if target.ip is V4 {
            assert(octets =~= seq![0u8, 0, 0, 0]);
        } else {
            assert(octets =~= seq![0u8, 0, 0, 0, 0, 0, 0, 0, 0, 0, 0, 0, 0, 0, 0, 0]);
        }
    }
}

} // verus!
