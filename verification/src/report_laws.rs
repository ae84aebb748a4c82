//! What goes to the log, and the numbers that the proxy goes by.

use vstd::prelude::*;

use crate::address::{
    ip_text, ipv4_text, ipv6_text, law_ip_text_is_dialled_in_its_form, IpAddress, SocketAddress,
};
use crate::address_laws::law_an_address_is_host_colon_port;
use crate::error::{cut_short, invalid, too_slow, ErrorView};
use crate::limit::{maxTcpConnectionsPerService, refusal_text, Refusal};
use crate::log::{log_line, timestamp_of, Level};
use crate::number::{decimal, number_error_text, NumberError};
use crate::service::{
    address_text, bufferSize, httpProxyPort, httpsConnectProxyPort, listen_options,
    listenerBacklog, service_action, service_note, startup_lines, tcpIdleTimeoutSeconds,
    tcpKeepaliveIdleSeconds, tcpKeepaliveIntervalSeconds, udpBufferSize,
    udpResponseTimeoutSeconds, ServiceEventView, ServiceView,
};
use crate::socks5::{plan_udp_packet, sends_from, udp_header};
use crate::socks5_session::socks5ProxyPort;
use crate::stream::maxHttpHeaderSize;
use crate::udp_session::{
    udp_given_up, udp_next, udp_received, udp_resolved, udp_timeout, UdpState, UdpStep,
};

verus! {

// ---------------------------------------------------------------------------------------------
// Lines of the log
// ---------------------------------------------------------------------------------------------

/// A line of the log is the time in decimal, a space, the level in brackets, a space, and the
/// message as it is. The time is what the clock says, and zero where it says nothing.
pub proof fn law_a_line_of_the_log(now: u64, message: Seq<char>)
    ensures
        log_line(now, Level::Info, message) == decimal(now as nat) + " [INFO] "@ + message,
        log_line(now, Level::Warn, message) == decimal(now as nat) + " [WARN] "@ + message,
        log_line(now, Level::Error, message) == decimal(now as nat) + " [ERROR] "@ + message,
        timestamp_of(Some(now)) == now,
        timestamp_of(None) == 0,
{
    reveal_strlit(" [");
    reveal_strlit("] ");
    reveal_strlit("INFO");
    reveal_strlit("WARN");
    reveal_strlit("ERROR");
    reveal_strlit(" [INFO] ");
    reveal_strlit(" [WARN] ");
    reveal_strlit(" [ERROR] ");
    assert(log_line(now, Level::Info, message) =~= decimal(now as nat) + " [INFO] "@ + message);
    assert(log_line(now, Level::Warn, message) =~= decimal(now as nat) + " [WARN] "@ + message);
    assert(log_line(now, Level::Error, message) =~= decimal(now as nat) + " [ERROR] "@ + message);
}

/// An address in text: an IPv4 address, a colon and the port, or an IPv6 address in brackets, with
/// its scope behind a percent sign where it has one, a colon and the port.
pub proof fn law_an_address_in_text(address: SocketAddress)
    ensures
        address.ip matches IpAddress::V4(bytes) ==> address_text(address) == ipv4_text(bytes@)
            + seq![':'] + decimal(address.port as nat),
        address.ip matches IpAddress::V6(bytes) ==> address_text(address) == seq!['[']
            + ipv6_text(bytes@) + if address.scope != 0 {
            seq!['%'] + decimal(address.scope as nat)
        } else {
            Seq::<char>::empty()
        } + seq![']', ':'] + decimal(address.port as nat),
{
    reveal_strlit("%");
    let text = ip_text(address.ip);
    law_ip_text_is_dialled_in_its_form(address.ip, address.port);
    law_an_address_is_host_colon_port(text, address.port);
    match address.ip {
        IpAddress::V4(bytes) => {},
        IpAddress::V6(bytes) => {
            let scoped = text + "%"@ + decimal(address.scope as nat);
            law_an_address_is_host_colon_port(scoped, address.port);
            let scope = if address.scope != 0 {
                seq!['%'] + decimal(address.scope as nat)
            } else {
                Seq::<char>::empty()
            };
            assert(address_text(address) =~= seq!['['] + text + scope + seq![']', ':'] + decimal(
                address.port as nat,
            ));
        },
    }
}

/// When the proxy starts, the log says so, names for each service where it listens, in their
/// order, and says where the log is.
pub proof fn law_what_the_log_says_at_the_start(list: Seq<ServiceView>)
    ensures
        startup_lines(list).len() == list.len() + 2,
        startup_lines(list)[0] == "rproxy starting"@,
        startup_lines(list).last() == "log file path: rproxy.log"@,
        forall|i: int|
            0 <= i < list.len() ==> #[trigger] startup_lines(list)[i + 1] == list[i].title
                + " listening on "@ + address_text(list[i].address),
{
    let lines = startup_lines(list);
    assert forall|i: int| 0 <= i < list.len() implies #[trigger] lines[i + 1] == list[i].title
        + " listening on "@ + address_text(list[i].address) by {}
}

/// What the log says of what happens to a service, how much it matters, and what the service does.
pub proof fn law_what_the_log_says_of_a_service(
    service: ServiceView,
    client: Seq<char>,
    reason: Seq<char>,
    refusal: Refusal,
)
    ensures
        ({
            let name = service.name;
            let at = address_text(service.address);
            let unbound = ServiceEventView::BindFailed { reason };
            let lost = ServiceEventView::AcceptFailed { reason };
            let refused = ServiceEventView::Refused { client, refusal };
            let served = ServiceEventView::Admitted { client };
            let failed = ServiceEventView::ClientFailed { client, reason };
            &&& service_note(service, unbound) matches Some(note) && note.level is Error
                && note.message == name + " bind failed on "@ + at + ": "@ + reason
            &&& service_note(service, ServiceEventView::Bound) matches Some(note) && note.level
                is Info && note.message == name + " ready on "@ + at
            &&& service_note(service, lost) matches Some(note) && note.level is Warn
                && note.message == if service.kind is Socks5Udp {
                name + " UDP receive failed: "@ + reason
            } else {
                name + " accept failed: "@ + reason
            }
            &&& service_note(service, refused) matches Some(note) && note.level is Warn
                && note.message == name + " rejected "@ + client
                + " because connection limit was reached: "@ + if refusal is Closed {
                "semaphore closed"@
            } else {
                "no permits available"@
            }
            &&& service_note(service, served) matches Some(note) && note.level is Info
                && note.message == name + " accepted "@ + client
            &&& service_note(service, ServiceEventView::PacketCame) is None
            &&& service_note(service, failed) matches Some(note) && note.level is Warn
                && note.message == if service.kind is Http {
                name + " client "@ + client + " closed with error: "@ + reason
            } else if service.kind is Socks5Tcp {
                name + " client "@ + client + " error: "@ + reason
            } else {
                "SOCKS5 UDP client "@ + client + " error: "@ + reason
            }
            &&& service_action(unbound) is Stop
            &&& service_action(ServiceEventView::Bound) is Accept
            &&& service_action(lost) is Accept
            &&& service_action(refused) is Accept
            &&& service_action(served) is Serve
            &&& service_action(ServiceEventView::PacketCame) is Serve
            &&& service_action(failed) is Accept
        }),
{
}

/// An answer to a datagram that does not come in time ends the session with a warning that names
/// the target and the reason; a session that waits for nothing says nothing, and takes nothing in.
pub proof fn law_what_becomes_of_a_datagram_session(
    state: UdpState,
    target: SocketAddress,
    reason: Seq<char>,
    found: Seq<SocketAddress>,
    remote: SocketAddress,
    data: Seq<u8>,
)
    ensures
        udp_timeout(UdpState::Waiting { target }, reason) matches Some(note) && note.level is Warn
            && note.message == "SOCKS5 UDP response timeout from "@ + address_text(target) + ": "@
            + reason,
        udp_given_up(UdpState::Waiting { target }) is Closed,
        !(state is Waiting) ==> udp_given_up(state) == state && udp_timeout(
            state,
            reason,
        ) is None && udp_received(
            state,
            remote,
            data,
        ) == state,
        !(state is Resolving) ==> (udp_resolved(state, found) matches Ok(next) && next == state),
        udp_received(UdpState::Waiting { target }, remote, data) == (UdpState::Answered {
            packet: udp_header(remote) + data,
        }),
        state is Resolving && found.len() == 0 ==> (udp_resolved(state, found) matches Err(e)
            && e.kind is InvalidData && e.message == "DNS resolution returned no address"@),
{
}

/// Each decision of a datagram's session is the only one there is: a datagram is dropped, reported
/// or its target looked up; an address that was found is sent to from an address of its family; an
/// answer is waited for and passed on; and then the session is over.
pub proof fn law_each_step_of_a_datagram_session(
    state: UdpState,
    outcome: Result<(UdpState, UdpStep), ErrorView>,
)
    requires
        udp_next(state, outcome),
    ensures
        state matches UdpState::Received { packet } ==> match plan_udp_packet(packet) {
            Err(e) => outcome == Err::<(UdpState, UdpStep), ErrorView>(e),
            Ok(None) => outcome matches Ok((next, step)) && next is Closed && step is Close,
            Ok(Some(relay)) => {
                &&& outcome matches Ok((next, step))
                &&& next == UdpState::Resolving { name: relay.target, payload: relay.payload }
                &&& step == UdpStep::Resolve(relay.target)
            },
        },
        state matches UdpState::Resolving { name, payload } ==> (outcome matches Ok((next, step))
            && next == state && step == UdpStep::Resolve(name)),
        state matches UdpState::Resolved { target, payload } ==> {
            &&& outcome matches Ok((next, step))
            &&& next == UdpState::Bound { target, payload }
            &&& step matches UdpStep::Bind(from)
            &&& sends_from(from, target)
        },
        state matches UdpState::Bound { target, payload } ==> (outcome matches Ok((next, step))
            && next == (UdpState::Waiting { target }) && step == (UdpStep::Send {
            payload,
            target,
        })),
        state is Waiting ==> (outcome matches Ok((next, step)) && next == state && step is Receive),
        state matches UdpState::Answered { packet } ==> (outcome matches Ok((next, step)) && next
            is Closed && step == UdpStep::Reply(packet)),
        state is Closed ==> (outcome matches Ok((next, step)) && next is Closed && step is Close),
{
}

// ---------------------------------------------------------------------------------------------
// Errors
// ---------------------------------------------------------------------------------------------

/// An error carries its text as it is, and a kind: a protocol violation, a connection that ended
/// too early, or a peer that was silent for too long.
pub proof fn law_errors_say_what_went_wrong(message: Seq<char>)
    ensures
        invalid(message).kind is InvalidData && invalid(message).message == message,
        cut_short(message).kind is UnexpectedEof && cut_short(message).message == message,
        too_slow(message).kind is TimedOut && too_slow(message).message == message,
        number_error_text(NumberError::Empty) == "cannot parse integer from empty string"@,
        number_error_text(NumberError::InvalidDigit) == "invalid digit found in string"@,
        number_error_text(NumberError::Overflow) == "number too large to fit in target type"@,
        refusal_text(Refusal::Closed) == "semaphore closed"@,
        refusal_text(Refusal::NoPermits) == "no permits available"@,
{
}

// ---------------------------------------------------------------------------------------------
// Numbers
// ---------------------------------------------------------------------------------------------

/// A listening socket is of the family of its address, can be bound again at once, returns from
/// calls at once, and takes IPv6 traffic alone if it is an IPv6 socket.
pub proof fn law_how_a_socket_is_set_up(address: SocketAddress)
    ensures
        listen_options(address).ipv6 <==> address.ip is V6,
        listen_options(address).onlyIpv6 <==> address.ip is V6,
        listen_options(address).reuseAddress,
        listen_options(address).nonblocking,
{
}

/// The ports, limits and times that the proxy goes by.
pub proof fn law_the_numbers_of_the_proxy()
    ensures
        httpProxyPort == 1080,
        httpsConnectProxyPort == 1081,
        socks5ProxyPort == 1082,
        listenerBacklog == 1024,
        tcpIdleTimeoutSeconds == 300,
        udpResponseTimeoutSeconds == 20,
        tcpKeepaliveIdleSeconds == 60,
        tcpKeepaliveIntervalSeconds == 20,
        bufferSize == 16384,
        udpBufferSize == 65535,
        maxHttpHeaderSize == 65536,
        maxTcpConnectionsPerService == 4096,
{
}

} // verus!
