//! The services of the proxy: where they listen and how they treat what comes in.

use vstd::prelude::*;

use crate::address::{
    bracketed_with_port, bracketedHostWithPort, formatHostAndPort, host_and_port, ip_text, ipText,
    ipv4Loopback, ipv6Loopback, IpAddress, SocketAddress,
};
use crate::limit::{refusal_text, refusalText, ConnectionLimit, ConnectionPermit, Refusal};
use crate::log::Level;
use crate::number::{decimal, pushDecimal};
use crate::socks5_session::socks5ProxyPort;
use crate::text::texts;

verus! {

/// The port of the HTTP proxy.
pub const httpProxyPort: u16 = 1080;

/// The port of the HTTP proxy that is meant for HTTPS clients.
pub const httpsConnectProxyPort: u16 = 1081;

/// How many connections may wait to be accepted.
pub const listenerBacklog: i32 = 1024;

/// How long a peer may be silent.
pub const tcpIdleTimeoutSeconds: u64 = 300;

/// How long the answer to a datagram is waited for.
pub const udpResponseTimeoutSeconds: u64 = 20;

/// How long a connection is idle before it is probed.
pub const tcpKeepaliveIdleSeconds: u64 = 60;

/// How much time passes between two probes.
pub const tcpKeepaliveIntervalSeconds: u64 = 20;

/// How many bytes one read takes at most.
pub const bufferSize: usize = 16384;

/// How many bytes a datagram has at most.
pub const udpBufferSize: usize = 65535;

/// Where the log goes.
pub fn logFilePath() -> (path: &'static str)
    ensures
        path@ == "rproxy.log"@,
{
    "rproxy.log"
}

// ---------------------------------------------------------------------------------------------
// Services
// ---------------------------------------------------------------------------------------------

/// What a service speaks.
#[derive(Clone, Copy, Debug, PartialEq, Eq, Structural)]
pub enum ServiceKind {
    /// HTTP, with CONNECT for tunnels.
    Http,
    /// SOCKS5 over TCP.
    Socks5Tcp,
    /// The datagrams of SOCKS5.
    Socks5Udp,
}

/// A service as contracts see it.
pub struct ServiceView {
    pub name: Seq<char>,
    pub title: Seq<char>,
    pub kind: ServiceKind,
    pub address: SocketAddress,
}

/// A service.
#[derive(Clone, Copy, Debug)]
pub struct Service {
    /// How the log calls it.
    pub name: &'static str,
    /// What it is.
    pub title: &'static str,
    pub kind: ServiceKind,
    /// Where it listens.
    pub address: SocketAddress,
}

impl View for Service {
    type V = ServiceView;

    open spec fn view(&self) -> ServiceView {
        ServiceView {
            name: self.name@,
            title: self.title@,
            kind: self.kind,
            address: self.address,
        }
    }
}

/// Whether a service is the one that is listed with these properties: it listens on the loopback
/// address of its family.
pub open spec fn is_listed(
    service: ServiceView,
    name: Seq<char>,
    title: Seq<char>,
    kind: ServiceKind,
    v6: bool,
    port: u16,
) -> bool {
    &&& service.name == name
    &&& service.title == title
    &&& service.kind == kind
    &&& service.address.ip.is_loopback()
    &&& service.address.ip is V6 <==> v6
    &&& service.address.port == port
    &&& service.address.scope == 0
}

/// The services of the proxy, in the order in which they start.
pub open spec fn are_the_services(list: Seq<ServiceView>) -> bool {
    &&& list.len() == 8
    &&& is_listed(
        list[0],
        "HTTP-IPv4-1080"@,
        "HTTP IPv4 proxy"@,
        ServiceKind::Http,
        false,
        httpProxyPort,
    )
    &&& is_listed(
        list[1],
        "HTTP-IPv6-1080"@,
        "HTTP IPv6 proxy"@,
        ServiceKind::Http,
        true,
        httpProxyPort,
    )
    &&& is_listed(
        list[2],
        "HTTPS-CONNECT-IPv4-1081"@,
        "HTTPS CONNECT IPv4 proxy"@,
        ServiceKind::Http,
        false,
        httpsConnectProxyPort,
    )
    &&& is_listed(
        list[3],
        "HTTPS-CONNECT-IPv6-1081"@,
        "HTTPS CONNECT IPv6 proxy"@,
        ServiceKind::Http,
        true,
        httpsConnectProxyPort,
    )
    &&& is_listed(
        list[4],
        "SOCKS5-TCP-IPv4-1082"@,
        "SOCKS5 TCP IPv4 proxy"@,
        ServiceKind::Socks5Tcp,
        false,
        socks5ProxyPort,
    )
    &&& is_listed(
        list[5],
        "SOCKS5-TCP-IPv6-1082"@,
        "SOCKS5 TCP IPv6 proxy"@,
        ServiceKind::Socks5Tcp,
        true,
        socks5ProxyPort,
    )
    &&& is_listed(
        list[6],
        "SOCKS5-UDP-IPv4-1082"@,
        "SOCKS5 UDP IPv4 proxy"@,
        ServiceKind::Socks5Udp,
        false,
        socks5ProxyPort,
    )
    &&& is_listed(
        list[7],
        "SOCKS5-UDP-IPv6-1082"@,
        "SOCKS5 UDP IPv6 proxy"@,
        ServiceKind::Socks5Udp,
        true,
        socks5ProxyPort,
    )
}

/// Some services as contracts see them.
pub open spec fn service_views(list: Seq<Service>) -> Seq<ServiceView> {
    list.map_values(|s: Service| s@)
}

fn listed(
    name: &'static str,
    title: &'static str,
    kind: ServiceKind,
    v6: bool,
    port: u16,
) -> (service: Service)
    ensures
        is_listed(service@, name@, title@, kind, v6, port),
{
    let ip = if v6 {
        ipv6Loopback()
    } else {
        ipv4Loopback()
    };
    Service { name, title, kind, address: SocketAddress { ip, port, scope: 0 } }
}

/// Lists the services of the proxy.
pub fn services() -> (list: Vec<Service>)
    ensures
        are_the_services(service_views(list@)),
{
    let http = ServiceKind::Http;
    let tcp = ServiceKind::Socks5Tcp;
    let udp = ServiceKind::Socks5Udp;
    let list = vec![
        listed("HTTP-IPv4-1080", "HTTP IPv4 proxy", http, false, httpProxyPort),
        listed("HTTP-IPv6-1080", "HTTP IPv6 proxy", http, true, httpProxyPort),
        listed(
            "HTTPS-CONNECT-IPv4-1081",
            "HTTPS CONNECT IPv4 proxy",
            http,
            false,
            httpsConnectProxyPort,
        ),
        listed(
            "HTTPS-CONNECT-IPv6-1081",
            "HTTPS CONNECT IPv6 proxy",
            http,
            true,
            httpsConnectProxyPort,
        ),
        listed("SOCKS5-TCP-IPv4-1082", "SOCKS5 TCP IPv4 proxy", tcp, false, socks5ProxyPort),
        listed("SOCKS5-TCP-IPv6-1082", "SOCKS5 TCP IPv6 proxy", tcp, true, socks5ProxyPort),
        listed("SOCKS5-UDP-IPv4-1082", "SOCKS5 UDP IPv4 proxy", udp, false, socks5ProxyPort),
        listed("SOCKS5-UDP-IPv6-1082", "SOCKS5 UDP IPv6 proxy", udp, true, socks5ProxyPort),
    ];
    list
}

/// An address in text: an IPv6 address stands in brackets, with its scope if it has one.
pub open spec fn address_text(address: SocketAddress) -> Seq<char> {
    let text = ip_text(address.ip);
    match address.ip {
        IpAddress::V6(_) if address.scope != 0 => bracketed_with_port(
            text + "%"@ + decimal(address.scope as nat),
            address.port,
        ),
        _ => host_and_port(text, address.port),
    }
}

/// Writes an address as text.
pub fn addressText(address: &SocketAddress) -> (text: String)
    ensures
        text@ == address_text(*address),
{
    let mut text = ipText(&address.ip);
    match address.ip {
        IpAddress::V6(_) if address.scope != 0 => {
            text.append("%");
            pushDecimal(&mut text, address.scope as u64);
            bracketedHostWithPort(&text, address.port)
        },
        _ => formatHostAndPort(&text, address.port),
    }
}

/// What the log says when the proxy starts.
pub open spec fn startup_lines(list: Seq<ServiceView>) -> Seq<Seq<char>> {
    seq!["rproxy starting"@] + list.map_values(
        |s: ServiceView| s.title + " listening on "@ + address_text(s.address),
    ) + seq!["log file path: rproxy.log"@]
}

/// Words what the log says when the proxy starts.
pub fn startupLines(list: &[Service]) -> (lines: Vec<String>)
    ensures
        texts(lines@) == startup_lines(service_views(list@)),
{
    let ghost word = |s: ServiceView| s.title + " listening on "@ + address_text(s.address);
    let ghost worded = service_views(list@).map_values(word);
    let mut lines: Vec<String> = Vec::new();
    lines.push("rproxy starting".to_owned());
    assert(texts(lines@) =~= seq!["rproxy starting"@] + worded.take(0));
    for i in 0..list.len()
        invariant
            word == (|s: ServiceView| s.title + " listening on "@ + address_text(s.address)),
            worded == service_views(list@).map_values(word),
            texts(lines@) == seq!["rproxy starting"@] + worded.take(i as int),
    {
        let ghost before = texts(lines@);
        let mut line = list[i].title.to_owned();
        line.append(" listening on ");
        line.append(&addressText(&list[i].address));
        assert(service_views(list@)[i as int] == list@[i as int]@);
        assert(line@ == worded[i as int]);
        lines.push(line);
        assert(texts(lines@) =~= before.push(line@));
        assert(worded.take(i + 1) =~= worded.take(i as int).push(worded[i as int]));
        assert(texts(lines@) =~= seq!["rproxy starting"@] + worded.take(i + 1));
    }
    let ghost before = texts(lines@);
    let mut last = "log file path: ".to_owned();
    last.append(logFilePath());
    proof {
        reveal_strlit("log file path: ");
        reveal_strlit("rproxy.log");
        reveal_strlit("log file path: rproxy.log");
    }
    assert(last@ =~= "log file path: rproxy.log"@);
    lines.push(last);
    assert(texts(lines@) =~= before.push(last@));
    assert(worded.take(worded.len() as int) =~= worded);
    assert(texts(lines@) =~= startup_lines(service_views(list@)));
    lines
}

// ---------------------------------------------------------------------------------------------
// Sockets
// ---------------------------------------------------------------------------------------------

/// How a listening socket is set up.
#[derive(Clone, Copy, Debug, PartialEq, Eq, Structural)]
pub struct ListenOptions {
    /// The IPv6 family in place of IPv4.
    pub ipv6: bool,
    /// Whether an address can be bound again at once.
    pub reuseAddress: bool,
    /// Whether an IPv6 socket is kept from taking IPv4 traffic, which has a socket of its own.
    pub onlyIpv6: bool,
    /// Whether calls return at once.
    pub nonblocking: bool,
}

/// How a socket that listens on an address is set up.
pub open spec fn listen_options(address: SocketAddress) -> ListenOptions {
    ListenOptions {
        ipv6: address.ip is V6,
        reuseAddress: true,
        onlyIpv6: address.ip is V6,
        nonblocking: true,
    }
}

/// Decides how a socket that listens on an address is set up.
pub fn listenOptions(address: &SocketAddress) -> (options: ListenOptions)
    ensures
        options == listen_options(*address),
{
    let ipv6 = match address.ip {
        IpAddress::V6(_) => true,
        IpAddress::V4(_) => false,
    };
    ListenOptions { ipv6, reuseAddress: true, onlyIpv6: ipv6, nonblocking: true }
}

// ---------------------------------------------------------------------------------------------
// What comes in
// ---------------------------------------------------------------------------------------------

/// What happens to a service, as contracts see it.
pub enum ServiceEventView {
    BindFailed { reason: Seq<char> },
    Bound,
    AcceptFailed { reason: Seq<char> },
    Refused { client: Seq<char>, refusal: Refusal },
    Admitted { client: Seq<char> },
    PacketCame,
    ClientFailed { client: Seq<char>, reason: Seq<char> },
}

/// What happens to a service.
#[derive(Debug)]
pub enum ServiceEvent {
    /// The address could not be taken.
    BindFailed { reason: String },
    /// The address was taken.
    Bound,
    /// A connection or a datagram could not be taken in.
    AcceptFailed { reason: String },
    /// A connection came in when there was no room for it.
    Refused { client: String, refusal: Refusal },
    /// A connection came in.
    Admitted { client: String },
    /// A datagram came in.
    PacketCame,
    /// A client's connection or datagram was given up.
    ClientFailed { client: String, reason: String },
}

impl View for ServiceEvent {
    type V = ServiceEventView;

    open spec fn view(&self) -> ServiceEventView {
        match self {
            ServiceEvent::BindFailed { reason } => ServiceEventView::BindFailed {
                reason: reason@,
            },
            ServiceEvent::Bound => ServiceEventView::Bound,
            ServiceEvent::AcceptFailed { reason } => ServiceEventView::AcceptFailed {
                reason: reason@,
            },
            ServiceEvent::Refused { client, refusal } => ServiceEventView::Refused {
                client: client@,
                refusal: *refusal,
            },
            ServiceEvent::Admitted { client } => ServiceEventView::Admitted { client: client@ },
            ServiceEvent::PacketCame => ServiceEventView::PacketCame,
            ServiceEvent::ClientFailed { client, reason } => ServiceEventView::ClientFailed {
                client: client@,
                reason: reason@,
            },
        }
    }
}

/// What a service does next.
#[derive(Clone, Copy, Debug, PartialEq, Eq, Structural)]
pub enum ServiceAction {
    /// End without an error; the other services go on.
    Stop,
    /// Take in the next connection or datagram; drop one that is not served.
    Accept,
    /// Serve the connection or the datagram, and take in the next one meanwhile.
    Serve,
}

/// A message for the log, as contracts see it.
pub struct NoteView {
    pub level: Level,
    pub message: Seq<char>,
}

/// A message for the log.
#[derive(Debug)]
pub struct Note {
    pub level: Level,
    pub message: String,
}

impl View for Note {
    type V = NoteView;

    open spec fn view(&self) -> NoteView {
        NoteView { level: self.level, message: self.message@ }
    }
}

/// A message that may be there, as contracts see it.
pub open spec fn note_view(note: Option<Note>) -> Option<NoteView> {
    match note {
        Some(n) => Some(n@),
        None => None,
    }
}

/// What the log says of an event.
pub open spec fn service_note(service: ServiceView, event: ServiceEventView) -> Option<NoteView> {
    let name = service.name;
    match event {
        ServiceEventView::BindFailed { reason } => Some(
            NoteView {
                level: Level::Error,
                message: name + " bind failed on "@ + address_text(service.address) + ": "@
                    + reason,
            },
        ),
        ServiceEventView::Bound => Some(
            NoteView {
                level: Level::Info,
                message: name + " ready on "@ + address_text(service.address),
            },
        ),
        ServiceEventView::AcceptFailed { reason } => Some(
            NoteView {
                level: Level::Warn,
                message: name + if service.kind is Socks5Udp {
                    " UDP receive failed: "@
                } else {
                    " accept failed: "@
                } + reason,
            },
        ),
        ServiceEventView::Refused { client, refusal } => Some(
            NoteView {
                level: Level::Warn,
                message: name + " rejected "@ + client
                    + " because connection limit was reached: "@ + refusal_text(refusal),
            },
        ),
        ServiceEventView::Admitted { client } => Some(
            NoteView { level: Level::Info, message: name + " accepted "@ + client },
        ),
        ServiceEventView::PacketCame => None,
        ServiceEventView::ClientFailed { client, reason } => Some(
            NoteView {
                level: Level::Warn,
                message: match service.kind {
                    ServiceKind::Http => name + " client "@ + client + " closed with error: "@,
                    ServiceKind::Socks5Tcp => name + " client "@ + client + " error: "@,
                    ServiceKind::Socks5Udp => "SOCKS5 UDP client "@ + client + " error: "@,
                } + reason,
            },
        ),
    }
}

/// What a service does after an event: only an address that cannot be taken ends it.
pub open spec fn service_action(event: ServiceEventView) -> ServiceAction {
    match event {
        ServiceEventView::BindFailed { .. } => ServiceAction::Stop,
        ServiceEventView::Admitted { .. } | ServiceEventView::PacketCame => ServiceAction::Serve,
        _ => ServiceAction::Accept,
    }
}

impl Service {
    /// Decides what the log says of an event and what the service does next.
    pub fn step(&self, event: &ServiceEvent) -> (r: (Option<Note>, ServiceAction))
        ensures
            note_view(r.0) == service_note(self@, event@),
            r.1 == service_action(event@),
    {
        let mut message = self.name.to_owned();
        match event {
            ServiceEvent::BindFailed { reason } => {
                message.append(" bind failed on ");
                message.append(&addressText(&self.address));
                message.append(": ");
                message.append(reason);
                (Some(Note { level: Level::Error, message }), ServiceAction::Stop)
            },
            ServiceEvent::Bound => {
                message.append(" ready on ");
                message.append(&addressText(&self.address));
                (Some(Note { level: Level::Info, message }), ServiceAction::Accept)
            },
            ServiceEvent::AcceptFailed { reason } => {
                match self.kind {
                    ServiceKind::Socks5Udp => message.append(" UDP receive failed: "),
                    _ => message.append(" accept failed: "),
                }
                message.append(reason);
                (Some(Note { level: Level::Warn, message }), ServiceAction::Accept)
            },
            ServiceEvent::Refused { client, refusal } => {
                message.append(" rejected ");
                message.append(client);
                message.append(" because connection limit was reached: ");
                message.append(refusalText(*refusal));
                (Some(Note { level: Level::Warn, message }), ServiceAction::Accept)
            },
            ServiceEvent::Admitted { client } => {
                message.append(" accepted ");
                message.append(client);
                (Some(Note { level: Level::Info, message }), ServiceAction::Serve)
            },
            ServiceEvent::PacketCame => (None, ServiceAction::Serve),
            ServiceEvent::ClientFailed { client, reason } => {
                match self.kind {
                    ServiceKind::Http => {
                        message.append(" client ");
                        message.append(client);
                        message.append(" closed with error: ");
                    },
                    ServiceKind::Socks5Tcp => {
                        message.append(" client ");
                        message.append(client);
                        message.append(" error: ");
                    },
                    ServiceKind::Socks5Udp => {
                        message = "SOCKS5 UDP client ".to_owned();
                        message.append(client);
                        message.append(" error: ");
                    },
                }
                message.append(reason);
                (Some(Note { level: Level::Warn, message }), ServiceAction::Accept)
            },
        }
    }

    /// Decides about a connection that came in: with a permit it is served, without one it is
    /// dropped.
    pub fn letIn(&self, limit: &ConnectionLimit, client: String) -> (r: (
        Option<Note>,
        Option<ConnectionPermit>,
    ))
        ensures
            match r.1 {
                Some(permit) => permit.limit() == limit.limit() && note_view(r.0) == service_note(
                    self@,
                    ServiceEventView::Admitted { client: client@ },
                ),
                None => exists|refusal: Refusal|
                    note_view(r.0) == #[trigger] service_note(
                        self@,
                        ServiceEventView::Refused { client: client@, refusal },
                    ),
            },
    {
        self.onEntry(limit.tryEnter(), client)
    }

    /// Decides about a connection by what came of asking for a permit: with one it is served and
    /// holds that permit, without one it is dropped for the reason that was given.
    pub fn onEntry(&self, entered: Result<ConnectionPermit, Refusal>, client: String) -> (r: (
        Option<Note>,
        Option<ConnectionPermit>,
    ))
        ensures
            match entered {
                Ok(permit) => r.1 == Some(permit) && note_view(r.0) == service_note(
                    self@,
                    ServiceEventView::Admitted { client: client@ },
                ),
                Err(refusal) => r.1 is None && note_view(r.0) == service_note(
                    self@,
                    ServiceEventView::Refused { client: client@, refusal },
                ),
            },
    {
        match entered {
            Ok(permit) => (self.step(&ServiceEvent::Admitted { client }).0, Some(permit)),
            Err(refusal) => (self.step(&ServiceEvent::Refused { client, refusal }).0, None),
        }
    }
}

} // verus!
