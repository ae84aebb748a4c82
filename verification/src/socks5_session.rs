//! A client's control connection to the SOCKS5 proxy, one decision at a time.
//!
//! [`Socks5Session`] says what to do next: read an exact number of bytes, write, dial, relay, or
//! stop. Whoever drives it performs the action, hands back the outcome, and asks again.

use vstd::prelude::*;
use vstd::slice::slice_subrange;
use vstd::utf8::{
    decode_utf8, encode_utf8, encode_utf8_decode_utf8, encode_utf8_valid_utf8, valid_utf8,
};

use crate::address::{
    formatHostAndPort, host_and_port, ip_text, ipv4_text, ipv4Loopback, ipv6_text, ipv6Loopback,
    law_port_round_trip, port_bytes, port_of, portOf, unspecifiedSocketAddress, IpAddress,
    SocketAddress,
};
use crate::error::{detailed, invalid, invalidData, ErrorKind, ErrorView, ProxyError};
use crate::socks5::{
    address_bytes, address_type, buildSocks5ReplyPacket, ipv4TextAt, ipv6TextAt, reply_packet,
    unsupported, unsupportedError,
};
use crate::text::{textFromUtf8, utf8_error_text};

verus! {

/// The port of the SOCKS5 proxy.
pub const socks5ProxyPort: u16 = 1082;

// ---------------------------------------------------------------------------------------------
// Phases
// ---------------------------------------------------------------------------------------------

/// What a client is about to send.
#[derive(Clone, Copy, Debug, PartialEq, Eq, Structural)]
pub enum Stage {
    /// The version and the number of methods.
    Greeting,
    /// The methods.
    Methods { count: u8 },
    /// Version, command, a reserved byte and the type of the address.
    Request,
    /// An IPv4 address and a port.
    Ipv4 { command: u8 },
    /// An IPv6 address and a port.
    Ipv6 { command: u8 },
    /// The length of a domain name.
    NameLength { command: u8 },
    /// A domain name and a port.
    Name { command: u8, length: u8 },
}

/// How many bytes a stage takes.
pub open spec fn stage_size(stage: Stage) -> nat {
    match stage {
        Stage::Greeting => 2,
        Stage::Methods { count } => count as nat,
        Stage::Request => 4,
        Stage::Ipv4 { .. } => 6,
        Stage::Ipv6 { .. } => 18,
        Stage::NameLength { .. } => 1,
        Stage::Name { command, length } => length as nat + 2,
    }
}

/// How far a connection has come, as contracts see it.
pub enum Socks5State {
    Reading(Stage),
    Accepting,
    Refusing { reply: Seq<u8>, error: ErrorView },
    Failed { error: ErrorView },
    Dialling { address: Seq<char> },
    Associating,
    Confirming { reply: Seq<u8>, relay: bool },
    Relaying,
    Holding,
    Closed,
}

/// How far a connection has come.
#[derive(Debug)]
pub enum Socks5Session {
    /// The client is about to send something.
    Reading(Stage),
    /// The client is to be told that it needs no authentication.
    Accepting,
    /// The client is to be refused.
    Refusing { reply: Vec<u8>, error: ProxyError },
    /// The connection failed.
    Failed { error: ProxyError },
    /// The target is to be dialled.
    Dialling { address: String },
    /// A UDP association is to be made.
    Associating,
    /// The client is to be told that its request is granted.
    Confirming { reply: Vec<u8>, relay: bool },
    /// Client and target are connected.
    Relaying,
    /// The UDP association lasts as long as this connection.
    Holding,
    /// The connection is over.
    Closed,
}

impl View for Socks5Session {
    type V = Socks5State;

    open spec fn view(&self) -> Socks5State {
        match self {
            Socks5Session::Reading(stage) => Socks5State::Reading(*stage),
            Socks5Session::Accepting => Socks5State::Accepting,
            Socks5Session::Refusing { reply, error } => Socks5State::Refusing {
                reply: reply@,
                error: error@,
            },
            Socks5Session::Failed { error } => Socks5State::Failed { error: error@ },
            Socks5Session::Dialling { address } => Socks5State::Dialling { address: address@ },
            Socks5Session::Associating => Socks5State::Associating,
            Socks5Session::Confirming { reply, relay } => Socks5State::Confirming {
                reply: reply@,
                relay: *relay,
            },
            Socks5Session::Relaying => Socks5State::Relaying,
            Socks5Session::Holding => Socks5State::Holding,
            Socks5Session::Closed => Socks5State::Closed,
        }
    }
}

// ---------------------------------------------------------------------------------------------
// Actions
// ---------------------------------------------------------------------------------------------

/// What to do next, as contracts see it.
pub enum Socks5Step {
    ReadExact(nat),
    Write(Seq<u8>),
    Connect(Seq<char>),
    Associate,
    Relay,
    Hold,
    Close,
}

/// What to do next.
#[derive(Debug)]
pub enum Socks5Action {
    /// Read exactly so many bytes from the client and hand them to `receive`.
    ReadExact(usize),
    /// Write to the client.
    Write(Vec<u8>),
    /// Dial this address and report to `connected` or `connectFailed`.
    Connect(String),
    /// Find out at which local address the client was accepted and report to `associate`.
    Associate,
    /// Relay everything between client and target until both are done.
    Relay,
    /// Read from the client and throw away what comes until it closes the connection.
    Hold,
    /// Close the client's connection.
    Close,
}

impl View for Socks5Action {
    type V = Socks5Step;

    open spec fn view(&self) -> Socks5Step {
        match self {
            Socks5Action::ReadExact(n) => Socks5Step::ReadExact(*n as nat),
            Socks5Action::Write(bytes) => Socks5Step::Write(bytes@),
            Socks5Action::Connect(address) => Socks5Step::Connect(address@),
            Socks5Action::Associate => Socks5Step::Associate,
            Socks5Action::Relay => Socks5Step::Relay,
            Socks5Action::Hold => Socks5Step::Hold,
            Socks5Action::Close => Socks5Step::Close,
        }
    }
}

// ---------------------------------------------------------------------------------------------
// Decisions
// ---------------------------------------------------------------------------------------------

/// A reply with the given code that names no address.
pub open spec fn bare_reply(code: u8) -> Seq<u8> {
    seq![5u8, code, 0, 1, 0, 0, 0, 0, 0, 0]
}

/// The decision in any state.
pub open spec fn socks5_next(state: Socks5State) -> Result<(Socks5State, Socks5Step), ErrorView> {
    match state {
        Socks5State::Reading(stage) => Ok((state, Socks5Step::ReadExact(stage_size(stage)))),
        Socks5State::Accepting => Ok(
            (Socks5State::Reading(Stage::Request), Socks5Step::Write(seq![5u8, 0])),
        ),
        Socks5State::Refusing { reply, error } => Ok(
            (Socks5State::Failed { error }, Socks5Step::Write(reply)),
        ),
        Socks5State::Failed { error } => Err(error),
        Socks5State::Dialling { address } => Ok((state, Socks5Step::Connect(address))),
        Socks5State::Associating => Ok((state, Socks5Step::Associate)),
        Socks5State::Confirming { reply, relay } => Ok(
            (
                if relay {
                    Socks5State::Relaying
                } else {
                    Socks5State::Holding
                },
                Socks5Step::Write(reply),
            ),
        ),
        Socks5State::Relaying => Ok((Socks5State::Closed, Socks5Step::Relay)),
        Socks5State::Holding => Ok((Socks5State::Closed, Socks5Step::Hold)),
        Socks5State::Closed => Ok((state, Socks5Step::Close)),
    }
}

/// What a request with the given command and target leads to.
pub open spec fn on_command(command: u8, host: Seq<char>, port: u16) -> Socks5State {
    if command == 1 {
        Socks5State::Dialling { address: host_and_port(host, port) }
    } else if command == 3 {
        Socks5State::Associating
    } else {
        Socks5State::Refusing {
            reply: bare_reply(7),
            error: unsupported("unsupported SOCKS5 command "@, command),
        }
    }
}

/// What the bytes of a stage lead to.
pub open spec fn on_bytes(stage: Stage, data: Seq<u8>) -> Result<Socks5State, ErrorView> {
    match stage {
        Stage::Greeting => if data[0] != 5 {
            Err(invalid("unsupported SOCKS version"@))
        } else {
            Ok(Socks5State::Reading(Stage::Methods { count: data[1] }))
        },
        Stage::Methods { count } => if data.contains(0u8) {
            Ok(Socks5State::Accepting)
        } else {
            Ok(
                Socks5State::Refusing {
                    reply: seq![5u8, 0xff],
                    error: invalid("SOCKS5 no-auth method is not supported by client"@),
                },
            )
        },
        Stage::Request => {
            let command = data[1];
            if data[0] != 5 || data[2] != 0 {
                Err(invalid("invalid SOCKS5 request header"@))
            } else if data[3] == 1 {
                Ok(Socks5State::Reading(Stage::Ipv4 { command }))
            } else if data[3] == 3 {
                Ok(Socks5State::Reading(Stage::NameLength { command }))
            } else if data[3] == 4 {
                Ok(Socks5State::Reading(Stage::Ipv6 { command }))
            } else {
                Err(unsupported("unsupported SOCKS5 address type "@, data[3]))
            }
        },
        Stage::Ipv4 { command } => Ok(
            on_command(command, ipv4_text(data.subrange(0, 4)), port_of(data[4], data[5])),
        ),
        Stage::Ipv6 { command } => Ok(
            on_command(command, ipv6_text(data.subrange(0, 16)), port_of(data[16], data[17])),
        ),
        Stage::NameLength { command } => if data[0] == 0 {
            Err(invalid("empty SOCKS5 domain"@))
        } else {
            Ok(Socks5State::Reading(Stage::Name { command, length: data[0] }))
        },
        Stage::Name { command, length } => {
            let n = length as int;
            let name = data.subrange(0, n);
            if valid_utf8(name) {
                Ok(on_command(command, decode_utf8(name), port_of(data[n], data[n + 1])))
            } else {
                Err(invalid("invalid SOCKS5 domain: "@ + utf8_error_text(name)))
            }
        },
    }
}

/// What bytes that were read lead to.
pub open spec fn socks5_receive(state: Socks5State, data: Seq<u8>) -> Result<
    Socks5State,
    ErrorView,
> {
    match state {
        Socks5State::Reading(stage) => on_bytes(stage, data),
        _ => Ok(state),
    }
}

/// What a connection to the target leads to: the client learns the local address of it, or of
/// none where it is not known.
pub open spec fn socks5_connected(state: Socks5State, bound: Option<SocketAddress>) -> Socks5State {
    match state {
        Socks5State::Dialling { address } => Socks5State::Confirming {
            reply: match bound {
                Some(local) => reply_packet(0, local),
                None => bare_reply(0),
            },
            relay: true,
        },
        _ => state,
    }
}

/// What a failure to connect leads to: the client is told, and the connection ends with an error
/// of the kind that the system reported.
pub open spec fn socks5_connect_failed(
    state: Socks5State,
    kind: std::io::ErrorKind,
    reason: Seq<char>,
) -> Socks5State {
    match state {
        Socks5State::Dialling { address } => Socks5State::Refusing {
            reply: bare_reply(5),
            error: ErrorView {
                kind: ErrorKind::ConnectFailed(kind),
                message: "SOCKS5 connect "@ + address + " failed: "@ + reason,
            },
        },
        _ => state,
    }
}

/// Whether an address is where datagrams of a client are taken that was accepted at `local`: the
/// loopback address of the same family, at the proxy's own port.
pub open spec fn is_association(address: SocketAddress, local: Option<SocketAddress>) -> bool {
    &&& address.ip.is_loopback()
    &&& address.port == socks5ProxyPort
    &&& address.scope == 0
    &&& address.ip is V6 <==> (local matches Some(l) && l.ip is V6)
}

/// What a UDP association leads to: the client learns the address where datagrams are taken.
pub open spec fn socks5_associated(state: Socks5State, address: SocketAddress) -> Socks5State {
    match state {
        Socks5State::Associating => Socks5State::Confirming {
            reply: reply_packet(0, address),
            relay: false,
        },
        _ => state,
    }
}

/// Reports the address where datagrams of a client are taken that was accepted at `local`.
pub fn associationAddress(local: Option<SocketAddress>) -> (address: SocketAddress)
    ensures
        is_association(address, local),
{
    let ip = match local {
        Some(SocketAddress { ip: IpAddress::V6(_), port, scope }) => ipv6Loopback(),
        _ => ipv4Loopback(),
    };
    SocketAddress { ip, port: socks5ProxyPort, scope: 0 }
}

fn bareReply(code: u8) -> (reply: Vec<u8>)
    ensures
        reply@ == bare_reply(code),
{
    let reply = buildSocks5ReplyPacket(code, &unspecifiedSocketAddress());
    assert(reply@ =~= bare_reply(code));
    reply
}

fn onCommand(command: u8, host: &str, port: u16) -> (session: Socks5Session)
    ensures
        session@ == on_command(command, host@, port),
{
    if command == 1 {
        Socks5Session::Dialling { address: formatHostAndPort(host, port) }
    } else if command == 3 {
        Socks5Session::Associating
    } else {
        Socks5Session::Refusing {
            reply: bareReply(7),
            error: unsupportedError("unsupported SOCKS5 command ", command),
        }
    }
}

fn holdsZero(data: &[u8]) -> (r: bool)
    ensures
        r == data@.contains(0u8),
{
    for i in 0..data.len()
        invariant
            forall|j: int| 0 <= j < i ==> data@[j] != 0,
    {
        if data[i] == 0 {
            assert(data@[i as int] == 0);
            return true;
        }
    }
    false
}

fn onBytes(stage: Stage, data: &[u8]) -> (r: Result<Socks5Session, ProxyError>)
    requires
        data.len() == stage_size(stage),
    ensures
        match r {
            Ok(session) => on_bytes(stage, data@) == Ok::<Socks5State, ErrorView>(session@),
            Err(e) => on_bytes(stage, data@) == Err::<Socks5State, ErrorView>(e@),
        },
{
    match stage {
        Stage::Greeting => if data[0] != 5 {
            Err(invalidData("unsupported SOCKS version"))
        } else {
            Ok(Socks5Session::Reading(Stage::Methods { count: data[1] }))
        },
        Stage::Methods { count } => if holdsZero(data) {
            Ok(Socks5Session::Accepting)
        } else {
            let reply: Vec<u8> = vec![5, 0xff];
            assert(reply@ =~= seq![5u8, 0xff]);
            Ok(
                Socks5Session::Refusing {
                    reply,
                    error: invalidData("SOCKS5 no-auth method is not supported by client"),
                },
            )
        },
        Stage::Request => {
            let command = data[1];
            if data[0] != 5 || data[2] != 0 {
                Err(invalidData("invalid SOCKS5 request header"))
            } else if data[3] == 1 {
                Ok(Socks5Session::Reading(Stage::Ipv4 { command }))
            } else if data[3] == 3 {
                Ok(Socks5Session::Reading(Stage::NameLength { command }))
            } else if data[3] == 4 {
                Ok(Socks5Session::Reading(Stage::Ipv6 { command }))
            } else {
                Err(unsupportedError("unsupported SOCKS5 address type ", data[3]))
            }
        },
        Stage::Ipv4 { command } => {
            let host = ipv4TextAt(data, 0);
            Ok(onCommand(command, &host, portOf(data[4], data[5])))
        },
        Stage::Ipv6 { command } => {
            let host = ipv6TextAt(data, 0);
            Ok(onCommand(command, &host, portOf(data[16], data[17])))
        },
        Stage::NameLength { command } => if data[0] == 0 {
            Err(invalidData("empty SOCKS5 domain"))
        } else {
            Ok(Socks5Session::Reading(Stage::Name { command, length: data[0] }))
        },
        Stage::Name { command, length } => {
            let n = length as usize;
            match textFromUtf8(slice_subrange(data, 0, n)) {
                Ok(host) => Ok(onCommand(command, &host, portOf(data[n], data[n + 1]))),
                Err(reason) => Err(
                    detailed(ErrorKind::InvalidData, "invalid SOCKS5 domain: ", &reason),
                ),
            }
        },
    }
}

fn stageSize(stage: &Stage) -> (n: usize)
    ensures
        n == stage_size(*stage),
{
    match stage {
        Stage::Greeting => 2,
        Stage::Methods { count } => *count as usize,
        Stage::Request => 4,
        Stage::Ipv4 { .. } => 6,
        Stage::Ipv6 { .. } => 18,
        Stage::NameLength { .. } => 1,
        Stage::Name { command, length } => *length as usize + 2,
    }
}

impl Socks5Session {
    /// A connection on which nothing has happened yet.
    pub fn new() -> (session: Socks5Session)
        ensures
            session@ == Socks5State::Reading(Stage::Greeting),
    {
        Socks5Session::Reading(Stage::Greeting)
    }

    fn take(&mut self) -> (session: Socks5Session)
        ensures
            session == *old(self),
            final(self)@ == Socks5State::Closed,
    {
        let mut session = Socks5Session::Closed;
        std::mem::swap(&mut session, self);
        session
    }

    /// Decides what to do next. A failure ends the connection.
    pub fn next(&mut self) -> (r: Result<Socks5Action, ProxyError>)
        ensures
            match r {
                Ok(action) => socks5_next(old(self)@) == Ok::<(Socks5State, Socks5Step), ErrorView>(
                    (final(self)@, action@),
                ),
                Err(e) => socks5_next(old(self)@) == Err::<(Socks5State, Socks5Step), ErrorView>(e@)
                    && final(self)@ == Socks5State::Closed,
            },
    {
        match self.take() {
            Socks5Session::Reading(stage) => {
                let n = stageSize(&stage);
                *self = Socks5Session::Reading(stage);
                Ok(Socks5Action::ReadExact(n))
            },
            Socks5Session::Accepting => {
                *self = Socks5Session::Reading(Stage::Request);
                let reply: Vec<u8> = vec![5, 0];
                assert(reply@ =~= seq![5u8, 0]);
                Ok(Socks5Action::Write(reply))
            },
            Socks5Session::Refusing { reply, error } => {
                *self = Socks5Session::Failed { error };
                Ok(Socks5Action::Write(reply))
            },
            Socks5Session::Failed { error } => Err(error),
            Socks5Session::Dialling { address } => {
                let copy = address.clone();
                *self = Socks5Session::Dialling { address };
                Ok(Socks5Action::Connect(copy))
            },
            Socks5Session::Associating => {
                *self = Socks5Session::Associating;
                Ok(Socks5Action::Associate)
            },
            Socks5Session::Confirming { reply, relay } => {
                if relay {
                    *self = Socks5Session::Relaying;
                } else {
                    *self = Socks5Session::Holding;
                }
                Ok(Socks5Action::Write(reply))
            },
            Socks5Session::Relaying => Ok(Socks5Action::Relay),
            Socks5Session::Holding => Ok(Socks5Action::Hold),
            Socks5Session::Closed => Ok(Socks5Action::Close),
        }
    }

    /// Takes in the bytes that the last `ReadExact` asked for. A failure ends the connection.
    pub fn receive(&mut self, data: &[u8]) -> (r: Result<(), ProxyError>)
        requires
            old(self)@ matches Socks5State::Reading(stage) ==> data.len() == stage_size(stage),
        ensures
            match r {
                Ok(_) => socks5_receive(old(self)@, data@) == Ok::<Socks5State, ErrorView>(
                    final(self)@,
                ),
                Err(e) => socks5_receive(old(self)@, data@) == Err::<Socks5State, ErrorView>(e@)
                    && final(self)@ == Socks5State::Closed,
            },
    {
        match self.take() {
            Socks5Session::Reading(stage) => match onBytes(stage, data) {
                Ok(session) => {
                    *self = session;
                    Ok(())
                },
                Err(e) => Err(e),
            },
            other => {
                *self = other;
                Ok(())
            },
        }
    }

    /// Takes note that the target was reached from the given local address.
    pub fn connected(&mut self, bound: Option<SocketAddress>)
        ensures
            final(self)@ == socks5_connected(old(self)@, bound),
    {
        match self {
            Socks5Session::Dialling { address } => {
                let reply = match bound {
                    Some(local) => buildSocks5ReplyPacket(0, &local),
                    None => bareReply(0),
                };
                *self = Socks5Session::Confirming { reply, relay: true };
            },
            _ => {},
        }
    }

    /// Takes note that the target could not be reached.
    pub fn connectFailed(&mut self, kind: std::io::ErrorKind, reason: &str)
        ensures
            final(self)@ == socks5_connect_failed(old(self)@, kind, reason@),
    {
        match self {
            Socks5Session::Dialling { address } => {
                let mut message = "SOCKS5 connect ".to_owned();
                message.append(address);
                message.append(" failed: ");
                message.append(reason);
                *self = Socks5Session::Refusing {
                    reply: bareReply(5),
                    error: ProxyError { kind: ErrorKind::ConnectFailed(kind), message },
                };
            },
            _ => {},
        }
    }

    /// Grants a UDP association and returns the address where datagrams are taken.
    pub fn associate(&mut self, local: Option<SocketAddress>) -> (address: SocketAddress)
        ensures
            is_association(address, local),
            final(self)@ == socks5_associated(old(self)@, address),
    {
        let address = associationAddress(local);
        match self {
            Socks5Session::Associating => {
                *self = Socks5Session::Confirming {
                    reply: buildSocks5ReplyPacket(0, &address),
                    relay: false,
                };
            },
            _ => {},
        }
        address
    }
}

// ---------------------------------------------------------------------------------------------
// Laws
// ---------------------------------------------------------------------------------------------

/// What bytes from the client, one stage after another, lead to from a given stage; in between
/// the client is told what it is to be told. `None` if they do not fill whole stages or lead to a
/// failure.
pub open spec fn handshake(state: Socks5State, stream: Seq<u8>) -> Option<Socks5State>
    decreases stream.len(), handshake_rank(state),
{
    if stream.len() == 0 {
        Some(state)
    } else {
        match state {
            Socks5State::Accepting => handshake(Socks5State::Reading(Stage::Request), stream),
            Socks5State::Reading(stage) => {
                let n = stage_size(stage) as int;
                if n == 0 || n > stream.len() {
                    None
                } else {
                    match on_bytes(stage, stream.take(n)) {
                        Err(_) => None,
                        Ok(next) => handshake(next, stream.skip(n)),
                    }
                }
            },
            _ => None,
        }
    }
}

/// Whether the client's bytes have to wait for the proxy's.
pub open spec fn handshake_rank(state: Socks5State) -> nat {
    if state is Accepting {
        1
    } else {
        0
    }
}

/// A greeting that offers to do without authentication, among `methods`.
pub open spec fn greeting(methods: Seq<u8>) -> Seq<u8> {
    seq![5u8, methods.len() as u8] + methods
}

/// A request with the given command for an address.
pub open spec fn address_request(command: u8, address: SocketAddress) -> Seq<u8> {
    seq![5u8, command, 0] + address_bytes(address)
}

/// A request with the given command for a named host.
pub open spec fn name_request(command: u8, name: Seq<char>, port: u16) -> Seq<u8> {
    let bytes = encode_utf8(name);
    seq![5u8, command, 0, 3, bytes.len() as u8] + bytes + port_bytes(port)
}

/// The bytes of one stage lead from it to the next.
proof fn lemma_handshake_step(stage: Stage, data: Seq<u8>, rest: Seq<u8>)
    requires
        0 < data.len() == stage_size(stage),
        on_bytes(stage, data) is Ok,
    ensures
        handshake(Socks5State::Reading(stage), data + rest) == handshake(
            on_bytes(stage, data)->Ok_0,
            rest,
        ),
{
    let stream = data + rest;
    let n = data.len() as int;
    assert(stream.take(n) =~= data);
    assert(stream.skip(n) =~= rest);
}

proof fn lemma_greeting(methods: Seq<u8>, request: Seq<u8>)
    requires
        methods.len() < 256,
        methods.contains(0u8),
        request.len() > 0,
    ensures
        handshake(Socks5State::Reading(Stage::Greeting), greeting(methods) + request) == handshake(
            Socks5State::Reading(Stage::Request),
            request,
        ),
{
    let count = methods.len() as u8;
    lemma_handshake_step(Stage::Greeting, seq![5u8, count], methods + request);
    lemma_handshake_step(Stage::Methods { count }, methods, request);
    assert(greeting(methods) + request =~= seq![5u8, count] + (methods + request));
}

/// A client that offers to do without authentication and asks for an address gets to that
/// address, with whatever command it asks.
#[verifier::spinoff_prover]
#[verifier::rlimit(40)]
pub proof fn law_a_request_for_an_address_is_understood(
    methods: Seq<u8>,
    command: u8,
    address: SocketAddress,
)
    requires
        methods.len() < 256,
        methods.contains(0u8),
    ensures
        handshake(
            Socks5State::Reading(Stage::Greeting),
            greeting(methods) + address_request(command, address),
        ) == Some(on_command(command, ip_text(address.ip), address.port)),
{
    let request = address_request(command, address);
    let none = Seq::<u8>::empty();
    lemma_greeting(methods, request);
    law_port_round_trip(address.port);
    let head = seq![5u8, command, 0, address_type(address.ip)];
    let tail = address.ip.octets() + port_bytes(address.port);
    lemma_handshake_step(Stage::Request, head, tail);
    assert(request =~= head + tail);
    assert(tail + none =~= tail);
    match address.ip {
        IpAddress::V4(bytes) => {
            assert(tail.subrange(0, 4) =~= bytes@);
            lemma_handshake_step(Stage::Ipv4 { command }, tail, none);
        },
        IpAddress::V6(bytes) => {
            assert(tail.subrange(0, 16) =~= bytes@);
            lemma_handshake_step(Stage::Ipv6 { command }, tail, none);
        },
    }
}

/// A client that offers to do without authentication and asks for a named host gets to that
/// host, with whatever command it asks.
#[verifier::spinoff_prover]
#[verifier::rlimit(40)]
pub proof fn law_a_request_for_a_name_is_understood(
    methods: Seq<u8>,
    command: u8,
    name: Seq<char>,
    port: u16,
)
    requires
        methods.len() < 256,
        methods.contains(0u8),
        0 < encode_utf8(name).len() < 256,
    ensures
        handshake(
            Socks5State::Reading(Stage::Greeting),
            greeting(methods) + name_request(command, name, port),
        ) == Some(on_command(command, name, port)),
{
    let request = name_request(command, name, port);
    let none = Seq::<u8>::empty();
    let bytes = encode_utf8(name);
    let length = bytes.len() as u8;
    lemma_greeting(methods, request);
    law_port_round_trip(port);
    encode_utf8_valid_utf8(name);
    encode_utf8_decode_utf8(name);
    let head = seq![5u8, command, 0, 3];
    let tail = bytes + port_bytes(port);
    lemma_handshake_step(Stage::Request, head, seq![length] + tail);
    lemma_handshake_step(Stage::NameLength { command }, seq![length], tail);
    assert(tail.subrange(0, length as int) =~= bytes);
    lemma_handshake_step(Stage::Name { command, length }, tail, none);
    assert(request =~= head + (seq![length] + tail));
    assert(tail + none =~= tail);
}

/// Whether the client is sent the given bytes and the connection then fails with the given error.
pub open spec fn is_refused(state: Socks5State, reply: Seq<u8>, error: ErrorView) -> bool {
    socks5_next(state) matches Ok((next, step)) && step == Socks5Step::Write(reply) && socks5_next(
        next,
    ) == Err::<(Socks5State, Socks5Step), ErrorView>(error)
}

/// A client that is refused is told so before its connection fails: one that insists on
/// authentication, one that asks for what is not supported, and one whose target cannot be
/// reached.
pub proof fn law_a_refused_client_is_told(
    methods: Seq<u8>,
    command: u8,
    host: Seq<char>,
    port: u16,
    kind: std::io::ErrorKind,
    reason: Seq<char>,
)
    ensures
        !methods.contains(0u8) ==> {
            &&& on_bytes(Stage::Methods { count: methods.len() as u8 }, methods) matches Ok(state)
            &&& is_refused(
                state,
                seq![5u8, 0xff],
                invalid("SOCKS5 no-auth method is not supported by client"@),
            )
        },
        command != 1 && command != 3 ==> is_refused(
            on_command(command, host, port),
            bare_reply(7),
            unsupported("unsupported SOCKS5 command "@, command),
        ),
        is_refused(
            socks5_connect_failed(on_command(1, host, port), kind, reason),
            bare_reply(5),
            ErrorView {
                kind: ErrorKind::ConnectFailed(kind),
                message: "SOCKS5 connect "@ + host_and_port(host, port) + " failed: "@ + reason,
            },
        ),
{
}

/// A target that was reached is confirmed with the local address of the connection before
/// anything is relayed, and the connection is closed behind that.
pub proof fn law_a_connection_is_confirmed_then_relayed(
    host: Seq<char>,
    port: u16,
    bound: Option<SocketAddress>,
)
    ensures
        ({
            let connected = socks5_connected(on_command(1, host, port), bound);
            let reply = match bound {
                Some(local) => reply_packet(0, local),
                None => bare_reply(0),
            };
            &&& socks5_next(connected) == Ok::<(Socks5State, Socks5Step), ErrorView>(
                (Socks5State::Relaying, Socks5Step::Write(reply)),
            )
            &&& socks5_next(Socks5State::Relaying) == Ok::<(Socks5State, Socks5Step), ErrorView>(
                (Socks5State::Closed, Socks5Step::Relay),
            )
            &&& socks5_next(Socks5State::Closed) == Ok::<(Socks5State, Socks5Step), ErrorView>(
                (Socks5State::Closed, Socks5Step::Close),
            )
        }),
{
}

/// The address in a reply is the one that was put into it, and the reply says nothing else.
pub proof fn law_reply_names_its_address(code: u8, address: SocketAddress, command: u8)
    ensures
        ({
            let reply = reply_packet(code, address);
            &&& reply.take(3) == seq![5u8, code, 0]
            &&& handshake(
                Socks5State::Reading(Stage::Request),
                seq![5u8, command, 0] + reply.skip(3),
            ) == Some(on_command(command, ip_text(address.ip), address.port))
        }),
{
    let methods = seq![0u8];
    let reply = reply_packet(code, address);
    assert(methods[0] == 0u8);
    assert(reply.take(3) =~= seq![5u8, code, 0]);
    assert(reply.skip(3) =~= address_bytes(address));
    lemma_greeting(methods, address_request(command, address));
    law_a_request_for_an_address_is_understood(methods, command, address);
}

} // verus!
