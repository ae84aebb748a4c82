//! A client's datagram on its way to the target, and the answer on its way back.
//!
//! [`UdpSession`] says what to do next: look a target up, open a socket, send, wait for the
//! answer, or stop. Whoever drives it performs the action, hands back the outcome, and asks
//! again. An action that fails ends the session.

use vstd::prelude::*;

use crate::address::SocketAddress;
use crate::error::{ErrorView, ProxyError};
use crate::log::Level;
use crate::service::{address_text, addressText, note_view, Note, NoteView};
use crate::socks5::{
    buildSocks5UdpResponse, first_address, firstSocketAddress, plan_udp_packet,
    planSocks5UdpPacket, relayBindAddress, sends_from, udp_header, UdpRelayView,
};

verus! {

// ---------------------------------------------------------------------------------------------
// Phases and actions
// ---------------------------------------------------------------------------------------------

/// How far a datagram has come, as contracts see it.
pub enum UdpState {
    Received { packet: Seq<u8> },
    Resolving { name: Seq<char>, payload: Seq<u8> },
    Resolved { target: SocketAddress, payload: Seq<u8> },
    Bound { target: SocketAddress, payload: Seq<u8> },
    Waiting { target: SocketAddress },
    Answered { packet: Seq<u8> },
    Closed,
}

/// How far a datagram has come.
#[derive(Debug)]
pub enum UdpSession {
    /// The client sent it.
    Received { packet: Vec<u8> },
    /// Its target is to be looked up.
    Resolving { name: String, payload: Vec<u8> },
    /// Its target was found.
    Resolved { target: SocketAddress, payload: Vec<u8> },
    /// There is a socket to send it from.
    Bound { target: SocketAddress, payload: Vec<u8> },
    /// The target has it.
    Waiting { target: SocketAddress },
    /// The answer is to go to the client.
    Answered { packet: Vec<u8> },
    /// There is nothing left to do.
    Closed,
}

impl View for UdpSession {
    type V = UdpState;

    open spec fn view(&self) -> UdpState {
        match self {
            UdpSession::Received { packet } => UdpState::Received { packet: packet@ },
            UdpSession::Resolving { name, payload } => UdpState::Resolving {
                name: name@,
                payload: payload@,
            },
            UdpSession::Resolved { target, payload } => UdpState::Resolved {
                target: *target,
                payload: payload@,
            },
            UdpSession::Bound { target, payload } => UdpState::Bound {
                target: *target,
                payload: payload@,
            },
            UdpSession::Waiting { target } => UdpState::Waiting { target: *target },
            UdpSession::Answered { packet } => UdpState::Answered { packet: packet@ },
            UdpSession::Closed => UdpState::Closed,
        }
    }
}

/// What to do next, as contracts see it.
pub enum UdpStep {
    Resolve(Seq<char>),
    Bind(SocketAddress),
    Send { payload: Seq<u8>, target: SocketAddress },
    Receive,
    Reply(Seq<u8>),
    Close,
}

/// What to do next.
#[derive(Debug)]
pub enum UdpAction {
    /// Look this host and port up and report to `resolved`.
    Resolve(String),
    /// Open a socket at this address.
    Bind(SocketAddress),
    /// Send this from the socket.
    Send { payload: Vec<u8>, target: SocketAddress },
    /// Wait for a datagram at the socket and report to `received` or `timedOut`.
    Receive,
    /// Send this to the client.
    Reply(Vec<u8>),
    /// There is nothing left to do.
    Close,
}

impl View for UdpAction {
    type V = UdpStep;

    open spec fn view(&self) -> UdpStep {
        match self {
            UdpAction::Resolve(target) => UdpStep::Resolve(target@),
            UdpAction::Bind(address) => UdpStep::Bind(*address),
            UdpAction::Send { payload, target } => UdpStep::Send {
                payload: payload@,
                target: *target,
            },
            UdpAction::Receive => UdpStep::Receive,
            UdpAction::Reply(packet) => UdpStep::Reply(packet@),
            UdpAction::Close => UdpStep::Close,
        }
    }
}

// ---------------------------------------------------------------------------------------------
// Decisions
// ---------------------------------------------------------------------------------------------

/// Whether a decision is the right one: the next state with an action, or a failure.
pub open spec fn udp_next(
    state: UdpState,
    outcome: Result<(UdpState, UdpStep), ErrorView>,
) -> bool {
    match state {
        UdpState::Received { packet } => outcome == match plan_udp_packet(packet) {
            Err(e) => Err::<(UdpState, UdpStep), ErrorView>(e),
            Ok(None) => Ok((UdpState::Closed, UdpStep::Close)),
            Ok(Some(relay)) => Ok(
                (
                    UdpState::Resolving { name: relay.target, payload: relay.payload },
                    UdpStep::Resolve(relay.target),
                ),
            ),
        },
        UdpState::Resolving { name, payload } => outcome == Ok::<(UdpState, UdpStep), ErrorView>(
            (state, UdpStep::Resolve(name)),
        ),
        UdpState::Resolved { target, payload } => {
            &&& outcome matches Ok((next, UdpStep::Bind(address)))
            &&& next == UdpState::Bound { target, payload }
            &&& sends_from(address, target)
        },
        UdpState::Bound { target, payload } => outcome == Ok::<(UdpState, UdpStep), ErrorView>(
            (UdpState::Waiting { target }, UdpStep::Send { payload, target }),
        ),
        UdpState::Waiting { target } => outcome == Ok::<(UdpState, UdpStep), ErrorView>(
            (state, UdpStep::Receive),
        ),
        UdpState::Answered { packet } => outcome == Ok::<(UdpState, UdpStep), ErrorView>(
            (UdpState::Closed, UdpStep::Reply(packet)),
        ),
        UdpState::Closed => outcome == Ok::<(UdpState, UdpStep), ErrorView>(
            (UdpState::Closed, UdpStep::Close),
        ),
    }
}

/// What a lookup leads to: the first address that was found is the target.
pub open spec fn udp_resolved(state: UdpState, found: Seq<SocketAddress>) -> Result<
    UdpState,
    ErrorView,
> {
    match state {
        UdpState::Resolving { name, payload } => match first_address(found) {
            Ok(target) => Ok(UdpState::Resolved { target, payload }),
            Err(e) => Err(e),
        },
        _ => Ok(state),
    }
}

/// What an answer leads to: it goes to the client behind a header that names its sender.
pub open spec fn udp_received(state: UdpState, remote: SocketAddress, data: Seq<u8>) -> UdpState {
    match state {
        UdpState::Waiting { .. } => UdpState::Answered { packet: udp_header(remote) + data },
        _ => state,
    }
}

/// What the log says of a target that did not answer in time.
pub open spec fn udp_timeout(state: UdpState, reason: Seq<char>) -> Option<NoteView> {
    match state {
        UdpState::Waiting { target } => Some(
            NoteView {
                level: Level::Warn,
                message: "SOCKS5 UDP response timeout from "@ + address_text(target) + ": "@
                    + reason,
            },
        ),
        _ => None,
    }
}

/// What is left of a session whose target did not answer in time.
pub open spec fn udp_given_up(state: UdpState) -> UdpState {
    match state {
        UdpState::Waiting { .. } => UdpState::Closed,
        _ => state,
    }
}

impl UdpSession {
    /// A datagram that the client sent.
    pub fn new(packet: Vec<u8>) -> (session: UdpSession)
        ensures
            session@ == (UdpState::Received { packet: packet@ }),
    {
        UdpSession::Received { packet }
    }

    /// The datagram that the client sent, out of the buffer that it was received in: as many bytes
    /// at the front as it has, and nothing that an earlier one left behind them.
    pub fn fromBuffer(buffer: &[u8], size: usize) -> (session: UdpSession)
        requires
            size <= buffer.len(),
        ensures
            session@ == (UdpState::Received { packet: buffer@.take(size as int) }),
    {
        let packet = vstd::slice::slice_to_vec(vstd::slice::slice_subrange(buffer, 0, size));
        assert(packet@ =~= buffer@.take(size as int));
        UdpSession::new(packet)
    }

    fn take(&mut self) -> (session: UdpSession)
        ensures
            session == *old(self),
            final(self)@ == UdpState::Closed,
    {
        let mut session = UdpSession::Closed;
        std::mem::swap(&mut session, self);
        session
    }

    /// Decides what to do next. A failure ends the session.
    pub fn next(&mut self) -> (r: Result<UdpAction, ProxyError>)
        ensures
            match r {
                Ok(action) => udp_next(
                    old(self)@,
                    Ok::<(UdpState, UdpStep), ErrorView>((final(self)@, action@)),
                ),
                Err(e) => udp_next(old(self)@, Err::<(UdpState, UdpStep), ErrorView>(e@))
                    && final(self)@ == UdpState::Closed,
            },
    {
        match self.take() {
            UdpSession::Received { packet } => match planSocks5UdpPacket(&packet) {
                Ok(None) => Ok(UdpAction::Close),
                Ok(Some(relay)) => {
                    let name = relay.target.clone();
                    *self = UdpSession::Resolving { name: relay.target, payload: relay.payload };
                    Ok(UdpAction::Resolve(name))
                },
                Err(e) => Err(e),
            },
            UdpSession::Resolving { name, payload } => {
                let copy = name.clone();
                *self = UdpSession::Resolving { name, payload };
                Ok(UdpAction::Resolve(copy))
            },
            UdpSession::Resolved { target, payload } => {
                let address = relayBindAddress(&target);
                *self = UdpSession::Bound { target, payload };
                Ok(UdpAction::Bind(address))
            },
            UdpSession::Bound { target, payload } => {
                *self = UdpSession::Waiting { target };
                Ok(UdpAction::Send { payload, target })
            },
            UdpSession::Waiting { target } => {
                *self = UdpSession::Waiting { target };
                Ok(UdpAction::Receive)
            },
            UdpSession::Answered { packet } => Ok(UdpAction::Reply(packet)),
            UdpSession::Closed => Ok(UdpAction::Close),
        }
    }

    /// Takes note of the addresses that were found. A failure ends the session.
    pub fn resolved(&mut self, found: &[SocketAddress]) -> (r: Result<(), ProxyError>)
        ensures
            match r {
                Ok(_) => udp_resolved(old(self)@, found@) == Ok::<UdpState, ErrorView>(
                    final(self)@,
                ),
                Err(e) => udp_resolved(old(self)@, found@) == Err::<UdpState, ErrorView>(e@)
                    && final(self)@ == UdpState::Closed,
            },
    {
        match self.take() {
            UdpSession::Resolving { name, payload } => match firstSocketAddress(found) {
                Ok(target) => {
                    *self = UdpSession::Resolved { target, payload };
                    Ok(())
                },
                Err(e) => Err(e),
            },
            other => {
                *self = other;
                Ok(())
            },
        }
    }

    /// Takes in the answer.
    pub fn received(&mut self, remote: &SocketAddress, data: &[u8])
        ensures
            final(self)@ == udp_received(old(self)@, *remote, data@),
    {
        match self {
            UdpSession::Waiting { .. } => {
                *self = UdpSession::Answered { packet: buildSocks5UdpResponse(remote, data) };
            },
            _ => {},
        }
    }

    /// Gives up on an answer that does not come in time, and says so in the log.
    pub fn timedOut(&mut self, reason: &str) -> (note: Option<Note>)
        ensures
            note_view(note) == udp_timeout(old(self)@, reason@),
            final(self)@ == udp_given_up(old(self)@),
    {
        match self {
            UdpSession::Waiting { target } => {
                let mut message = "SOCKS5 UDP response timeout from ".to_owned();
                message.append(&addressText(target));
                message.append(": ");
                message.append(reason);
                *self = UdpSession::Closed;
                Some(Note { level: Level::Warn, message })
            },
            _ => None,
        }
    }
}

// ---------------------------------------------------------------------------------------------
// Laws
// ---------------------------------------------------------------------------------------------

/// A datagram that names a target goes, without its header, to the first address that is found
/// for it; what comes back goes to the client behind a header that names the sender.
pub proof fn law_a_datagram_goes_out_and_its_answer_comes_back(
    packet: Seq<u8>,
    relay: UdpRelayView,
    found: Seq<SocketAddress>,
    remote: SocketAddress,
    data: Seq<u8>,
)
    requires
        plan_udp_packet(packet) == Ok::<Option<UdpRelayView>, ErrorView>(Some(relay)),
        found.len() > 0,
    ensures
        ({
            let payload = relay.payload;
            let target = found[0];
            let resolving = UdpState::Resolving { name: relay.target, payload };
            let waiting = UdpState::Waiting { target };
            let answer = udp_header(remote) + data;
            &&& udp_next(
                UdpState::Received { packet },
                Ok::<(UdpState, UdpStep), ErrorView>((resolving, UdpStep::Resolve(relay.target))),
            )
            &&& udp_resolved(resolving, found) == Ok::<UdpState, ErrorView>(
                UdpState::Resolved { target, payload },
            )
            &&& udp_next(
                UdpState::Bound { target, payload },
                Ok::<(UdpState, UdpStep), ErrorView>((waiting, UdpStep::Send { payload, target })),
            )
            &&& udp_received(waiting, remote, data) == UdpState::Answered { packet: answer }
            &&& udp_next(
                UdpState::Answered { packet: answer },
                Ok::<(UdpState, UdpStep), ErrorView>((UdpState::Closed, UdpStep::Reply(answer))),
            )
        }),
{
}

} // verus!
