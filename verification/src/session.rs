//! A client's connection to the HTTP proxy, one decision at a time.
//!
//! [`HttpSession`] says what to do next: read from or write to the client or the upstream server,
//! dial, relay a tunnel, or stop. Whoever drives it performs the action, hands back what was
//! read, and asks again. An action that fails ends the connection.

use vstd::prelude::*;
use vstd::utf8::encode_utf8;

use crate::body::{
    body_receive, body_start, body_step, body_timeout, BodyAction, BodyForwarder, BodyPhase,
    BodyStep,
};
use crate::error::{
    cut_short, detailed, error, invalid, invalidData, too_slow, ErrorKind, ErrorView, ProxyError,
};
use crate::exchange::{
    plan_request, plan_response_head, planRequest, planResponseHead, Pending, PendingView,
    RequestPlan, RequestPlanView,
};
use crate::message::{parse_request, parseHttpRequest, RequestView};
use crate::stream::{appendBytes, cut, head_mark, maxHttpHeaderSize, takeHttpHeader};
use crate::target::{normalize_authority, normalizeAuthority};
use crate::text::{eqIgnoreAsciiCase, same_ignoring_case};

verus! {

// ---------------------------------------------------------------------------------------------
// Phases
// ---------------------------------------------------------------------------------------------

/// How far a connection has come, as contracts see it.
pub enum HttpPhaseView {
    RequestHead,
    TunnelAsked { target: Seq<char> },
    TunnelDialled,
    TunnelOpen,
    Dialled { plan: RequestPlanView },
    RequestBody { pending: PendingView, body: BodyPhase },
    ResponseHead { pending: PendingView },
    ResponseBody { body: BodyPhase, close: bool, summary: Seq<char> },
    Closed,
}

/// How far a connection has come.
#[derive(Debug)]
pub enum HttpPhase {
    /// The head of a request is due.
    RequestHead,
    /// A tunnel was asked for.
    TunnelAsked { target: String },
    /// The other end of a tunnel was dialled.
    TunnelDialled,
    /// The client was told that the tunnel is open.
    TunnelOpen,
    /// The upstream server was dialled.
    Dialled { plan: RequestPlan },
    /// The body of the request is passed on.
    RequestBody { pending: Pending, body: BodyForwarder },
    /// The head of the response is due.
    ResponseHead { pending: Pending },
    /// The body of the response is passed on.
    ResponseBody { body: BodyForwarder, close: bool, summary: String },
    /// The connection is over.
    Closed,
}

impl View for HttpPhase {
    type V = HttpPhaseView;

    open spec fn view(&self) -> HttpPhaseView {
        match self {
            HttpPhase::RequestHead => HttpPhaseView::RequestHead,
            HttpPhase::TunnelAsked { target } => HttpPhaseView::TunnelAsked { target: target@ },
            HttpPhase::TunnelDialled => HttpPhaseView::TunnelDialled,
            HttpPhase::TunnelOpen => HttpPhaseView::TunnelOpen,
            HttpPhase::Dialled { plan } => HttpPhaseView::Dialled { plan: plan@ },
            HttpPhase::RequestBody { pending, body } => HttpPhaseView::RequestBody {
                pending: pending@,
                body: body@,
            },
            HttpPhase::ResponseHead { pending } => HttpPhaseView::ResponseHead {
                pending: pending@,
            },
            HttpPhase::ResponseBody { body, close, summary } => HttpPhaseView::ResponseBody {
                body: body@,
                close: *close,
                summary: summary@,
            },
            HttpPhase::Closed => HttpPhaseView::Closed,
        }
    }
}

/// A connection as contracts see it.
pub struct HttpState {
    pub phase: HttpPhaseView,
    /// What the client sent and no one has taken yet.
    pub client: Seq<u8>,
    /// What the upstream server sent and no one has taken yet.
    pub remote: Seq<u8>,
}

/// A client's connection.
#[derive(Debug)]
pub struct HttpSession {
    pub phase: HttpPhase,
    pub clientBuffer: Vec<u8>,
    pub remoteBuffer: Vec<u8>,
}

impl View for HttpSession {
    type V = HttpState;

    open spec fn view(&self) -> HttpState {
        HttpState {
            phase: self.phase@,
            client: self.clientBuffer@,
            remote: self.remoteBuffer@,
        }
    }
}

// ---------------------------------------------------------------------------------------------
// Actions
// ---------------------------------------------------------------------------------------------

/// What to do next, as contracts see it.
pub enum HttpStep {
    ReadClient,
    ReadRemote,
    WriteClient(Seq<u8>),
    WriteRemote(Seq<u8>),
    TunnelAsked(Seq<char>),
    Connect(Seq<char>),
    Relay,
    Finished(Seq<char>),
    Close,
}

/// What to do next.
#[derive(Debug)]
pub enum HttpAction {
    /// Read from the client.
    ReadClient,
    /// Read from the upstream server.
    ReadRemote,
    /// Write to the client.
    WriteClient(Vec<u8>),
    /// Write to the upstream server.
    WriteRemote(Vec<u8>),
    /// A tunnel to this target was asked for: nothing to do but to take note.
    TunnelAsked(String),
    /// Dial this address; the connection takes the place of any earlier one.
    Connect(String),
    /// Relay everything between client and server until both are done.
    Relay,
    /// The exchange is over: drop the upstream connection and take note of the summary.
    Finished(String),
    /// Close the client's connection.
    Close,
}

impl View for HttpAction {
    type V = HttpStep;

    open spec fn view(&self) -> HttpStep {
        match self {
            HttpAction::ReadClient => HttpStep::ReadClient,
            HttpAction::ReadRemote => HttpStep::ReadRemote,
            HttpAction::WriteClient(bytes) => HttpStep::WriteClient(bytes@),
            HttpAction::WriteRemote(bytes) => HttpStep::WriteRemote(bytes@),
            HttpAction::TunnelAsked(target) => HttpStep::TunnelAsked(target@),
            HttpAction::Connect(address) => HttpStep::Connect(address@),
            HttpAction::Relay => HttpStep::Relay,
            HttpAction::Finished(summary) => HttpStep::Finished(summary@),
            HttpAction::Close => HttpStep::Close,
        }
    }
}

// ---------------------------------------------------------------------------------------------
// Decisions
// ---------------------------------------------------------------------------------------------

/// The outcome of a decision: the next state with an action, or a failure.
pub type HttpOutcome = Result<(HttpState, HttpStep), ErrorView>;

/// What a client is told once its tunnel is open.
pub open spec fn established() -> Seq<char> {
    "HTTP/1.1 200 Connection Established\r\nProxy-Agent: rproxy\r\n\r\n"@
}

/// A request whose head is there: CONNECT asks for a tunnel, anything else is passed on.
pub open spec fn on_request(request: RequestView, state: HttpState) -> HttpOutcome {
    if same_ignoring_case(request.method, "CONNECT"@) {
        Ok(
            (
                HttpState { phase: HttpPhaseView::TunnelAsked { target: request.target }, ..state },
                HttpStep::TunnelAsked(request.target),
            ),
        )
    } else {
        match plan_request(request) {
            Err(e) => Err(e),
            Ok(plan) => Ok(
                (
                    HttpState {
                        phase: HttpPhaseView::Dialled { plan },
                        remote: Seq::empty(),
                        ..state
                    },
                    HttpStep::Connect(plan.address),
                ),
            ),
        }
    }
}

/// Waiting for the head of a request.
pub open spec fn await_request(state: HttpState) -> HttpOutcome {
    match cut(state.client, head_mark()) {
        Some((head, rest)) => match parse_request(head) {
            Err(e) => Err(e),
            Ok(request) => on_request(request, HttpState { client: rest, ..state }),
        },
        None => if state.client.len() > maxHttpHeaderSize {
            Err(invalid("HTTP header is too large"@))
        } else {
            Ok((state, HttpStep::ReadClient))
        },
    }
}

/// Waiting for the head of a response.
pub open spec fn await_response(pending: PendingView, state: HttpState) -> HttpOutcome {
    match cut(state.remote, head_mark()) {
        Some((head, rest)) => match plan_response_head(pending, head) {
            Err(e) => Err(e),
            Ok(plan) => Ok(
                (
                    HttpState {
                        phase: HttpPhaseView::ResponseBody {
                            body: body_start(plan.body),
                            close: plan.close,
                            summary: plan.summary,
                        },
                        remote: rest,
                        ..state
                    },
                    HttpStep::WriteClient(encode_utf8(plan.head)),
                ),
            ),
        },
        None => if state.remote.len() > maxHttpHeaderSize {
            Err(invalid("HTTP header is too large"@))
        } else {
            Ok(
                (
                    HttpState { phase: HttpPhaseView::ResponseHead { pending }, ..state },
                    HttpStep::ReadRemote,
                ),
            )
        },
    }
}

/// Passing on the body of a request; the response is awaited behind it.
pub open spec fn pass_request_body(
    pending: PendingView,
    body: BodyPhase,
    state: HttpState,
) -> HttpOutcome {
    match body_step(body, state.client) {
        Err(e) => Err(e),
        Ok((next, rest, BodyStep::Write(bytes))) => Ok(
            (
                HttpState {
                    phase: HttpPhaseView::RequestBody { pending, body: next },
                    client: rest,
                    ..state
                },
                HttpStep::WriteRemote(bytes),
            ),
        ),
        Ok((next, rest, BodyStep::Read)) => Ok(
            (
                HttpState {
                    phase: HttpPhaseView::RequestBody { pending, body: next },
                    client: rest,
                    ..state
                },
                HttpStep::ReadClient,
            ),
        ),
        Ok((next, rest, BodyStep::Done)) => await_response(
            pending,
            HttpState { client: rest, ..state },
        ),
    }
}

/// Passing on the body of a response; behind it the connection ends or serves another request.
pub open spec fn pass_response_body(
    body: BodyPhase,
    close: bool,
    summary: Seq<char>,
    state: HttpState,
) -> HttpOutcome {
    match body_step(body, state.remote) {
        Err(e) => Err(e),
        Ok((next, rest, BodyStep::Write(bytes))) => Ok(
            (
                HttpState {
                    phase: HttpPhaseView::ResponseBody { body: next, close, summary },
                    remote: rest,
                    ..state
                },
                HttpStep::WriteClient(bytes),
            ),
        ),
        Ok((next, rest, BodyStep::Read)) => Ok(
            (
                HttpState {
                    phase: HttpPhaseView::ResponseBody { body: next, close, summary },
                    remote: rest,
                    ..state
                },
                HttpStep::ReadRemote,
            ),
        ),
        Ok((next, rest, BodyStep::Done)) => Ok(
            (
                HttpState {
                    phase: if close {
                        HttpPhaseView::Closed
                    } else {
                        HttpPhaseView::RequestHead
                    },
                    remote: rest,
                    ..state
                },
                HttpStep::Finished(summary),
            ),
        ),
    }
}

/// The decision in any state.
pub open spec fn http_next(state: HttpState) -> HttpOutcome {
    match state.phase {
        HttpPhaseView::RequestHead => await_request(state),
        HttpPhaseView::TunnelAsked { target } => match normalize_authority(target, 443) {
            Err(e) => Err(e),
            Ok(address) => Ok(
                (
                    HttpState { phase: HttpPhaseView::TunnelDialled, ..state },
                    HttpStep::Connect(address),
                ),
            ),
        },
        HttpPhaseView::TunnelDialled => Ok(
            (
                HttpState { phase: HttpPhaseView::TunnelOpen, ..state },
                HttpStep::WriteClient(encode_utf8(established())),
            ),
        ),
        HttpPhaseView::TunnelOpen => if state.client.len() > 0 {
            Ok(
                (
                    HttpState { client: Seq::empty(), ..state },
                    HttpStep::WriteRemote(state.client),
                ),
            )
        } else {
            Ok((HttpState { phase: HttpPhaseView::Closed, ..state }, HttpStep::Relay))
        },
        HttpPhaseView::Dialled { plan } => Ok(
            (
                HttpState {
                    phase: HttpPhaseView::RequestBody {
                        pending: plan.pending,
                        body: body_start(plan.body),
                    },
                    ..state
                },
                HttpStep::WriteRemote(encode_utf8(plan.head)),
            ),
        ),
        HttpPhaseView::RequestBody { pending, body } => pass_request_body(pending, body, state),
        HttpPhaseView::ResponseHead { pending } => await_response(pending, state),
        HttpPhaseView::ResponseBody { body, close, summary } => pass_response_body(
            body,
            close,
            summary,
            state,
        ),
        HttpPhaseView::Closed => Ok((state, HttpStep::Close)),
    }
}

/// What is left of the bytes behind a head that was cut off; all of them if none was.
pub open spec fn behind_head(buffer: Seq<u8>) -> Seq<u8> {
    match cut(buffer, head_mark()) {
        Some((head, rest)) => rest,
        None => buffer,
    }
}

/// What a decision that fails leaves: the connection is over, and the buffers hold all but the
/// head that was found wanting.
pub open spec fn http_failed(state: HttpState) -> HttpState {
    let over = HttpState { phase: HttpPhaseView::Closed, ..state };
    match state.phase {
        HttpPhaseView::RequestHead => HttpState { client: behind_head(state.client), ..over },
        HttpPhaseView::ResponseHead { .. } => HttpState {
            remote: behind_head(state.remote),
            ..over
        },
        HttpPhaseView::RequestBody { pending, body } => if body_step(body, state.client) is Ok {
            HttpState { remote: behind_head(state.remote), ..over }
        } else {
            over
        },
        _ => over,
    }
}

/// What becomes of bytes that were read; none at all means that the peer closed.
pub open spec fn http_receive(state: HttpState, data: Seq<u8>) -> Result<HttpState, ErrorView> {
    match state.phase {
        HttpPhaseView::RequestHead => if data.len() > 0 {
            Ok(HttpState { client: state.client + data, ..state })
        } else if state.client.len() == 0 {
            Ok(HttpState { phase: HttpPhaseView::Closed, ..state })
        } else {
            Err(cut_short("connection closed during HTTP header"@))
        },
        HttpPhaseView::RequestBody { pending, body } => match body_receive(
            body,
            state.client,
            data,
        ) {
            Err(e) => Err(e),
            Ok((next, grown)) => Ok(
                HttpState {
                    phase: HttpPhaseView::RequestBody { pending, body: next },
                    client: grown,
                    ..state
                },
            ),
        },
        HttpPhaseView::ResponseHead { pending } => if data.len() > 0 {
            Ok(HttpState { remote: state.remote + data, ..state })
        } else if state.remote.len() == 0 {
            Err(invalid("remote server closed before response header"@))
        } else {
            Err(cut_short("connection closed during HTTP header"@))
        },
        HttpPhaseView::ResponseBody { body, close, summary } => match body_receive(
            body,
            state.remote,
            data,
        ) {
            Err(e) => Err(e),
            Ok((next, grown)) => Ok(
                HttpState {
                    phase: HttpPhaseView::ResponseBody { body: next, close, summary },
                    remote: grown,
                    ..state
                },
            ),
        },
        _ => Ok(state),
    }
}

/// How a peer is reported that was silent for too long.
pub open spec fn http_timeout(phase: HttpPhaseView, reason: Seq<char>) -> ErrorView {
    match phase {
        HttpPhaseView::RequestBody { pending, body } => body_timeout(body, reason),
        HttpPhaseView::ResponseBody { body, close, summary } => body_timeout(body, reason),
        _ => too_slow("HTTP connection idle timeout: "@ + reason),
    }
}

impl HttpSession {
    /// A connection on which nothing has happened yet.
    pub fn new() -> (session: HttpSession)
        ensures
            session@ == (HttpState {
                phase: HttpPhaseView::RequestHead,
                client: Seq::empty(),
                remote: Seq::empty(),
            }),
    {
        HttpSession {
            phase: HttpPhase::RequestHead,
            clientBuffer: Vec::new(),
            remoteBuffer: Vec::new(),
        }
    }

    fn awaitRequest(&mut self) -> (r: Result<HttpAction, ProxyError>)
        requires
            old(self).phase is Closed,
        ensures
            ({
                let state = HttpState { phase: HttpPhaseView::RequestHead, ..old(self)@ };
                match r {
                    Ok(action) => await_request(state) == Ok::<(HttpState, HttpStep), ErrorView>(
                        (final(self)@, action@),
                    ),
                    Err(e) => await_request(state) == Err::<(HttpState, HttpStep), ErrorView>(e@)
                        && final(self)@ == http_failed(state),
                }
            }),
    {
        let head = match takeHttpHeader(&mut self.clientBuffer) {
            Ok(Some(head)) => head,
            Ok(None) => {
                self.phase = HttpPhase::RequestHead;
                return Ok(HttpAction::ReadClient);
            },
            Err(e) => {
                return Err(e);
            },
        };
        let request = match parseHttpRequest(&head) {
            Ok(request) => request,
            Err(e) => {
                return Err(e);
            },
        };
        if eqIgnoreAsciiCase(&request.method, "CONNECT") {
            let target = request.target.clone();
            self.phase = HttpPhase::TunnelAsked { target: request.target };
            return Ok(HttpAction::TunnelAsked(target));
        }
        match planRequest(&request) {
            Ok(plan) => {
                let address = plan.remoteAddress.clone();
                self.remoteBuffer = Vec::new();
                self.phase = HttpPhase::Dialled { plan };
                Ok(HttpAction::Connect(address))
            },
            Err(e) => Err(e),
        }
    }

    fn awaitResponse(&mut self, pending: Pending) -> (r: Result<HttpAction, ProxyError>)
        requires
            old(self).phase is Closed,
        ensures
            match r {
                Ok(action) => await_response(pending@, old(self)@) == Ok::<
                    (HttpState, HttpStep),
                    ErrorView,
                >((final(self)@, action@)),
                Err(e) => await_response(pending@, old(self)@) == Err::<
                    (HttpState, HttpStep),
                    ErrorView,
                >(e@) && final(self)@ == (HttpState {
                    remote: behind_head(old(self)@.remote),
                    ..old(self)@
                }),
            },
    {
        let head = match takeHttpHeader(&mut self.remoteBuffer) {
            Ok(Some(head)) => head,
            Ok(None) => {
                self.phase = HttpPhase::ResponseHead { pending };
                return Ok(HttpAction::ReadRemote);
            },
            Err(e) => {
                return Err(e);
            },
        };
        match planResponseHead(&pending, &head) {
            Ok(plan) => {
                self.phase = HttpPhase::ResponseBody {
                    body: BodyForwarder::start(plan.bodyMode),
                    close: plan.closeAfterResponse,
                    summary: plan.summary,
                };
                Ok(HttpAction::WriteClient(plan.clientHeader.as_str().as_bytes_vec()))
            },
            Err(e) => Err(e),
        }
    }

    fn passRequestBody(&mut self, pending: Pending, body: BodyForwarder) -> (r: Result<
        HttpAction,
        ProxyError,
    >)
        requires
            old(self).phase is Closed,
        ensures
            match r {
                Ok(action) => pass_request_body(pending@, body@, old(self)@) == Ok::<
                    (HttpState, HttpStep),
                    ErrorView,
                >((final(self)@, action@)),
                Err(e) => pass_request_body(pending@, body@, old(self)@) == Err::<
                    (HttpState, HttpStep),
                    ErrorView,
                >(e@) && final(self)@ == http_failed(
                    HttpState {
                        phase: HttpPhaseView::RequestBody { pending: pending@, body: body@ },
                        ..old(self)@
                    },
                ),
            },
    {
        let mut body = body;
        match body.step(&mut self.clientBuffer) {
            Ok(BodyAction::Write(bytes)) => {
                self.phase = HttpPhase::RequestBody { pending, body };
                Ok(HttpAction::WriteRemote(bytes))
            },
            Ok(BodyAction::Read) => {
                self.phase = HttpPhase::RequestBody { pending, body };
                Ok(HttpAction::ReadClient)
            },
            Ok(BodyAction::Done) => self.awaitResponse(pending),
            Err(e) => Err(e),
        }
    }

    fn passResponseBody(&mut self, body: BodyForwarder, close: bool, summary: String) -> (r: Result<
        HttpAction,
        ProxyError,
    >)
        requires
            old(self).phase is Closed,
        ensures
            match r {
                Ok(action) => pass_response_body(body@, close, summary@, old(self)@) == Ok::<
                    (HttpState, HttpStep),
                    ErrorView,
                >((final(self)@, action@)),
                Err(e) => pass_response_body(body@, close, summary@, old(self)@) == Err::<
                    (HttpState, HttpStep),
                    ErrorView,
                >(e@) && final(self)@ == old(self)@,
            },
    {
        let mut body = body;
        match body.step(&mut self.remoteBuffer) {
            Ok(BodyAction::Write(bytes)) => {
                self.phase = HttpPhase::ResponseBody { body, close, summary };
                Ok(HttpAction::WriteClient(bytes))
            },
            Ok(BodyAction::Read) => {
                self.phase = HttpPhase::ResponseBody { body, close, summary };
                Ok(HttpAction::ReadRemote)
            },
            Ok(BodyAction::Done) => {
                if !close {
                    self.phase = HttpPhase::RequestHead;
                }
                Ok(HttpAction::Finished(summary))
            },
            Err(e) => Err(e),
        }
    }

    /// Decides what to do next. A failure ends the connection.
    pub fn next(&mut self) -> (r: Result<HttpAction, ProxyError>)
        ensures
            match r {
                Ok(action) => http_next(old(self)@) == Ok::<(HttpState, HttpStep), ErrorView>(
                    (final(self)@, action@),
                ),
                Err(e) => http_next(old(self)@) == Err::<(HttpState, HttpStep), ErrorView>(e@)
                    && final(self)@ == http_failed(old(self)@),
            },
    {
        let mut phase = HttpPhase::Closed;
        std::mem::swap(&mut phase, &mut self.phase);
        match phase {
            HttpPhase::RequestHead => self.awaitRequest(),
            HttpPhase::TunnelAsked { target } => match normalizeAuthority(&target, 443) {
                Ok(address) => {
                    self.phase = HttpPhase::TunnelDialled;
                    Ok(HttpAction::Connect(address))
                },
                Err(e) => Err(e),
            },
            HttpPhase::TunnelDialled => {
                self.phase = HttpPhase::TunnelOpen;
                let text = "HTTP/1.1 200 Connection Established\r\nProxy-Agent: rproxy\r\n\r\n";
                Ok(HttpAction::WriteClient(text.as_bytes_vec()))
            },
            HttpPhase::TunnelOpen => {
                if self.clientBuffer.len() == 0 {
                    return Ok(HttpAction::Relay);
                }
                let mut early: Vec<u8> = Vec::new();
                std::mem::swap(&mut early, &mut self.clientBuffer);
                self.phase = HttpPhase::TunnelOpen;
                Ok(HttpAction::WriteRemote(early))
            },
            HttpPhase::Dialled { plan } => {
                let bytes = plan.forwardHeader.as_str().as_bytes_vec();
                self.phase = HttpPhase::RequestBody {
                    pending: plan.pending,
                    body: BodyForwarder::start(plan.bodyMode),
                };
                Ok(HttpAction::WriteRemote(bytes))
            },
            HttpPhase::RequestBody { pending, body } => self.passRequestBody(pending, body),
            HttpPhase::ResponseHead { pending } => self.awaitResponse(pending),
            HttpPhase::ResponseBody { body, close, summary } => self.passResponseBody(
                body,
                close,
                summary,
            ),
            HttpPhase::Closed => Ok(HttpAction::Close),
        }
    }

    /// Takes in what was read from the peer that a read was asked of; no bytes mean that it
    /// closed the connection. A failure ends the connection.
    pub fn receive(&mut self, data: &[u8]) -> (r: Result<(), ProxyError>)
        ensures
            match r {
                Ok(_) => http_receive(old(self)@, data@) == Ok::<HttpState, ErrorView>(
                    final(self)@,
                ),
                Err(e) => http_receive(old(self)@, data@) == Err::<HttpState, ErrorView>(e@)
                    && final(self)@ == (HttpState { phase: HttpPhaseView::Closed, ..old(self)@ }),
            },
    {
        let mut phase = HttpPhase::Closed;
        std::mem::swap(&mut phase, &mut self.phase);
        match phase {
            HttpPhase::RequestHead => {
                if data.len() == 0 {
                    if self.clientBuffer.len() == 0 {
                        return Ok(());
                    }
                    return Err(
                        error(ErrorKind::UnexpectedEof, "connection closed during HTTP header"),
                    );
                }
                appendBytes(&mut self.clientBuffer, data);
                self.phase = HttpPhase::RequestHead;
                Ok(())
            },
            HttpPhase::RequestBody { pending, body } => {
                let mut body = body;
                match body.receive(&mut self.clientBuffer, data) {
                    Ok(_) => {
                        self.phase = HttpPhase::RequestBody { pending, body };
                        Ok(())
                    },
                    Err(e) => Err(e),
                }
            },
            HttpPhase::ResponseHead { pending } => {
                if data.len() == 0 {
                    if self.remoteBuffer.len() == 0 {
                        return Err(invalidData("remote server closed before response header"));
                    }
                    return Err(
                        error(ErrorKind::UnexpectedEof, "connection closed during HTTP header"),
                    );
                }
                appendBytes(&mut self.remoteBuffer, data);
                self.phase = HttpPhase::ResponseHead { pending };
                Ok(())
            },
            HttpPhase::ResponseBody { body, close, summary } => {
                let mut body = body;
                match body.receive(&mut self.remoteBuffer, data) {
                    Ok(_) => {
                        self.phase = HttpPhase::ResponseBody { body, close, summary };
                        Ok(())
                    },
                    Err(e) => Err(e),
                }
            },
            other => {
                self.phase = other;
                Ok(())
            },
        }
    }

    /// Reports a peer that was silent for too long.
    pub fn timedOut(&self, reason: &str) -> (e: ProxyError)
        ensures
            e@ == http_timeout(self@.phase, reason@),
    {
        match &self.phase {
            HttpPhase::RequestBody { pending, body } => body.timedOut(reason),
            HttpPhase::ResponseBody { body, close, summary } => body.timedOut(reason),
            _ => detailed(ErrorKind::TimedOut, "HTTP connection idle timeout: ", reason),
        }
    }
}

} // verus!
