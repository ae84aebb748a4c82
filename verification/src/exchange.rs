//! One HTTP exchange: what is sent upstream for a request, and what the client gets back.

use vstd::prelude::*;

use crate::error::{ErrorView, ProxyError};
use crate::framing::{
    getRequestBodyMode, getResponseBodyMode, request_body_mode, response_body_mode,
    should_keep_alive, shouldKeepAlive, BodyMode,
};
use crate::message::{
    buildClientResponseHeader, buildForwardRequestHeader, client_response_text,
    forward_request_text, parse_response, parseHttpResponse, HttpRequest, HttpResponse,
    RequestView, ResponseView,
};
use crate::number::{decimal, pushDecimal};
use crate::target::{parse_target, parseHttpTarget};

verus! {

// ---------------------------------------------------------------------------------------------
// Requests
// ---------------------------------------------------------------------------------------------

/// What is remembered of a request until its response is there, as contracts see it.
pub struct PendingView {
    pub method: Seq<char>,
    pub target: Seq<char>,
    pub keep_alive: bool,
}

/// What is remembered of a request until its response is there.
#[derive(Debug)]
pub struct Pending {
    pub method: String,
    pub target: String,
    pub keepAlive: bool,
}

impl View for Pending {
    type V = PendingView;

    open spec fn view(&self) -> PendingView {
        PendingView { method: self.method@, target: self.target@, keep_alive: self.keepAlive }
    }
}

/// How a request is passed on, as contracts see it.
pub struct RequestPlanView {
    pub address: Seq<char>,
    pub head: Seq<char>,
    pub body: BodyMode,
    pub pending: PendingView,
}

/// How a request is passed on.
#[derive(Debug)]
pub struct RequestPlan {
    /// The address to dial.
    pub remoteAddress: String,
    /// The head to send there.
    pub forwardHeader: String,
    /// How the body ends that follows the head.
    pub bodyMode: BodyMode,
    pub pending: Pending,
}

impl View for RequestPlan {
    type V = RequestPlanView;

    open spec fn view(&self) -> RequestPlanView {
        RequestPlanView {
            address: self.remoteAddress@,
            head: self.forwardHeader@,
            body: self.bodyMode,
            pending: self.pending@,
        }
    }
}

/// How a request is passed on; a bad target is reported before a bad body length.
pub open spec fn plan_request(request: RequestView) -> Result<RequestPlanView, ErrorView> {
    match parse_target(request.target, request.headers) {
        Err(e) => Err(e),
        Ok((address, path)) => match request_body_mode(request.headers) {
            Err(e) => Err(e),
            Ok(body) => Ok(
                RequestPlanView {
                    address,
                    head: forward_request_text(request, path, address),
                    body,
                    pending: PendingView {
                        method: request.method,
                        target: request.target,
                        keep_alive: should_keep_alive(request.version, request.headers),
                    },
                },
            ),
        },
    }
}

/// Decides how a request is passed on.
pub fn planRequest(request: &HttpRequest) -> (r: Result<RequestPlan, ProxyError>)
    ensures
        match r {
            Ok(plan) => plan_request(request@) == Ok::<RequestPlanView, ErrorView>(plan@),
            Err(e) => plan_request(request@) == Err::<RequestPlanView, ErrorView>(e@),
        },
{
    let targetPair = match parseHttpTarget(&request.target, &request.headers) {
        Ok(pair) => pair,
        Err(e) => {
            return Err(e);
        },
    };
    let bodyMode = match getRequestBodyMode(&request.headers) {
        Ok(mode) => mode,
        Err(e) => {
            return Err(e);
        },
    };
    let keepAlive = shouldKeepAlive(&request.version, &request.headers);
    let forwardHeader = buildForwardRequestHeader(request, &targetPair.1, &targetPair.0);
    Ok(
        RequestPlan {
            remoteAddress: targetPair.0,
            forwardHeader,
            bodyMode,
            pending: Pending {
                method: request.method.clone(),
                target: request.target.clone(),
                keepAlive,
            },
        },
    )
}

// ---------------------------------------------------------------------------------------------
// Responses
// ---------------------------------------------------------------------------------------------

/// How a response is passed on, as contracts see it.
pub struct ResponsePlanView {
    pub head: Seq<char>,
    pub body: BodyMode,
    pub close: bool,
    pub summary: Seq<char>,
}

/// How a response is passed on.
#[derive(Debug)]
pub struct ResponsePlan {
    /// The head to send to the client.
    pub clientHeader: String,
    /// How the body ends that follows the head.
    pub bodyMode: BodyMode,
    /// Whether the client's connection ends with this response.
    pub closeAfterResponse: bool,
    /// One line for the log.
    pub summary: String,
}

impl View for ResponsePlan {
    type V = ResponsePlanView;

    open spec fn view(&self) -> ResponsePlanView {
        ResponsePlanView {
            head: self.clientHeader@,
            body: self.bodyMode,
            close: self.closeAfterResponse,
            summary: self.summary@,
        }
    }
}

/// Whether the client's connection ends with a response: it stays open only if the client wants
/// that and the body has a boundary of its own.
pub open spec fn closes_after(keep_alive: bool, body: BodyMode) -> bool {
    !keep_alive || body is UntilClose
}

/// An exchange in one line.
pub open spec fn exchange_summary(pending: PendingView, response: ResponseView) -> Seq<char> {
    pending.method + " "@ + pending.target + " -> "@ + decimal(response.status as nat) + " "@
        + response.reason
}

/// How a response is passed on.
pub open spec fn plan_response(pending: PendingView, response: ResponseView) -> Result<
    ResponsePlanView,
    ErrorView,
> {
    match response_body_mode(pending.method, response.status, response.headers) {
        Err(e) => Err(e),
        Ok(body) => Ok(
            ResponsePlanView {
                head: client_response_text(response, !closes_after(pending.keep_alive, body)),
                body,
                close: closes_after(pending.keep_alive, body),
                summary: exchange_summary(pending, response),
            },
        ),
    }
}

/// Decides how a response is passed on.
pub fn planResponse(pending: &Pending, response: &HttpResponse) -> (r: Result<
    ResponsePlan,
    ProxyError,
>)
    ensures
        match r {
            Ok(plan) => plan_response(pending@, response@) == Ok::<ResponsePlanView, ErrorView>(
                plan@,
            ),
            Err(e) => plan_response(pending@, response@) == Err::<ResponsePlanView, ErrorView>(e@),
        },
{
    let bodyMode = match getResponseBodyMode(
        &pending.method,
        response.statusCode,
        &response.headers,
    ) {
        Ok(mode) => mode,
        Err(e) => {
            return Err(e);
        },
    };
    let responseCanKeepAlive = match bodyMode {
        BodyMode::UntilClose => false,
        _ => true,
    };
    let closeAfterResponse = !pending.keepAlive || !responseCanKeepAlive;
    let clientHeader = buildClientResponseHeader(response, !closeAfterResponse);
    let mut summary = pending.method.clone();
    summary.append(" ");
    summary.append(&pending.target);
    summary.append(" -> ");
    pushDecimal(&mut summary, response.statusCode as u64);
    summary.append(" ");
    summary.append(&response.reason);
    Ok(ResponsePlan { clientHeader, bodyMode, closeAfterResponse, summary })
}

/// How the response with the given head is passed on.
pub open spec fn plan_response_head(pending: PendingView, head: Seq<u8>) -> Result<
    ResponsePlanView,
    ErrorView,
> {
    match parse_response(head) {
        Err(e) => Err(e),
        Ok(response) => plan_response(pending, response),
    }
}

/// Decides how the response with the given head is passed on.
pub fn planResponseHead(pending: &Pending, head: &[u8]) -> (r: Result<ResponsePlan, ProxyError>)
    ensures
        match r {
            Ok(plan) => plan_response_head(pending@, head@) == Ok::<ResponsePlanView, ErrorView>(
                plan@,
            ),
            Err(e) => plan_response_head(pending@, head@) == Err::<ResponsePlanView, ErrorView>(
                e@,
            ),
        },
{
    match parseHttpResponse(head) {
        Ok(response) => planResponse(pending, &response),
        Err(e) => Err(e),
    }
}

} // verus!
