//! What a client's connection to the HTTP proxy comes to: whole exchanges, tunnels, and the ways in
//! which it ends early.

use vstd::prelude::*;
use vstd::utf8::encode_utf8;

use crate::body::{
    body_length, body_receive, body_start, body_step, body_timeout, joined, BodyPhase, BodyStep,
};
use crate::error::ErrorView;
use crate::exchange::{plan_request, plan_response_head};
use crate::exchange_laws::{
    law_a_planned_request_is_the_clients, law_a_planned_response_is_the_servers,
};
use crate::framing::{request_body_mode, response_body_mode, should_keep_alive, BodyMode};
use crate::message::{
    client_fields, forward_fields, parse_request, parse_response, RequestView, ResponseView,
};
use crate::session::{
    http_failed, http_next, http_receive, http_timeout, HttpPhaseView, HttpState,
    HttpStep,
};
use crate::session_laws::{law_an_exchange_does_what_was_asked, run};
use crate::stream::{cut, head_mark, line_mark};
use crate::target::{normalize_authority, parse_target};
use crate::text::{ascii_lower, same_ignoring_case};
use crate::text_laws::{law_matching_is_by_lower_case, lower_case};

verus! {

// ---------------------------------------------------------------------------------------------
// Whole exchanges
// ---------------------------------------------------------------------------------------------

/// From end to end: a client's request with its body, and a server's response with a body of its
/// own boundary, make an exchange in which the server is dialled that the target names and gets
/// the request for the path with its body, and the client gets the response with its body. What
/// follows either message stays for the next exchange, which there is exactly if the client wants
/// one.
#[verifier::spinoff_prover]
#[verifier::rlimit(40)]
pub proof fn law_an_exchange_from_end_to_end(
    state: HttpState,
    client_reads: Seq<Seq<u8>>,
    remote_reads: Seq<Seq<u8>>,
    steps: nat,
    head: Seq<u8>,
    request: RequestView,
    body: Seq<u8>,
    after: Seq<u8>,
    mode: BodyMode,
    answer_head: Seq<u8>,
    response: ResponseView,
    answer_body: Seq<u8>,
    answer_after: Seq<u8>,
    answer_mode: BodyMode,
)
    requires
        state.phase is RequestHead,
        run(state, client_reads, remote_reads, steps) is Some,
        cut(state.client + joined(client_reads), head_mark()) == Some((head, body + after)),
        parse_request(head) == Ok::<RequestView, ErrorView>(request),
        request_body_mode(request.headers) == Ok::<BodyMode, ErrorView>(mode),
        body_length(body_start(mode), body + after) == Some(body.len()),
        cut(joined(remote_reads), head_mark()) == Some((answer_head, answer_body + answer_after)),
        parse_response(answer_head) == Ok::<ResponseView, ErrorView>(response),
        response_body_mode(request.method, response.status, response.headers) == Ok::<
            BodyMode,
            ErrorView,
        >(answer_mode),
        !(answer_mode is UntilClose),
        body_length(body_start(answer_mode), answer_body + answer_after) == Some(
            answer_body.len(),
        ),
    ensures
        ({
            let x = run(state, client_reads, remote_reads, steps)->0;
            let goes_on = should_keep_alive(request.version, request.headers);
            &&& parse_target(request.target, request.headers) matches Ok((address, path)) && {
                &&& x.dialled == seq![address]
                &&& exists|sent: Seq<u8>|
                    x.to_remote == sent + body && #[trigger] parse_request(sent) == Ok::<
                        RequestView,
                        ErrorView,
                    >(
                        RequestView {
                            method: request.method,
                            target: path,
                            version: request.version,
                            headers: forward_fields(request.headers, address),
                        },
                    )
            }
            &&& exists|given: Seq<u8>|
                x.to_client == given + answer_body && #[trigger] parse_response(given) == Ok::<
                    ResponseView,
                    ErrorView,
                >(
                    ResponseView {
                        version: response.version,
                        status: response.status,
                        reason: response.reason,
                        headers: client_fields(response.headers, goes_on),
                    },
                )
            &&& x.after.client + joined(x.client_unread) == after
            &&& x.after.remote + joined(x.remote_unread) == answer_after
            &&& x.after.phase == if goes_on {
                HttpPhaseView::RequestHead
            } else {
                HttpPhaseView::Closed
            }
        }),
{
    let x = run(state, client_reads, remote_reads, steps)->0;
    law_an_exchange_does_what_was_asked(state, client_reads, remote_reads, steps);
    let plan = plan_request(request)->Ok_0;
    law_a_planned_request_is_the_clients(head, request, plan, Seq::empty());
    let answer = plan_response_head(plan.pending, answer_head)->Ok_0;
    law_a_planned_response_is_the_servers(
        plan.pending,
        answer_head,
        response,
        answer,
        Seq::empty(),
    );
    let rest = body + after;
    let answer_rest = answer_body + answer_after;
    assert(rest.take(body.len() as int) =~= body);
    assert(rest.skip(body.len() as int) =~= after);
    assert(answer_rest.take(answer_body.len() as int) =~= answer_body);
    assert(answer_rest.skip(answer_body.len() as int) =~= answer_after);
    let sent = encode_utf8(plan.head);
    let given = encode_utf8(answer.head);
    assert(x.to_remote == sent + body && parse_request(sent) is Ok);
    assert(x.to_client == given + answer_body && parse_response(given) is Ok);
}

// ---------------------------------------------------------------------------------------------
// Requests
// ---------------------------------------------------------------------------------------------

proof fn lemma_is_connect(method: Seq<char>)
    ensures
        same_ignoring_case(method, "CONNECT"@) <==> lower_case(method) == "connect"@,
{
    reveal_strlit("CONNECT");
    reveal_strlit("connect");
    law_matching_is_by_lower_case(method, "connect"@);
    assert forall|i: int| 0 <= i < 7 implies ascii_lower("CONNECT"@[i]) == ascii_lower(
        "connect"@[i],
    ) by {
        assert(i == 0 || i == 1 || i == 2 || i == 3 || i == 4 || i == 5 || i == 6);
    }
    if same_ignoring_case(method, "CONNECT"@) {
        assert forall|i: int| 0 <= i < method.len() implies ascii_lower(#[trigger] method[i])
            == ascii_lower("connect"@[i]) by {
            assert(ascii_lower(method[i]) == ascii_lower("CONNECT"@[i]));
        }
    }
    if same_ignoring_case(method, "connect"@) {
        assert forall|i: int| 0 <= i < method.len() implies ascii_lower(#[trigger] method[i])
            == ascii_lower("CONNECT"@[i]) by {
            assert(ascii_lower(method[i]) == ascii_lower("connect"@[i]));
        }
    }
}

/// A request whose method is CONNECT in either case asks for a tunnel to its target, and any other
/// is planned and its server dialled. What follows the head stays, and what an earlier server sent
/// does not count for the next one.
pub proof fn law_what_a_request_leads_to(
    state: HttpState,
    head: Seq<u8>,
    rest: Seq<u8>,
    request: RequestView,
)
    requires
        state.phase is RequestHead,
        cut(state.client, head_mark()) == Some((head, rest)),
        parse_request(head) == Ok::<RequestView, ErrorView>(request),
    ensures
        lower_case(request.method) == "connect"@ ==> http_next(state) == Ok::<
            (HttpState, HttpStep),
            ErrorView,
        >(
            (
                HttpState {
                    phase: HttpPhaseView::TunnelAsked { target: request.target },
                    client: rest,
                    remote: state.remote,
                },
                HttpStep::TunnelAsked(request.target),
            ),
        ),
        lower_case(request.method) != "connect"@ ==> match plan_request(request) {
            Err(e) => http_next(state) == Err::<(HttpState, HttpStep), ErrorView>(e),
            Ok(plan) => http_next(state) == Ok::<(HttpState, HttpStep), ErrorView>(
                (
                    HttpState {
                        phase: HttpPhaseView::Dialled { plan },
                        client: rest,
                        remote: Seq::empty(),
                    },
                    HttpStep::Connect(plan.address),
                ),
            ),
        },
{
    lemma_is_connect(request.method);
}

/// A tunnel goes to the address that its target denotes, with 443 as the default port, and the
/// client is told that it is open in these words.
pub proof fn law_a_tunnel_goes_to_its_target(state: HttpState, target: Seq<char>)
    requires
        state.phase == (HttpPhaseView::TunnelAsked { target }),
    ensures
        match normalize_authority(target, 443) {
            Ok(address) => {
                &&& http_next(state) matches Ok((next, step))
                &&& step == HttpStep::Connect(address)
                &&& next == HttpState { phase: HttpPhaseView::TunnelDialled, ..state }
                &&& http_next(next) matches Ok((open, told))
                &&& open == HttpState { phase: HttpPhaseView::TunnelOpen, ..state }
                &&& told == HttpStep::WriteClient(
                    encode_utf8(
                        "HTTP/1.1 200 Connection Established\r\nProxy-Agent: rproxy\r\n\r\n"@,
                    ),
                )
            },
            Err(e) => http_next(state) == Err::<(HttpState, HttpStep), ErrorView>(e),
        },
{
}

/// A head that is not whole yet is waited for as long as no more than 65536 bytes are there; a
/// request is waited for from the client, a response from the server. More bytes without the end
/// of a head are refused. A head that is there but makes no sense is refused.
pub proof fn law_how_long_a_head_is_waited_for(state: HttpState)
    ensures
        state.phase is RequestHead && cut(state.client, head_mark()) is None ==> {
            &&& state.client.len() <= 65536 ==> http_next(state) == Ok::<
                (HttpState, HttpStep),
                ErrorView,
            >((state, HttpStep::ReadClient))
            &&& state.client.len() > 65536 ==> (http_next(state) matches Err(e) && e.kind
                is InvalidData && e.message == "HTTP header is too large"@)
        },
        state.phase is ResponseHead && cut(state.remote, head_mark()) is None ==> {
            &&& state.remote.len() <= 65536 ==> http_next(state) == Ok::<
                (HttpState, HttpStep),
                ErrorView,
            >((state, HttpStep::ReadRemote))
            &&& state.remote.len() > 65536 ==> (http_next(state) matches Err(e) && e.kind
                is InvalidData && e.message == "HTTP header is too large"@)
        },
        state.phase is RequestHead ==> (cut(state.client, head_mark()) matches Some((head, rest))
            ==> (parse_request(head) matches Err(e) ==> http_next(state) == Err::<
            (HttpState, HttpStep),
            ErrorView,
        >(e))),
        state.phase matches HttpPhaseView::ResponseHead { pending } ==> (cut(
            state.remote,
            head_mark(),
        ) matches Some((head, rest)) ==> (plan_response_head(pending, head) matches Err(e)
            ==> http_next(state) == Err::<(HttpState, HttpStep), ErrorView>(e))),
{
}

/// The line of a body that is due is waited for as long as no more than 65536 bytes are there.
pub proof fn law_how_long_a_line_is_waited_for(phase: BodyPhase, buffer: Seq<u8>)
    requires
        phase is SizeLine || phase is Trailer,
        cut(buffer, line_mark()) is None,
    ensures
        buffer.len() <= 65536 ==> body_step(phase, buffer) == Ok::<
            (BodyPhase, Seq<u8>, BodyStep),
            ErrorView,
        >((phase, buffer, BodyStep::Read)),
        buffer.len() > 65536 ==> (body_step(phase, buffer) matches Err(e) && e.kind is InvalidData
            && e.message == "HTTP line is too large"@),
{
}

// ---------------------------------------------------------------------------------------------
// Reading
// ---------------------------------------------------------------------------------------------

/// Whatever is read is put behind what is there already, of the peer that is read from, and
/// nothing else changes.
pub proof fn law_what_is_read_is_kept(state: HttpState, data: Seq<u8>)
    requires
        data.len() > 0,
    ensures
        state.phase is RequestHead || state.phase is RequestBody ==> http_receive(state, data)
            == Ok::<HttpState, ErrorView>(HttpState { client: state.client + data, ..state }),
        state.phase is ResponseHead || state.phase is ResponseBody ==> http_receive(state, data)
            == Ok::<HttpState, ErrorView>(HttpState { remote: state.remote + data, ..state }),
{
}

/// A client may leave before it begins a request. Before a head is whole, a peer that closes has
/// failed; so has a server that closes before it begins its response.
pub proof fn law_who_may_close_during_a_head(state: HttpState)
    ensures
        state.phase is RequestHead && state.client.len() == 0 ==> http_receive(state, Seq::empty())
            == Ok::<HttpState, ErrorView>(HttpState { phase: HttpPhaseView::Closed, ..state }),
        state.phase is RequestHead && state.client.len() > 0 ==> (http_receive(
            state,
            Seq::empty(),
        ) matches Err(e) && e.kind is UnexpectedEof && e.message
            == "connection closed during HTTP header"@),
        state.phase is ResponseHead && state.remote.len() == 0 ==> (http_receive(
            state,
            Seq::empty(),
        ) matches Err(e) && e.kind is InvalidData && e.message
            == "remote server closed before response header"@),
        state.phase is ResponseHead && state.remote.len() > 0 ==> (http_receive(
            state,
            Seq::empty(),
        ) matches Err(e) && e.kind is UnexpectedEof && e.message
            == "connection closed during HTTP header"@),
        http_next(HttpState { phase: HttpPhaseView::Closed, ..state }) matches Ok((next, step))
            && step is Close,
{
}

/// A sender that closes before a body with a boundary of its own is whole has failed; one whose
/// body ends with the connection is done.
pub proof fn law_who_may_close_during_a_body(phase: BodyPhase, buffer: Seq<u8>)
    ensures
        phase is Counted || phase is Chunk ==> (body_receive(
            phase,
            buffer,
            Seq::empty(),
        ) matches Err(e) && e.kind is UnexpectedEof && e.message
            == "connection closed during body forwarding"@),
        phase is SizeLine || phase is Size || phase is Trailer ==> (body_receive(
            phase,
            buffer,
            Seq::empty(),
        ) matches Err(e) && e.kind is UnexpectedEof && e.message
            == "connection closed during line read"@),
        phase is UntilClose ==> body_receive(phase, buffer, Seq::empty()) == Ok::<
            (BodyPhase, Seq<u8>),
            ErrorView,
        >((BodyPhase::Done, buffer)),
{
}

/// Within a message the body decides what a closed connection means, and nothing else changes.
pub proof fn law_bodies_decide_who_may_close(state: HttpState)
    ensures
        state.phase matches HttpPhaseView::RequestBody { pending, body } ==> match body_receive(
            body,
            state.client,
            Seq::empty(),
        ) {
            Err(e) => http_receive(state, Seq::empty()) == Err::<HttpState, ErrorView>(e),
            Ok((next, grown)) => http_receive(state, Seq::empty()) == Ok::<HttpState, ErrorView>(
                HttpState {
                    phase: HttpPhaseView::RequestBody { pending, body: next },
                    client: grown,
                    remote: state.remote,
                },
            ),
        },
        state.phase matches HttpPhaseView::ResponseBody { body, close, summary }
            ==> match body_receive(body, state.remote, Seq::empty()) {
            Err(e) => http_receive(state, Seq::empty()) == Err::<HttpState, ErrorView>(e),
            Ok((next, grown)) => http_receive(state, Seq::empty()) == Ok::<HttpState, ErrorView>(
                HttpState {
                    phase: HttpPhaseView::ResponseBody { body: next, close, summary },
                    client: state.client,
                    remote: grown,
                },
            ),
        },
{
}

// ---------------------------------------------------------------------------------------------
// Failing
// ---------------------------------------------------------------------------------------------

/// A peer that is silent for too long is reported as such, with what was waited for and why.
pub proof fn law_a_silent_peer_is_reported(
    phase: HttpPhaseView,
    body: BodyPhase,
    reason: Seq<char>,
)
    ensures
        body_timeout(body, reason).kind is TimedOut,
        body is Counted || body is Chunk ==> body_timeout(body, reason).message
            == "body forwarding timeout: "@ + reason,
        body is SizeLine || body is Size || body is Trailer ==> body_timeout(body, reason).message
            == "line read timeout: "@ + reason,
        body is UntilClose ==> body_timeout(body, reason).message == "stream forwarding timeout: "@
            + reason,
        http_timeout(phase, reason).kind is TimedOut,
        phase is RequestHead || phase is ResponseHead ==> http_timeout(phase, reason).message
            == "HTTP connection idle timeout: "@ + reason,
        phase matches HttpPhaseView::RequestBody { pending, body: within } ==> http_timeout(
            phase,
            reason,
        ) == body_timeout(within, reason),
        phase matches HttpPhaseView::ResponseBody { body: within, close, summary } ==> http_timeout(
            phase,
            reason,
        ) == body_timeout(within, reason),
{
}

/// A decision that fails ends the connection: from then on there is nothing to do but to close.
pub proof fn law_a_failure_ends_the_connection(state: HttpState)
    ensures
        http_failed(state).phase is Closed,
        http_next(http_failed(state)) == Ok::<(HttpState, HttpStep), ErrorView>(
            (http_failed(state), HttpStep::Close),
        ),
{
}

} // verus!
