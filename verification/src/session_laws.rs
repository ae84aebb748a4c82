//! What a whole exchange of the HTTP proxy amounts to, however the streams are cut into reads.

use vstd::prelude::*;
use vstd::utf8::encode_utf8;

use crate::body::{
    body_length, body_receive, body_start, body_step, body_wf, forward_body, joined,
    law_a_body_until_close_gets_through, law_a_whole_body_gets_through,
    law_forwarding_keeps_every_byte, law_forwarding_stops_at_the_end_of_the_body,
    law_forwarding_until_close_holds_nothing_back, law_phases_stay_well_formed,
    law_step_keeps_every_byte, lemma_step_moves_body_end, lines_fit, BodyPhase, BodyStep,
};
use crate::error::ErrorView;
use crate::exchange::{
    plan_request, plan_response_head, PendingView, RequestPlanView, ResponsePlanView,
};
use crate::framing::BodyMode;
use crate::message::{client_response_text, parse_request, parse_response, RequestView};
use crate::session::{
    await_response, established, http_next, http_receive, HttpPhaseView, HttpState, HttpStep,
};
use crate::stream::{
    cut, head_mark, law_a_piece_that_is_not_there_is_longer, law_cut_ignores_what_follows,
    maxHttpHeaderSize,
};
use crate::target::normalize_authority;
use crate::text::same_ignoring_case;

verus! {

/// What came of an exchange: the state behind it, what was dialled, what was written to either
/// side, which reads were not made, and the summary.
pub struct Exchange {
    pub after: HttpState,
    pub dialled: Seq<Seq<char>>,
    pub to_remote: Seq<u8>,
    pub to_client: Seq<u8>,
    pub client_unread: Seq<Seq<u8>>,
    pub remote_unread: Seq<Seq<u8>>,
    pub summary: Seq<char>,
}

/// Drives a connection until an exchange is over, with the reads that either side has to offer
/// and connections that all succeed, in at most so many steps. `None` if the exchange does not
/// end within them, fails, or is no exchange but a tunnel.
pub open spec fn run(
    state: HttpState,
    client_reads: Seq<Seq<u8>>,
    remote_reads: Seq<Seq<u8>>,
    steps: nat,
) -> Option<Exchange>
    decreases steps,
{
    if steps == 0 {
        None
    } else {
        let fewer = (steps - 1) as nat;
        match http_next(state) {
            Err(_) => None,
            Ok((next, HttpStep::ReadClient)) => if client_reads.len() == 0 {
                None
            } else {
                match http_receive(next, client_reads[0]) {
                    Err(_) => None,
                    Ok(after) => run(after, client_reads.drop_first(), remote_reads, fewer),
                }
            },
            Ok((next, HttpStep::ReadRemote)) => if remote_reads.len() == 0 {
                None
            } else {
                match http_receive(next, remote_reads[0]) {
                    Err(_) => None,
                    Ok(after) => run(after, client_reads, remote_reads.drop_first(), fewer),
                }
            },
            Ok((next, HttpStep::WriteClient(bytes))) => match run(
                next,
                client_reads,
                remote_reads,
                fewer,
            ) {
                None => None,
                Some(x) => Some(Exchange { to_client: bytes + x.to_client, ..x }),
            },
            Ok((next, HttpStep::WriteRemote(bytes))) => match run(
                next,
                client_reads,
                remote_reads,
                fewer,
            ) {
                None => None,
                Some(x) => Some(Exchange { to_remote: bytes + x.to_remote, ..x }),
            },
            Ok((next, HttpStep::Connect(address))) => match run(
                next,
                client_reads,
                remote_reads,
                fewer,
            ) {
                None => None,
                Some(x) => Some(Exchange { dialled: seq![address] + x.dialled, ..x }),
            },
            Ok((next, HttpStep::Finished(summary))) => Some(
                Exchange {
                    after: next,
                    dialled: Seq::empty(),
                    to_remote: Seq::empty(),
                    to_client: Seq::empty(),
                    client_unread: client_reads,
                    remote_unread: remote_reads,
                    summary,
                },
            ),
            Ok(_) => None,
        }
    }
}

/// More steps do not change an exchange that is over.
#[verifier::spinoff_prover]
#[verifier::rlimit(40)]
pub proof fn law_an_exchange_that_is_over_stays_over(
    state: HttpState,
    client_reads: Seq<Seq<u8>>,
    remote_reads: Seq<Seq<u8>>,
    steps: nat,
    more: nat,
)
    requires
        run(state, client_reads, remote_reads, steps) is Some,
        steps <= more,
    ensures
        run(state, client_reads, remote_reads, more) == run(
            state,
            client_reads,
            remote_reads,
            steps,
        ),
    decreases steps,
{
    let fewer = (steps - 1) as nat;
    let fewer_more = (more - 1) as nat;
    match http_next(state) {
        Ok((next, HttpStep::ReadClient)) => {
            match http_receive(next, client_reads[0]) {
                Ok(after) => {
                    law_an_exchange_that_is_over_stays_over(
                        after,
                        client_reads.drop_first(),
                        remote_reads,
                        fewer,
                        fewer_more,
                    );
                },
                Err(_) => {},
            }
        },
        Ok((next, HttpStep::ReadRemote)) => {
            match http_receive(next, remote_reads[0]) {
                Ok(after) => {
                    law_an_exchange_that_is_over_stays_over(
                        after,
                        client_reads,
                        remote_reads.drop_first(),
                        fewer,
                        fewer_more,
                    );
                },
                Err(_) => {},
            }
        },
        Ok((next, HttpStep::WriteClient(_)))
        | Ok((next, HttpStep::WriteRemote(_)))
        | Ok((next, HttpStep::Connect(_))) => {
            law_an_exchange_that_is_over_stays_over(
                next,
                client_reads,
                remote_reads,
                fewer,
                fewer_more,
            );
        },
        _ => {},
    }
}

// ---------------------------------------------------------------------------------------------
// Responses
// ---------------------------------------------------------------------------------------------

/// Whether an exchange answers the client with the response that a stream from the server
/// starts with: its head as the client is to get it, and behind it the body, up to its boundary
/// or, where it has none, up to the end of the stream.
pub open spec fn answers(pending: PendingView, stream: Seq<u8>, x: Exchange) -> bool {
    match cut(stream, head_mark()) {
        None => false,
        Some((head, rest)) => match plan_response_head(pending, head) {
            Err(_) => false,
            Ok(plan) => {
                &&& x.summary == plan.summary
                &&& x.after.phase == if plan.close {
                    HttpPhaseView::Closed
                } else {
                    HttpPhaseView::RequestHead
                }
                &&& if plan.body is UntilClose {
                    &&& x.to_client + joined(x.remote_unread) == encode_utf8(plan.head) + rest
                    &&& x.after.remote.len() == 0
                } else {
                    &&& body_length(body_start(plan.body), rest) matches Some(n)
                    &&& x.to_client == encode_utf8(plan.head) + rest.take(n as int)
                    &&& x.after.remote + joined(x.remote_unread) == rest.skip(n as int)
                }
            },
        },
    }
}

/// Passing on the body of a response within a connection is passing on a body.
#[verifier::spinoff_prover]
#[verifier::rlimit(40)]
proof fn lemma_response_body(
    state: HttpState,
    client_reads: Seq<Seq<u8>>,
    remote_reads: Seq<Seq<u8>>,
    steps: nat,
)
    requires
        state.phase is ResponseBody,
    ensures
        state.phase matches HttpPhaseView::ResponseBody { body, close, summary }
            ==> match forward_body(body, state.remote, remote_reads, steps) {
            None => run(state, client_reads, remote_reads, steps) is None,
            Some(f) => run(state, client_reads, remote_reads, steps) == Some(
                Exchange {
                    after: HttpState {
                        phase: if close {
                            HttpPhaseView::Closed
                        } else {
                            HttpPhaseView::RequestHead
                        },
                        client: state.client,
                        remote: f.left,
                    },
                    dialled: Seq::empty(),
                    to_remote: Seq::empty(),
                    to_client: f.written,
                    client_unread: client_reads,
                    remote_unread: f.unread,
                    summary,
                },
            ),
        },
    decreases steps,
{
    if steps > 0 {
        let fewer = (steps - 1) as nat;
        if let HttpPhaseView::ResponseBody { body, close, summary } = state.phase {
            match body_step(body, state.remote) {
                Err(_) => {},
                Ok((next, rest, BodyStep::Done)) => {},
                Ok((next, rest, BodyStep::Write(bytes))) => {
                    let after = HttpState {
                        phase: HttpPhaseView::ResponseBody { body: next, close, summary },
                        remote: rest,
                        ..state
                    };
                    lemma_response_body(after, client_reads, remote_reads, fewer);
                },
                Ok((next, rest, BodyStep::Read)) => {
                    if remote_reads.len() > 0 {
                        match body_receive(next, rest, remote_reads[0]) {
                            Err(_) => {},
                            Ok((received, grown)) => {
                                let after = HttpState {
                                    phase: HttpPhaseView::ResponseBody {
                                        body: received,
                                        close,
                                        summary,
                                    },
                                    remote: grown,
                                    ..state
                                };
                                lemma_response_body(
                                    after,
                                    client_reads,
                                    remote_reads.drop_first(),
                                    fewer,
                                );
                            },
                        }
                    }
                },
            }
        }
    }
}

/// A response whose head was sent on is sent on whole.
proof fn lemma_response_body_is_passed_on(
    plan: ResponsePlanView,
    state: HttpState,
    client_reads: Seq<Seq<u8>>,
    remote_reads: Seq<Seq<u8>>,
    steps: nat,
)
    requires
        state.phase == (HttpPhaseView::ResponseBody {
            body: body_start(plan.body),
            close: plan.close,
            summary: plan.summary,
        }),
        run(state, client_reads, remote_reads, steps) is Some,
    ensures
        ({
            let x = run(state, client_reads, remote_reads, steps)->0;
            let stream = state.remote + joined(remote_reads);
            &&& x.summary == plan.summary
            &&& x.after.phase == if plan.close {
                HttpPhaseView::Closed
            } else {
                HttpPhaseView::RequestHead
            }
            &&& x.after.client == state.client
            &&& x.client_unread == client_reads
            &&& x.to_remote.len() == 0
            &&& x.dialled.len() == 0
            &&& if plan.body is UntilClose {
                &&& x.to_client + joined(x.remote_unread) == stream
                &&& x.after.remote.len() == 0
            } else {
                &&& body_length(body_start(plan.body), stream) matches Some(n)
                &&& x.to_client == stream.take(n as int)
                &&& x.after.remote + joined(x.remote_unread) == stream.skip(n as int)
            }
        }),
{
    let body = body_start(plan.body);
    let stream = state.remote + joined(remote_reads);
    lemma_response_body(state, client_reads, remote_reads, steps);
    let f = forward_body(body, state.remote, remote_reads, steps)->0;
    law_phases_stay_well_formed(plan.body, BodyPhase::Done, Seq::empty(), Seq::empty());
    law_forwarding_keeps_every_byte(body, state.remote, remote_reads, steps);
    if plan.body is UntilClose {
        law_forwarding_until_close_holds_nothing_back(state.remote, remote_reads, steps);
    } else {
        law_forwarding_stops_at_the_end_of_the_body(body, state.remote, remote_reads, steps);
        assert(f.left + joined(f.unread) =~= stream.skip(f.written.len() as int));
    }
}

/// A response that was passed on to its end was passed on as it should be.
#[verifier::spinoff_prover]
#[verifier::rlimit(40)]
proof fn lemma_response_is_passed_on(
    pending: PendingView,
    state: HttpState,
    client_reads: Seq<Seq<u8>>,
    remote_reads: Seq<Seq<u8>>,
    steps: nat,
)
    requires
        state.phase == (HttpPhaseView::ResponseHead { pending }),
        run(state, client_reads, remote_reads, steps) is Some,
    ensures
        ({
            let x = run(state, client_reads, remote_reads, steps)->0;
            &&& answers(pending, state.remote + joined(remote_reads), x)
            &&& x.after.client == state.client
            &&& x.client_unread == client_reads
            &&& x.to_remote.len() == 0
            &&& x.dialled.len() == 0
        }),
    decreases steps,
{
    let fewer = (steps - 1) as nat;
    let stream = state.remote + joined(remote_reads);
    match cut(state.remote, head_mark()) {
        Some((head, rest)) => {
            law_cut_ignores_what_follows(state.remote, joined(remote_reads), head_mark());
            match plan_response_head(pending, head) {
                Err(_) => {},
                Ok(plan) => {
                    let next = HttpState {
                        phase: HttpPhaseView::ResponseBody {
                            body: body_start(plan.body),
                            close: plan.close,
                            summary: plan.summary,
                        },
                        remote: rest,
                        ..state
                    };
                    lemma_response_body_is_passed_on(
                        plan,
                        next,
                        client_reads,
                        remote_reads,
                        fewer,
                    );
                    let y = run(next, client_reads, remote_reads, fewer)->0;
                    let sent = encode_utf8(plan.head);
                    assert((sent + y.to_client) + joined(y.remote_unread) =~= sent + (y.to_client
                        + joined(y.remote_unread)));
                },
            }
        },
        None => {
            if state.remote.len() <= maxHttpHeaderSize && remote_reads.len() > 0 {
                match http_receive(state, remote_reads[0]) {
                    Err(_) => {},
                    Ok(after) => {
                        lemma_response_is_passed_on(
                            pending,
                            after,
                            client_reads,
                            remote_reads.drop_first(),
                            fewer,
                        );
                        assert(after.remote + joined(remote_reads.drop_first()) =~= stream);
                    },
                }
            }
        },
    }
}

// ---------------------------------------------------------------------------------------------
// Requests
// ---------------------------------------------------------------------------------------------

/// A connection that awaits a response.
pub open spec fn awaiting(pending: PendingView, state: HttpState) -> HttpState {
    HttpState { phase: HttpPhaseView::ResponseHead { pending }, ..state }
}

/// Behind its body a request is answered as if its response had been awaited all along.
proof fn lemma_body_done_is_awaiting(
    pending: PendingView,
    state: HttpState,
    body: BodyPhase,
    client_reads: Seq<Seq<u8>>,
    remote_reads: Seq<Seq<u8>>,
    steps: nat,
)
    requires
        state.phase == (HttpPhaseView::RequestBody { pending, body }),
        body_step(body, state.client) matches Ok((next, rest, BodyStep::Done)),
        body_wf(body),
    ensures
        run(state, client_reads, remote_reads, steps) == run(
            awaiting(pending, state),
            client_reads,
            remote_reads,
            steps,
        ),
{
    law_step_keeps_every_byte(body, state.client);
    assert(http_next(state) == await_response(pending, state));
    assert(http_next(awaiting(pending, state)) == await_response(
        pending,
        awaiting(pending, state),
    ));
    assert(await_response(pending, state) == await_response(pending, awaiting(pending, state)));
}

/// A request whose head was sent on is sent on whole, and answered.
#[verifier::spinoff_prover]
#[verifier::rlimit(40)]
proof fn lemma_request_body_is_passed_on(
    pending: PendingView,
    body: BodyPhase,
    state: HttpState,
    client_reads: Seq<Seq<u8>>,
    remote_reads: Seq<Seq<u8>>,
    steps: nat,
)
    requires
        state.phase == (HttpPhaseView::RequestBody { pending, body }),
        body_wf(body),
        !(body is UntilClose),
        run(state, client_reads, remote_reads, steps) is Some,
    ensures
        ({
            let x = run(state, client_reads, remote_reads, steps)->0;
            let stream = state.client + joined(client_reads);
            &&& body_length(body, stream) matches Some(n)
            &&& n <= stream.len()
            &&& x.to_remote == stream.take(n as int)
            &&& x.after.client + joined(x.client_unread) == stream.skip(n as int)
            &&& answers(pending, state.remote + joined(remote_reads), x)
            &&& x.dialled.len() == 0
        }),
    decreases steps,
{
    let fewer = (steps - 1) as nat;
    let x = run(state, client_reads, remote_reads, steps)->0;
    let future = joined(client_reads);
    let stream = state.client + future;
    law_step_keeps_every_byte(body, state.client);
    law_phases_stay_well_formed(BodyMode::Empty, body, state.client, Seq::empty());
    lemma_step_moves_body_end(body, state.client, future);
    match body_step(body, state.client) {
        Err(_) => {},
        Ok((next, rest, BodyStep::Done)) => {
            lemma_body_done_is_awaiting(pending, state, body, client_reads, remote_reads, steps);
            lemma_response_is_passed_on(
                pending,
                awaiting(pending, state),
                client_reads,
                remote_reads,
                steps,
            );
            assert(stream.take(0) =~= x.to_remote);
            assert(stream.skip(0) =~= stream);
        },
        Ok((next, rest, BodyStep::Write(bytes))) => {
            let after = HttpState {
                phase: HttpPhaseView::RequestBody { pending, body: next },
                client: rest,
                ..state
            };
            lemma_request_body_is_passed_on(
                pending,
                next,
                after,
                client_reads,
                remote_reads,
                fewer,
            );
            let m = body_length(next, rest + future)->0 as int;
            let n = bytes.len() + m;
            assert(stream =~= bytes + (rest + future));
            assert(stream.take(n) =~= bytes + (rest + future).take(m));
            assert(stream.skip(n) =~= (rest + future).skip(m));
        },
        Ok((next, rest, BodyStep::Read)) => {
            let paused = HttpState {
                phase: HttpPhaseView::RequestBody { pending, body: next },
                client: rest,
                ..state
            };
            match body_receive(next, rest, client_reads[0]) {
                Err(_) => {},
                Ok((received, grown)) => {
                    let later = client_reads.drop_first();
                    let after = HttpState {
                        phase: HttpPhaseView::RequestBody { pending, body: received },
                        client: grown,
                        ..paused
                    };
                    assert(grown + joined(later) =~= stream);
                    lemma_request_body_is_passed_on(
                        pending,
                        received,
                        after,
                        later,
                        remote_reads,
                        fewer,
                    );
                },
            }
        },
    }
}

/// Whether an exchange is the one that a client's stream asks for, with a server's stream in
/// reply: the request at the front is sent on to where it goes, head and body, and answered; what
/// follows it is kept for the next exchange.
pub open spec fn is_exchange_of(
    client_stream: Seq<u8>,
    remote_stream: Seq<u8>,
    x: Exchange,
) -> bool {
    match cut(client_stream, head_mark()) {
        None => false,
        Some((head, rest)) => match parse_request(head) {
            Err(_) => false,
            Ok(request) => match plan_request(request) {
                Err(_) => false,
                Ok(plan) => {
                    &&& !same_ignoring_case(request.method, "CONNECT"@)
                    &&& x.dialled == seq![plan.address]
                    &&& body_length(body_start(plan.body), rest) matches Some(n)
                    &&& n <= rest.len()
                    &&& x.to_remote == encode_utf8(plan.head) + rest.take(n as int)
                    &&& x.after.client + joined(x.client_unread) == rest.skip(n as int)
                    &&& answers(plan.pending, remote_stream, x)
                },
            },
        },
    }
}

/// An exchange that comes to its end is the one that the two streams hold, however they are cut
/// into reads.
#[verifier::spinoff_prover]
#[verifier::rlimit(40)]
pub proof fn law_an_exchange_does_what_was_asked(
    state: HttpState,
    client_reads: Seq<Seq<u8>>,
    remote_reads: Seq<Seq<u8>>,
    steps: nat,
)
    requires
        state.phase is RequestHead,
        run(state, client_reads, remote_reads, steps) is Some,
    ensures
        is_exchange_of(
            state.client + joined(client_reads),
            joined(remote_reads),
            run(state, client_reads, remote_reads, steps)->0,
        ),
    decreases steps,
{
    let fewer = (steps - 1) as nat;
    let future = joined(client_reads);
    let stream = state.client + future;
    match cut(state.client, head_mark()) {
        Some((head, rest)) => {
            law_cut_ignores_what_follows(state.client, future, head_mark());
            match parse_request(head) {
                Err(_) => {},
                Ok(request) => {
                    if same_ignoring_case(request.method, "CONNECT"@) {
                    } else {
                        match plan_request(request) {
                            Err(_) => {},
                            Ok(plan) => {
                                lemma_request_is_passed_on(
                                    plan,
                                    request,
                                    HttpState { client: rest, ..state },
                                    client_reads,
                                    remote_reads,
                                    fewer,
                                );
                            },
                        }
                    }
                },
            }
        },
        None => {
            if state.client.len() <= maxHttpHeaderSize && client_reads.len() > 0 {
                match http_receive(state, client_reads[0]) {
                    Err(_) => {},
                    Ok(after) => {
                        let later = client_reads.drop_first();
                        if after.phase is RequestHead {
                            law_an_exchange_does_what_was_asked(after, later, remote_reads, fewer);
                            assert(after.client + joined(later) =~= stream);
                        }
                    },
                }
            }
        },
    }
}

/// A connection whose request was planned and dialled.
pub open spec fn dialling(plan: RequestPlanView, state: HttpState) -> HttpState {
    HttpState { phase: HttpPhaseView::Dialled { plan }, remote: Seq::empty(), ..state }
}

proof fn lemma_request_is_passed_on(
    plan: RequestPlanView,
    request: RequestView,
    state: HttpState,
    client_reads: Seq<Seq<u8>>,
    remote_reads: Seq<Seq<u8>>,
    steps: nat,
)
    requires
        plan_request(request) == Ok::<RequestPlanView, ErrorView>(plan),
        run(dialling(plan, state), client_reads, remote_reads, steps) is Some,
    ensures
        ({
            let x = run(dialling(plan, state), client_reads, remote_reads, steps)->0;
            let stream = state.client + joined(client_reads);
            &&& body_length(body_start(plan.body), stream) matches Some(n)
            &&& n <= stream.len()
            &&& x.to_remote == encode_utf8(plan.head) + stream.take(n as int)
            &&& x.after.client + joined(x.client_unread) == stream.skip(n as int)
            &&& answers(plan.pending, joined(remote_reads), x)
            &&& x.dialled.len() == 0
        }),
{
    let body = body_start(plan.body);
    let next = HttpState {
        phase: HttpPhaseView::RequestBody { pending: plan.pending, body },
        ..dialling(plan, state)
    };
    law_phases_stay_well_formed(plan.body, BodyPhase::Done, Seq::empty(), Seq::empty());
    lemma_request_body_is_passed_on(
        plan.pending,
        body,
        next,
        client_reads,
        remote_reads,
        (steps - 1) as nat,
    );
    assert(Seq::<u8>::empty() + joined(remote_reads) =~= joined(remote_reads));
}

// ---------------------------------------------------------------------------------------------
// Completion
// ---------------------------------------------------------------------------------------------

/// Whether every read delivers something.
pub open spec fn all_deliver(reads: Seq<Seq<u8>>) -> bool {
    forall|i: int| 0 <= i < reads.len() ==> (#[trigger] reads[i]).len() > 0
}

/// Whether every read but the last one delivers something, and the last one finds the connection
/// closed.
pub open spec fn deliver_until_close(reads: Seq<Seq<u8>>) -> bool {
    &&& reads.len() > 0
    &&& reads.last().len() == 0
    &&& all_deliver(reads.drop_last())
}

/// Whether a body is there whole and its lines fit into the buffer.
pub open spec fn is_whole_body(mode: BodyMode, stream: Seq<u8>) -> bool {
    body_length(body_start(mode), stream) is Some && lines_fit(body_start(mode), stream)
}

/// Whether a response is there whole, from what is buffered and what the reads deliver: a head
/// that fits into the buffer and makes sense, and its body.
pub open spec fn is_whole_response(
    pending: PendingView,
    buffer: Seq<u8>,
    reads: Seq<Seq<u8>>,
) -> bool {
    match cut(buffer + joined(reads), head_mark()) {
        None => false,
        Some((head, rest)) => match plan_response_head(pending, head) {
            Err(_) => false,
            Ok(plan) => {
                &&& head.len() <= maxHttpHeaderSize + 1
                &&& if plan.body is UntilClose {
                    deliver_until_close(reads)
                } else {
                    all_deliver(reads) && is_whole_body(plan.body, rest)
                }
            },
        },
    }
}

/// Whether a request is there whole: a head that fits into the buffer and makes sense, and its
/// body.
pub open spec fn is_whole_request(stream: Seq<u8>, plan: RequestPlanView) -> bool {
    match cut(stream, head_mark()) {
        None => false,
        Some((head, rest)) => match parse_request(head) {
            Err(_) => false,
            Ok(request) => {
                &&& head.len() <= maxHttpHeaderSize + 1
                &&& !same_ignoring_case(request.method, "CONNECT"@)
                &&& plan_request(request) == Ok::<RequestPlanView, ErrorView>(plan)
                &&& is_whole_body(plan.body, rest)
            },
        },
    }
}

#[verifier::spinoff_prover]
#[verifier::rlimit(40)]
proof fn lemma_response_gets_through(
    pending: PendingView,
    state: HttpState,
    client_reads: Seq<Seq<u8>>,
    remote_reads: Seq<Seq<u8>>,
) -> (steps: nat)
    requires
        state.phase == (HttpPhaseView::ResponseHead { pending }),
        is_whole_response(pending, state.remote, remote_reads),
    ensures
        run(state, client_reads, remote_reads, steps) is Some,
    decreases remote_reads.len(),
{
    let future = joined(remote_reads);
    let stream = state.remote + future;
    match cut(state.remote, head_mark()) {
        Some((head, rest)) => {
            law_cut_ignores_what_follows(state.remote, future, head_mark());
            let plan = plan_response_head(pending, head)->Ok_0;
            let body = body_start(plan.body);
            let next = HttpState {
                phase: HttpPhaseView::ResponseBody {
                    body,
                    close: plan.close,
                    summary: plan.summary,
                },
                remote: rest,
                ..state
            };
            let steps = rest.len() + future.len() + remote_reads.len() + 1;
            law_phases_stay_well_formed(plan.body, BodyPhase::Done, Seq::empty(), Seq::empty());
            if plan.body is UntilClose {
                assert(remote_reads[remote_reads.len() - 1].len() == 0);
                law_a_body_until_close_gets_through(rest, remote_reads, steps);
            } else {
                law_a_whole_body_gets_through(body, rest, remote_reads, steps);
            }
            lemma_response_body(next, client_reads, remote_reads, steps);
            steps + 1
        },
        None => {
            law_a_piece_that_is_not_there_is_longer(state.remote, future, head_mark());
            if remote_reads.len() == 0 {
                assert(stream =~= state.remote);
            }
            let later = remote_reads.drop_first();
            let first = remote_reads[0];
            let grown = state.remote + first;
            assert(grown + joined(later) =~= stream);
            if first.len() == 0 {
                if deliver_until_close(remote_reads) {
                    if remote_reads.len() > 1 {
                        assert(remote_reads.drop_last()[0].len() > 0);
                    } else {
                        assert(joined(later).len() == 0);
                        assert(stream =~= state.remote);
                    }
                } else {
                    assert(remote_reads[0].len() > 0);
                }
            }
            if deliver_until_close(remote_reads) {
                if remote_reads.len() == 1 {
                    assert(remote_reads.last() == first);
                }
                assert forall|i: int| 0 <= i < later.drop_last().len() implies (
                #[trigger] later.drop_last()[i]).len() > 0 by {
                    assert(remote_reads.drop_last()[i + 1].len() > 0);
                }
                assert(later.last() == remote_reads.last());
            } else {
                assert forall|i: int| 0 <= i < later.len() implies (#[trigger] later[i]).len()
                    > 0 by {
                    assert(remote_reads[i + 1].len() > 0);
                }
            }
            let after = HttpState { remote: grown, ..state };
            let steps = lemma_response_gets_through(pending, after, client_reads, later);
            steps + 1
        },
    }
}

#[verifier::spinoff_prover]
#[verifier::rlimit(40)]
proof fn lemma_request_body_gets_through(
    pending: PendingView,
    body: BodyPhase,
    state: HttpState,
    client_reads: Seq<Seq<u8>>,
    remote_reads: Seq<Seq<u8>>,
    sending: nat,
    answering: nat,
)
    requires
        state.phase == (HttpPhaseView::RequestBody { pending, body }),
        body_wf(body),
        forward_body(body, state.client, client_reads, sending) matches Some(f) && run(
            awaiting(pending, HttpState { client: f.left, ..state }),
            f.unread,
            remote_reads,
            answering,
        ) is Some,
    ensures
        run(state, client_reads, remote_reads, sending + answering) is Some,
    decreases sending,
{
    let fewer = (sending - 1) as nat;
    let f = forward_body(body, state.client, client_reads, sending)->0;
    law_step_keeps_every_byte(body, state.client);
    law_phases_stay_well_formed(BodyMode::Empty, body, state.client, Seq::empty());
    match body_step(body, state.client) {
        Err(_) => {},
        Ok((next, rest, BodyStep::Done)) => {
            lemma_body_done_is_awaiting(
                pending,
                state,
                body,
                client_reads,
                remote_reads,
                sending + answering,
            );
            law_an_exchange_that_is_over_stays_over(
                awaiting(pending, state),
                client_reads,
                remote_reads,
                answering,
                sending + answering,
            );
        },
        Ok((next, rest, BodyStep::Write(bytes))) => {
            let after = HttpState {
                phase: HttpPhaseView::RequestBody { pending, body: next },
                client: rest,
                ..state
            };
            assert(awaiting(pending, HttpState { client: f.left, ..after }) == awaiting(
                pending,
                HttpState { client: f.left, ..state },
            ));
            lemma_request_body_gets_through(
                pending,
                next,
                after,
                client_reads,
                remote_reads,
                fewer,
                answering,
            );
        },
        Ok((next, rest, BodyStep::Read)) => {
            match body_receive(next, rest, client_reads[0]) {
                Err(_) => {},
                Ok((received, grown)) => {
                    let after = HttpState {
                        phase: HttpPhaseView::RequestBody { pending, body: received },
                        client: grown,
                        ..state
                    };
                    assert(awaiting(pending, HttpState { client: f.left, ..after }) == awaiting(
                        pending,
                        HttpState { client: f.left, ..state },
                    ));
                    law_phases_stay_well_formed(BodyMode::Empty, next, rest, client_reads[0]);
                    lemma_request_body_gets_through(
                        pending,
                        received,
                        after,
                        client_reads.drop_first(),
                        remote_reads,
                        fewer,
                        answering,
                    );
                },
            }
        },
    }
}

/// A request that arrives whole, and whose response arrives whole, makes an exchange that comes
/// to its end.
#[verifier::spinoff_prover]
#[verifier::rlimit(40)]
pub proof fn law_a_whole_exchange_gets_through(
    state: HttpState,
    client_reads: Seq<Seq<u8>>,
    remote_reads: Seq<Seq<u8>>,
    plan: RequestPlanView,
) -> (steps: nat)
    requires
        state.phase is RequestHead,
        all_deliver(client_reads),
        is_whole_request(state.client + joined(client_reads), plan),
        is_whole_response(plan.pending, Seq::empty(), remote_reads),
    ensures
        run(state, client_reads, remote_reads, steps) is Some,
    decreases client_reads.len(),
{
    let future = joined(client_reads);
    let stream = state.client + future;
    match cut(state.client, head_mark()) {
        Some((head, rest)) => {
            law_cut_ignores_what_follows(state.client, future, head_mark());
            let body = body_start(plan.body);
            let sending = rest.len() + future.len() + client_reads.len() + 1;
            law_phases_stay_well_formed(plan.body, BodyPhase::Done, Seq::empty(), Seq::empty());
            law_a_whole_body_gets_through(body, rest, client_reads, sending);
            let f = forward_body(body, rest, client_reads, sending)->0;
            let dialled = dialling(plan, HttpState { client: rest, ..state });
            let sent = HttpState {
                phase: HttpPhaseView::RequestBody { pending: plan.pending, body },
                ..dialled
            };
            let answering = lemma_response_gets_through(
                plan.pending,
                awaiting(plan.pending, HttpState { client: f.left, ..sent }),
                f.unread,
                remote_reads,
            );
            lemma_request_body_gets_through(
                plan.pending,
                body,
                sent,
                client_reads,
                remote_reads,
                sending,
                answering,
            );
            assert(run(dialled, client_reads, remote_reads, sending + answering + 1) is Some);
            sending + answering + 2
        },
        None => {
            law_a_piece_that_is_not_there_is_longer(state.client, future, head_mark());
            if client_reads.len() == 0 {
                assert(stream =~= state.client);
            }
            let later = client_reads.drop_first();
            let grown = state.client + client_reads[0];
            assert(client_reads[0].len() > 0);
            assert(grown + joined(later) =~= stream);
            assert forall|i: int| 0 <= i < later.len() implies (#[trigger] later[i]).len() > 0 by {
                assert(client_reads[i + 1].len() > 0);
            }
            let steps = law_a_whole_exchange_gets_through(
                HttpState { client: grown, ..state },
                later,
                remote_reads,
                plan,
            );
            steps + 1
        },
    }
}

// ---------------------------------------------------------------------------------------------
// Tunnels
// ---------------------------------------------------------------------------------------------

/// What the target of a tunnel is sent before everything is relayed, from a given state on, in at
/// most so many steps; connections all succeed. `None` if it does not come to that within them.
pub open spec fn sent_ahead(state: HttpState, steps: nat) -> Option<Seq<u8>>
    decreases steps,
{
    if steps == 0 {
        None
    } else {
        match http_next(state) {
            Ok((next, HttpStep::Relay)) => Some(Seq::empty()),
            Ok((next, HttpStep::WriteRemote(bytes))) => match sent_ahead(
                next,
                (steps - 1) as nat,
            ) {
                Some(more) => Some(bytes + more),
                None => None,
            },
            Ok((next, HttpStep::TunnelAsked(_)))
            | Ok((next, HttpStep::Connect(_)))
            | Ok((next, HttpStep::WriteClient(_))) => sent_ahead(next, (steps - 1) as nat),
            _ => None,
        }
    }
}

/// A client that asks for a tunnel is told that it is open only after the target was dialled.
/// Behind that what the client sent too early goes to the target, then everything is relayed, and
/// the connection is closed at the end.
pub proof fn law_a_tunnel_is_dialled_then_confirmed_then_relayed(state: HttpState)
    requires
        state.phase is TunnelAsked,
    ensures
        state.phase matches HttpPhaseView::TunnelAsked { target } ==> {
            let dialled = HttpState { phase: HttpPhaseView::TunnelDialled, ..state };
            let open = HttpState { phase: HttpPhaseView::TunnelOpen, ..state };
            let drained = HttpState { client: Seq::empty(), ..open };
            let closed = HttpState { phase: HttpPhaseView::Closed, ..drained };
            &&& match normalize_authority(target, 443) {
                Err(e) => http_next(state) == Err::<(HttpState, HttpStep), ErrorView>(e),
                Ok(address) => http_next(state) == Ok::<(HttpState, HttpStep), ErrorView>(
                    (dialled, HttpStep::Connect(address)),
                ),
            }
            &&& http_next(dialled) == Ok::<(HttpState, HttpStep), ErrorView>(
                (open, HttpStep::WriteClient(encode_utf8(established()))),
            )
            &&& state.client.len() > 0 ==> http_next(open) == Ok::<
                (HttpState, HttpStep),
                ErrorView,
            >((drained, HttpStep::WriteRemote(state.client)))
            &&& http_next(drained) == Ok::<(HttpState, HttpStep), ErrorView>(
                (closed, HttpStep::Relay),
            )
            &&& http_next(closed) == Ok::<(HttpState, HttpStep), ErrorView>(
                (closed, HttpStep::Close),
            )
        },
{
}

/// A tunnel is raw: everything that came behind the head of the request is sent to the target
/// before the rest is relayed, neither more nor less.
pub proof fn law_a_tunnel_carries_everything_behind_its_head(
    state: HttpState,
    head: Seq<u8>,
    rest: Seq<u8>,
    request: RequestView,
)
    requires
        state.phase is RequestHead,
        cut(state.client, head_mark()) == Some((head, rest)),
        parse_request(head) == Ok::<RequestView, ErrorView>(request),
        same_ignoring_case(request.method, "CONNECT"@),
        normalize_authority(request.target, 443) is Ok,
    ensures
        sent_ahead(state, 6) == Some(rest),
{
    let asked = HttpState {
        phase: HttpPhaseView::TunnelAsked { target: request.target },
        client: rest,
        ..state
    };
    let dialled = HttpState { phase: HttpPhaseView::TunnelDialled, ..asked };
    let open = HttpState { phase: HttpPhaseView::TunnelOpen, ..asked };
    let drained = HttpState { client: Seq::empty(), ..open };
    let none = Seq::<u8>::empty();
    assert(http_next(state) == Ok::<(HttpState, HttpStep), ErrorView>(
        (asked, HttpStep::TunnelAsked(request.target)),
    ));
    law_a_tunnel_is_dialled_then_confirmed_then_relayed(asked);
    assert(sent_ahead(drained, 2) == Some(none));
    assert(rest + none =~= rest);
    if rest.len() == 0 {
        assert(rest =~= none);
        assert(open == drained);
        assert(sent_ahead(open, 3) == Some(none));
    } else {
        assert(sent_ahead(open, 3) == Some(rest));
    }
    assert(sent_ahead(dialled, 4) == Some(rest));
    assert(sent_ahead(asked, 5) == Some(rest));
}

/// A response that ends with the connection makes the client's connection end, and so does a
/// client that does not want it to stay open; the head tells the client which it is.
pub proof fn law_the_client_is_told_whether_its_connection_ends(
    pending: PendingView,
    head: Seq<u8>,
)
    requires
        plan_response_head(pending, head) is Ok,
    ensures
        ({
            let plan = plan_response_head(pending, head)->Ok_0;
            &&& plan.close <==> (plan.body is UntilClose || !pending.keep_alive)
            &&& parse_response(head) matches Ok(response) && plan.head == client_response_text(
                response,
                !plan.close,
            )
        }),
{
}

} // verus!
