//! What holds of the services over a whole run.

use vstd::prelude::*;

use crate::limit::Refusal;
use crate::service::{
    are_the_services, service_action, service_note, NoteView, ServiceEventView, ServiceView,
};
use crate::udp_session::UdpState;

verus! {

// ---------------------------------------------------------------------------------------------
// Where they listen
// ---------------------------------------------------------------------------------------------

/// The proxy listens on loopback addresses alone.
pub proof fn law_services_listen_on_loopback_alone(list: Seq<ServiceView>)
    requires
        are_the_services(list),
    ensures
        forall|i: int| 0 <= i < list.len() ==> (#[trigger] list[i]).address.ip.is_loopback(),
{
}

/// No two services claim the same socket: they differ in transport, family or port.
pub proof fn law_no_two_services_share_a_socket(list: Seq<ServiceView>)
    requires
        are_the_services(list),
    ensures
        forall|i: int, j: int|
            0 <= i < j < list.len() ==> {
                ||| (#[trigger] list[i]).kind is Socks5Udp != (#[trigger] list[j]).kind is Socks5Udp
                ||| list[i].address.ip is V6 != list[j].address.ip is V6
                ||| list[i].address.port != list[j].address.port
            },
{
}

// ---------------------------------------------------------------------------------------------
// Connections
// ---------------------------------------------------------------------------------------------

/// What happens to a service that takes in connections.
pub enum Happening {
    /// A connection could not be taken in.
    AcceptFailed { reason: Seq<char> },
    /// A connection came in.
    Came { client: Seq<char> },
    /// A connection that was served is over, well or not.
    Ended { client: Seq<char>, failure: Option<Seq<char>> },
}

/// How many connections are served, and what the log says so far.
pub struct Load {
    pub open: nat,
    pub notes: Seq<NoteView>,
}

/// What a happening is to a service whose connections each hold one of `limit` permits: there is a
/// permit for one more exactly while fewer than that are held.
pub open spec fn event_of(load: Load, limit: nat, h: Happening) -> Option<ServiceEventView> {
    match h {
        Happening::AcceptFailed { reason } => Some(ServiceEventView::AcceptFailed { reason }),
        Happening::Came { client } => if load.open < limit {
            Some(ServiceEventView::Admitted { client })
        } else {
            Some(ServiceEventView::Refused { client, refusal: Refusal::NoPermits })
        },
        Happening::Ended { client, failure } => match failure {
            Some(reason) => Some(ServiceEventView::ClientFailed { client, reason }),
            None => None,
        },
    }
}

/// How many connections are served after a happening: a connection that ends gives its permit
/// back.
pub open spec fn open_after(load: Load, limit: nat, h: Happening) -> nat {
    if h is Ended {
        (load.open - 1) as nat
    } else if event_of(load, limit, h) matches Some(event) && service_action(event) is Serve {
        load.open + 1
    } else {
        load.open
    }
}

/// What the log says after a happening.
pub open spec fn notes_after(
    service: ServiceView,
    load: Load,
    limit: nat,
    h: Happening,
) -> Seq<NoteView> {
    match event_of(load, limit, h) {
        Some(event) => match service_note(service, event) {
            Some(note) => load.notes.push(note),
            None => load.notes,
        },
        None => load.notes,
    }
}

/// What a run of happenings amounts to.
pub open spec fn load_after(service: ServiceView, limit: nat, run: Seq<Happening>) -> Load
    decreases run.len(),
{
    if run.len() == 0 {
        Load { open: 0, notes: Seq::empty() }
    } else {
        let load = load_after(service, limit, run.drop_last());
        Load {
            open: open_after(load, limit, run.last()),
            notes: notes_after(service, load, limit, run.last()),
        }
    }
}

/// Whether only connections end that are served.
pub open spec fn is_run(service: ServiceView, limit: nat, run: Seq<Happening>) -> bool
    decreases run.len(),
{
    run.len() > 0 ==> is_run(service, limit, run.drop_last()) && (run.last() is Ended
        ==> load_after(service, limit, run.drop_last()).open > 0)
}

/// At no moment of a run are more connections served than there are permits.
pub proof fn law_no_more_connections_than_permits(
    service: ServiceView,
    limit: nat,
    run: Seq<Happening>,
)
    requires
        is_run(service, limit, run),
    ensures
        load_after(service, limit, run).open <= limit,
    decreases run.len(),
{
    if run.len() > 0 {
        law_no_more_connections_than_permits(service, limit, run.drop_last());
    }
}

/// Whatever happens in a run, the service goes on. A connection beyond the limit, or one that
/// cannot be taken in, adds one warning to the log and changes nothing else; one that ends frees
/// its permit, whether it failed or not, and adds a warning only if it failed.
pub proof fn law_a_service_goes_on(
    service: ServiceView,
    limit: nat,
    run: Seq<Happening>,
    h: Happening,
)
    requires
        is_run(service, limit, run.push(h)),
    ensures
        ({
            let before = load_after(service, limit, run);
            let after = load_after(service, limit, run.push(h));
            &&& event_of(before, limit, h) matches Some(event) ==> !(service_action(event) is Stop)
            &&& match h {
                Happening::AcceptFailed { .. } => after.open == before.open && adds_a_warning(
                    before,
                    after,
                ),
                Happening::Came { client } => if before.open < limit {
                    after.open == before.open + 1
                } else {
                    after.open == before.open && adds_a_warning(before, after)
                },
                Happening::Ended { client, failure } => after.open == before.open - 1
                    && if failure is Some {
                    adds_a_warning(before, after)
                } else {
                    after.notes == before.notes
                },
            }
        }),
{
    assert(run.push(h).drop_last() =~= run);
}

/// Whether the log says one thing more, and it is a warning.
pub open spec fn adds_a_warning(before: Load, after: Load) -> bool {
    exists|note: NoteView|
        note.level is Warn && after.notes == #[trigger] before.notes.push(note)
}

// ---------------------------------------------------------------------------------------------
// Datagrams
// ---------------------------------------------------------------------------------------------

/// What comes in at a service that takes in datagrams.
pub enum Arrival {
    /// A datagram could not be taken in.
    Failed { reason: Seq<char> },
    /// A datagram came in.
    Datagram { client: Seq<char>, bytes: Seq<u8> },
}

/// A buffer after a datagram was received in it: the datagram, and behind it what was there.
pub open spec fn filled(buffer: Seq<u8>, bytes: Seq<u8>) -> Seq<u8> {
    bytes + buffer.skip(bytes.len() as int)
}

/// The sessions that are begun for what comes in, each out of the one buffer that everything is
/// received in.
pub open spec fn begun(buffer: Seq<u8>, arrivals: Seq<Arrival>) -> Seq<(Seq<char>, UdpState)>
    decreases arrivals.len(),
{
    if arrivals.len() == 0 {
        Seq::empty()
    } else {
        match arrivals[0] {
            Arrival::Failed { reason } => begun(buffer, arrivals.drop_first()),
            Arrival::Datagram { client, bytes } => {
                let now = filled(buffer, bytes);
                let rest = begun(now, arrivals.drop_first());
                if service_action(ServiceEventView::PacketCame) is Serve {
                    seq![(client, UdpState::Received { packet: now.take(bytes.len() as int) })]
                        + rest
                } else {
                    rest
                }
            },
        }
    }
}

/// The datagrams among what comes in.
pub open spec fn datagrams(arrivals: Seq<Arrival>) -> Seq<(Seq<char>, UdpState)>
    decreases arrivals.len(),
{
    if arrivals.len() == 0 {
        Seq::empty()
    } else {
        match arrivals[0] {
            Arrival::Failed { reason } => datagrams(arrivals.drop_first()),
            Arrival::Datagram { client, bytes } => seq![
                (client, UdpState::Received { packet: bytes }),
            ] + datagrams(arrivals.drop_first()),
        }
    }
}

/// Every datagram is handed on once, in its order, with its client and exactly its bytes, whatever
/// earlier ones left in the buffer and whatever failed in between.
pub proof fn law_every_datagram_is_handed_on_unaltered(buffer: Seq<u8>, arrivals: Seq<Arrival>)
    requires
        forall|i: int|
            0 <= i < arrivals.len() ==> ((#[trigger] arrivals[i]) matches Arrival::Datagram {
                client,
                bytes,
            } ==> bytes.len() <= buffer.len()),
    ensures
        begun(buffer, arrivals) == datagrams(arrivals),
    decreases arrivals.len(),
{
    if arrivals.len() > 0 {
        let rest = arrivals.drop_first();
        let next = match arrivals[0] {
            Arrival::Failed { reason } => buffer,
            Arrival::Datagram { client, bytes } => filled(buffer, bytes),
        };
        assert forall|i: int| 0 <= i < rest.len() implies ((
        #[trigger] rest[i]) matches Arrival::Datagram { client, bytes } ==> bytes.len()
            <= next.len()) by {
            assert(rest[i] == arrivals[i + 1]);
        }
        law_every_datagram_is_handed_on_unaltered(next, rest);
        if let Arrival::Datagram { client, bytes } = arrivals[0] {
            assert(next.take(bytes.len() as int) =~= bytes);
        }
    }
}

/// A datagram that cannot be taken in, or whose handling fails, is a warning in the log, and the
/// service goes on.
pub proof fn law_failed_datagrams_do_not_end_the_service(
    service: ServiceView,
    client: Seq<char>,
    reason: Seq<char>,
)
    requires
        service.kind is Socks5Udp,
    ensures
        ({
            let lost = ServiceEventView::AcceptFailed { reason };
            let failed = ServiceEventView::ClientFailed { client, reason };
            &&& service_action(lost) is Accept
            &&& service_action(failed) is Accept
            &&& service_note(service, lost) matches Some(note) && note.level is Warn
            &&& service_note(service, failed) matches Some(note) && note.level is Warn
        }),
{
}

} // verus!
