//! How many connections a service serves at a time.

use std::sync::Arc;
use tokio::sync::{OwnedSemaphorePermit, Semaphore, TryAcquireError};
use vstd::prelude::*;

verus! {

/// How many TCP connections a service serves at a time.
pub const maxTcpConnectionsPerService: usize = 4096;

/// `tokio::sync::Semaphore`.
#[verifier::external_type_specification]
#[verifier::external_body]
pub struct ExSemaphore(tokio::sync::Semaphore);

/// `tokio::sync::OwnedSemaphorePermit`.
#[verifier::external_type_specification]
#[verifier::external_body]
pub struct ExOwnedSemaphorePermit(tokio::sync::OwnedSemaphorePermit);

/// How many permits a semaphore was made with.
pub uninterp spec fn initial_permits(semaphore: Semaphore) -> nat;

/// `Semaphore::new` makes a semaphore with so many permits. It panics on more than
/// `Semaphore::MAX_PERMITS`, an eighth of the numbers of a `usize`.
#[verifier::external_body]
fn newSemaphore(permits: usize) -> (semaphore: Semaphore)
    requires
        permits <= usize::MAX / 8,
    ensures
        initial_permits(semaphore) == permits,
{
    Semaphore::new(permits)
}

/// Why a connection is not let in.
#[derive(Clone, Copy, Debug, PartialEq, Eq, Structural)]
pub enum Refusal {
    /// The semaphore was closed.
    Closed,
    /// All permits are taken.
    NoPermits,
}

/// How many permits the semaphore was made with that a permit belongs to.
pub uninterp spec fn permits_at_home(permit: OwnedSemaphorePermit) -> nat;

/// `Semaphore::try_acquire_owned` takes a permit without waiting, and the permit goes back to the
/// same semaphore. Whether there is one depends on the connections that are open at that moment,
/// so nothing is claimed of that.
#[verifier::external_body]
fn tryAcquire(semaphore: &Arc<Semaphore>) -> (r: Result<OwnedSemaphorePermit, Refusal>)
    ensures
        r matches Ok(permit) ==> permits_at_home(permit) == initial_permits(**semaphore),
{
    match semaphore.clone().try_acquire_owned() {
        Ok(permit) => Ok(permit),
        Err(TryAcquireError::Closed) => Err(Refusal::Closed),
        Err(TryAcquireError::NoPermits) => Err(Refusal::NoPermits),
    }
}

/// How a refusal is worded.
pub open spec fn refusal_text(refusal: Refusal) -> Seq<char> {
    match refusal {
        Refusal::Closed => "semaphore closed"@,
        Refusal::NoPermits => "no permits available"@,
    }
}

/// Words a refusal.
pub fn refusalText(refusal: Refusal) -> (text: &'static str)
    ensures
        text@ == refusal_text(refusal),
{
    match refusal {
        Refusal::Closed => "semaphore closed",
        Refusal::NoPermits => "no permits available",
    }
}

/// The right to serve one connection; dropping it lets another one in.
#[derive(Debug)]
pub struct ConnectionPermit {
    permit: OwnedSemaphorePermit,
}

impl ConnectionPermit {
    /// How many connections are let in at a time where this permit comes from.
    pub closed spec fn limit(&self) -> nat {
        permits_at_home(self.permit)
    }
}

/// Lets a limited number of connections in.
#[derive(Debug)]
pub struct ConnectionLimit {
    semaphore: Arc<Semaphore>,
}

impl ConnectionLimit {
    /// How many connections are let in at a time.
    pub closed spec fn limit(&self) -> nat {
        initial_permits(*self.semaphore)
    }

    /// Starts with no connection.
    pub fn new(limit: usize) -> (r: ConnectionLimit)
        requires
            limit <= usize::MAX / 8,
        ensures
            r.limit() == limit,
    {
        ConnectionLimit { semaphore: Arc::new(newSemaphore(limit)) }
    }

    /// Lets a connection in, if there is room for it.
    pub fn tryEnter(&self) -> (r: Result<ConnectionPermit, Refusal>)
        ensures
            r matches Ok(permit) ==> permit.limit() == self.limit(),
    {
        permitOf(tryAcquire(&self.semaphore))
    }
}

impl ConnectionPermit {
    /// The permit that gives the right.
    pub closed spec fn inner(&self) -> OwnedSemaphorePermit {
        self.permit
    }
}

/// Decides about a connection by what came of asking for a permit: with one it is let in, and
/// holds that very permit; without one it is refused for the same reason.
pub fn permitOf(acquired: Result<OwnedSemaphorePermit, Refusal>) -> (r: Result<
    ConnectionPermit,
    Refusal,
>)
    ensures
        match acquired {
            Ok(permit) => r matches Ok(entered) && entered.inner() == permit && entered.limit()
                == permits_at_home(permit),
            Err(refusal) => r matches Err(given) && given == refusal,
        },
{
    match acquired {
        Ok(permit) => Ok(ConnectionPermit { permit }),
        Err(refusal) => Err(refusal),
    }
}

} // verus!
