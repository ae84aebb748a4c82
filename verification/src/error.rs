//! The error that every protocol decision of the proxy reports.

use vstd::prelude::*;

verus! {

/// `std::io::ErrorKind`, which is carried through as the system reported it.
#[verifier::external_type_specification]
#[verifier::external_body]
pub struct ExIoErrorKind(std::io::ErrorKind);

/// What went wrong, as far as a caller can act on it.
#[derive(Clone, Copy, Debug, PartialEq, Eq)]
pub enum ErrorKind {
    /// The peer sent bytes that the protocol does not allow.
    InvalidData,
    /// The peer closed the connection in the middle of a message.
    UnexpectedEof,
    /// The peer was silent for too long.
    TimedOut,
    /// The connection to the target could not be opened, for this reason of the system's.
    ConnectFailed(std::io::ErrorKind),
}

/// A kind together with the text that goes to the log.
#[derive(Debug)]
pub struct ProxyError {
    pub kind: ErrorKind,
    pub message: String,
}

/// A `ProxyError` as contracts see it.
pub struct ErrorView {
    pub kind: ErrorKind,
    pub message: Seq<char>,
}

impl View for ProxyError {
    type V = ErrorView;

    open spec fn view(&self) -> ErrorView {
        ErrorView { kind: self.kind, message: self.message@ }
    }
}

/// A protocol violation with the given text.
pub open spec fn invalid(message: Seq<char>) -> ErrorView {
    ErrorView { kind: ErrorKind::InvalidData, message }
}

/// A connection that ended too early, with the given text.
pub open spec fn cut_short(message: Seq<char>) -> ErrorView {
    ErrorView { kind: ErrorKind::UnexpectedEof, message }
}

/// An idle timeout with the given text.
pub open spec fn too_slow(message: Seq<char>) -> ErrorView {
    ErrorView { kind: ErrorKind::TimedOut, message }
}

/// Builds an error of the given kind.
pub fn error(kind: ErrorKind, message: &str) -> (e: ProxyError)
    ensures
        e@ == (ErrorView { kind, message: message@ }),
{
    ProxyError { kind, message: message.to_owned() }
}

/// Builds the error for a protocol violation.
pub fn invalidData(message: &str) -> (e: ProxyError)
    ensures
        e@ == invalid(message@),
{
    error(ErrorKind::InvalidData, message)
}

/// Builds an error whose text is a fixed lead followed by a detail.
pub fn detailed(kind: ErrorKind, lead: &str, detail: &str) -> (e: ProxyError)
    ensures
        e@ == (ErrorView { kind, message: lead@ + detail@ }),
{
    let mut message = lead.to_owned();
    message.append(detail);
    ProxyError { kind, message }
}

} // verus!
