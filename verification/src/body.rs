//! Passing a message body on, one decision at a time.
//!
//! [`BodyForwarder`] says what to do next: write some bytes to the receiving side, read more from
//! the sending side, or stop. Whoever drives it performs the action and hands back what was read.

use vstd::prelude::*;
use vstd::slice::slice_subrange;
use vstd::utf8::{decode_utf8, valid_utf8};

use crate::error::{cut_short, detailed, error, invalid, too_slow, ErrorKind, ErrorView, ProxyError};
use crate::framing::BodyMode;
use crate::number::{number_error_text, numberErrorText, parse_number, parseNumber};
use crate::stream::{
    appendBytes, cut, law_a_piece_that_is_not_there_is_longer, law_cut_ignores_what_follows,
    law_cut_keeps_every_byte, lemma_mark_end, line_mark, maxHttpHeaderSize, takeCrLfLine, takeFront,
};
use crate::text::{before, charsOf, positionOf, textFromUtf8, trim, trimmed, utf8_error_text};

verus! {

// ---------------------------------------------------------------------------------------------
// Chunk sizes
// ---------------------------------------------------------------------------------------------

/// The size that the text of a chunk line names: a hexadecimal number before any extension.
pub open spec fn chunk_size_text(text: Seq<char>) -> Result<u64, ErrorView> {
    match parse_number(trim(text.take(before(text, ';') as int)), 16, u64::MAX as nat) {
        Ok(n) => Ok(n as u64),
        Err(e) => Err(invalid("invalid chunk size: "@ + number_error_text(e))),
    }
}

/// The size that a chunk line names.
pub open spec fn chunk_size(line: Seq<u8>) -> Result<u64, ErrorView> {
    if valid_utf8(line) {
        chunk_size_text(decode_utf8(line))
    } else {
        Err(invalid("invalid chunk size line: "@ + utf8_error_text(line)))
    }
}

/// Reads the size off the text of a chunk line.
pub fn parseChunkSizeText(text: &str) -> (r: Result<u64, ProxyError>)
    ensures
        match r {
            Ok(size) => chunk_size_text(text@) == Ok::<u64, ErrorView>(size),
            Err(e) => chunk_size_text(text@) == Err::<u64, ErrorView>(e@),
        },
{
    let chars = charsOf(text);
    let n = positionOf(&chars, ';');
    let sizeText = slice_subrange(&chars, 0, n);
    assert(sizeText@ =~= text@.take(n as int));
    match parseNumber(trimmed(sizeText), 16, u64::MAX) {
        Ok(size) => Ok(size),
        Err(e) => Err(
            detailed(ErrorKind::InvalidData, "invalid chunk size: ", numberErrorText(e)),
        ),
    }
}

/// Reads the size off a chunk line.
pub fn parseChunkSize(line: &[u8]) -> (r: Result<u64, ProxyError>)
    ensures
        match r {
            Ok(size) => chunk_size(line@) == Ok::<u64, ErrorView>(size),
            Err(e) => chunk_size(line@) == Err::<u64, ErrorView>(e@),
        },
{
    match textFromUtf8(line) {
        Ok(text) => parseChunkSizeText(&text),
        Err(reason) => Err(
            detailed(ErrorKind::InvalidData, "invalid chunk size line: ", &reason),
        ),
    }
}

// ---------------------------------------------------------------------------------------------
// Phases and actions
// ---------------------------------------------------------------------------------------------

/// How far a body has been passed on, as contracts see it.
pub enum BodyPhase {
    /// So many bytes are still to come.
    Counted { remaining: nat },
    /// A chunk line is due.
    SizeLine,
    /// A chunk line was passed on; it decides what follows.
    Size { line: Seq<u8> },
    /// So many bytes of the chunk and its line end are still to come.
    Chunk { remaining: nat },
    /// A line behind the last chunk is due.
    Trailer,
    /// Everything up to the end of the connection is to come.
    UntilClose,
    /// The body was passed on.
    Done,
}

/// How far a body has been passed on.
#[derive(Debug)]
pub enum BodyForwarder {
    Counted { remaining: u128 },
    SizeLine,
    Size { line: Vec<u8> },
    Chunk { remaining: u128 },
    Trailer,
    UntilClose,
    Done,
}

impl View for BodyForwarder {
    type V = BodyPhase;

    open spec fn view(&self) -> BodyPhase {
        match self {
            BodyForwarder::Counted { remaining } => BodyPhase::Counted {
                remaining: *remaining as nat,
            },
            BodyForwarder::SizeLine => BodyPhase::SizeLine,
            BodyForwarder::Size { line } => BodyPhase::Size { line: line@ },
            BodyForwarder::Chunk { remaining } => BodyPhase::Chunk { remaining: *remaining as nat },
            BodyForwarder::Trailer => BodyPhase::Trailer,
            BodyForwarder::UntilClose => BodyPhase::UntilClose,
            BodyForwarder::Done => BodyPhase::Done,
        }
    }
}

/// What to do next, as contracts see it.
pub enum BodyStep {
    Write(Seq<u8>),
    Read,
    Done,
}

/// What to do next.
#[derive(Debug)]
pub enum BodyAction {
    /// Write these bytes to the receiving side.
    Write(Vec<u8>),
    /// Read from the sending side.
    Read,
    /// The body was passed on.
    Done,
}

impl View for BodyAction {
    type V = BodyStep;

    open spec fn view(&self) -> BodyStep {
        match self {
            BodyAction::Write(bytes) => BodyStep::Write(bytes@),
            BodyAction::Read => BodyStep::Read,
            BodyAction::Done => BodyStep::Done,
        }
    }
}

// ---------------------------------------------------------------------------------------------
// Decisions
// ---------------------------------------------------------------------------------------------

/// A body of so many bytes; none at all is done at once.
pub open spec fn counted(remaining: nat) -> BodyPhase {
    if remaining == 0 {
        BodyPhase::Done
    } else {
        BodyPhase::Counted { remaining }
    }
}

/// The rest of a chunk; behind it the next chunk line is due.
pub open spec fn chunk(remaining: nat) -> BodyPhase {
    if remaining == 0 {
        BodyPhase::SizeLine
    } else {
        BodyPhase::Chunk { remaining }
    }
}

/// Where passing on a body begins.
pub open spec fn body_start(mode: BodyMode) -> BodyPhase {
    match mode {
        BodyMode::Empty => BodyPhase::Done,
        BodyMode::ContentLength(n) => counted(n as nat),
        BodyMode::Chunked => BodyPhase::SizeLine,
        BodyMode::UntilClose => BodyPhase::UntilClose,
    }
}

/// What a chunk line decides: an empty chunk is the last one, any other is followed by its bytes
/// and a line end.
pub open spec fn body_settle(phase: BodyPhase) -> Result<BodyPhase, ErrorView> {
    match phase {
        BodyPhase::Size { line } => match chunk_size(line) {
            Ok(size) => Ok(
                if size == 0 {
                    BodyPhase::Trailer
                } else {
                    chunk(size as nat + 2)
                },
            ),
            Err(e) => Err(e),
        },
        _ => Ok(phase),
    }
}

/// As many of the buffered bytes as are still wanted.
pub open spec fn wanted(remaining: nat, buffer: Seq<u8>) -> nat {
    if remaining < buffer.len() {
        remaining
    } else {
        buffer.len()
    }
}

/// What follows when a whole line is due: it is passed on, and `then` comes next.
pub open spec fn line_step(phase: BodyPhase, buffer: Seq<u8>, then: BodyPhase) -> Result<
    (BodyPhase, Seq<u8>, BodyStep),
    ErrorView,
> {
    match cut(buffer, line_mark()) {
        Some((line, rest)) => Ok((then, rest, BodyStep::Write(line))),
        None => if buffer.len() > maxHttpHeaderSize {
            Err(invalid("HTTP line is too large"@))
        } else {
            Ok((phase, buffer, BodyStep::Read))
        },
    }
}

/// The line at the front of a buffer.
pub open spec fn front_line(buffer: Seq<u8>) -> Seq<u8> {
    match cut(buffer, line_mark()) {
        Some((line, rest)) => line,
        None => Seq::empty(),
    }
}

/// The next phase, the buffer that is left and the action, from a phase and a buffer.
pub open spec fn body_step(phase: BodyPhase, buffer: Seq<u8>) -> Result<
    (BodyPhase, Seq<u8>, BodyStep),
    ErrorView,
> {
    match body_settle(phase) {
        Err(e) => Err(e),
        Ok(BodyPhase::Counted { remaining }) => {
            let n = wanted(remaining, buffer);
            if n == 0 {
                Ok((BodyPhase::Counted { remaining }, buffer, BodyStep::Read))
            } else {
                Ok(
                    (
                        counted((remaining - n) as nat),
                        buffer.skip(n as int),
                        BodyStep::Write(buffer.take(n as int)),
                    ),
                )
            }
        },
        Ok(BodyPhase::Chunk { remaining }) => {
            let n = wanted(remaining, buffer);
            if n == 0 {
                Ok((BodyPhase::Chunk { remaining }, buffer, BodyStep::Read))
            } else {
                Ok(
                    (
                        chunk((remaining - n) as nat),
                        buffer.skip(n as int),
                        BodyStep::Write(buffer.take(n as int)),
                    ),
                )
            }
        },
        Ok(BodyPhase::SizeLine) => line_step(
            BodyPhase::SizeLine,
            buffer,
            BodyPhase::Size { line: front_line(buffer) },
        ),
        Ok(BodyPhase::Trailer) => line_step(
            BodyPhase::Trailer,
            buffer,
            if front_line(buffer) == line_mark() {
                BodyPhase::Done
            } else {
                BodyPhase::Trailer
            },
        ),
        Ok(BodyPhase::UntilClose) => if buffer.len() == 0 {
            Ok((BodyPhase::UntilClose, buffer, BodyStep::Read))
        } else {
            Ok((BodyPhase::UntilClose, Seq::empty(), BodyStep::Write(buffer)))
        },
        Ok(p) => Ok((p, buffer, BodyStep::Done)),
    }
}

/// What becomes of bytes that were read; none at all means that the sender closed.
pub open spec fn body_receive(phase: BodyPhase, buffer: Seq<u8>, data: Seq<u8>) -> Result<
    (BodyPhase, Seq<u8>),
    ErrorView,
> {
    if data.len() > 0 {
        Ok((phase, buffer + data))
    } else {
        match phase {
            BodyPhase::Counted { .. } | BodyPhase::Chunk { .. } => Err(
                cut_short("connection closed during body forwarding"@),
            ),
            BodyPhase::SizeLine | BodyPhase::Size { .. } | BodyPhase::Trailer => Err(
                cut_short("connection closed during line read"@),
            ),
            BodyPhase::UntilClose | BodyPhase::Done => Ok((BodyPhase::Done, buffer)),
        }
    }
}

/// How a sender is reported that was silent for too long.
pub open spec fn body_timeout(phase: BodyPhase, reason: Seq<char>) -> ErrorView {
    match phase {
        BodyPhase::Counted { .. } | BodyPhase::Chunk { .. } => too_slow(
            "body forwarding timeout: "@ + reason,
        ),
        BodyPhase::SizeLine | BodyPhase::Size { .. } | BodyPhase::Trailer => too_slow(
            "line read timeout: "@ + reason,
        ),
        BodyPhase::UntilClose | BodyPhase::Done => too_slow(
            "stream forwarding timeout: "@ + reason,
        ),
    }
}

fn takeWanted(remaining: u128, buffer: &mut Vec<u8>) -> (bytes: Vec<u8>)
    ensures
        bytes@.len() == wanted(remaining as nat, old(buffer)@),
        bytes@ == old(buffer)@.take(bytes@.len() as int),
        final(buffer)@ == old(buffer)@.skip(bytes@.len() as int),
{
    let n: usize = if remaining < buffer.len() as u128 {
        remaining as usize
    } else {
        buffer.len()
    };
    takeFront(buffer, n)
}

fn isLineMark(line: &[u8]) -> (r: bool)
    ensures
        r == (line@ == line_mark()),
{
    if line.len() == 2 && line[0] == 13 && line[1] == 10 {
        assert(line@ =~= line_mark());
        true
    } else {
        assert(line_mark()[0] == 13 && line_mark()[1] == 10);
        false
    }
}

impl BodyForwarder {
    /// Begins to pass on a body.
    pub fn start(mode: BodyMode) -> (forwarder: BodyForwarder)
        ensures
            forwarder@ == body_start(mode),
    {
        match mode {
            BodyMode::Empty => BodyForwarder::Done,
            BodyMode::ContentLength(n) => if n == 0 {
                BodyForwarder::Done
            } else {
                BodyForwarder::Counted { remaining: n as u128 }
            },
            BodyMode::Chunked => BodyForwarder::SizeLine,
            BodyMode::UntilClose => BodyForwarder::UntilClose,
        }
    }

    fn settle(&mut self) -> (r: Result<(), ProxyError>)
        ensures
            match r {
                Ok(_) => body_settle(old(self)@) == Ok::<BodyPhase, ErrorView>(final(self)@),
                Err(e) => body_settle(old(self)@) == Err::<BodyPhase, ErrorView>(e@) && final(self)@
                    == old(self)@,
            },
    {
        let size: u64 = match self {
            BodyForwarder::Size { line } => match parseChunkSize(line) {
                Ok(size) => size,
                Err(e) => {
                    return Err(e);
                },
            },
            _ => {
                return Ok(());
            },
        };
        if size == 0 {
            *self = BodyForwarder::Trailer;
        } else {
            *self = BodyForwarder::Chunk { remaining: size as u128 + 2 };
        }
        Ok(())
    }

    /// Decides what to do next with the bytes in the sender's buffer. A failure leaves the
    /// buffer as it is.
    pub fn step(&mut self, buffer: &mut Vec<u8>) -> (r: Result<BodyAction, ProxyError>)
        ensures
            match r {
                Ok(action) => body_step(old(self)@, old(buffer)@) == Ok::<
                    (BodyPhase, Seq<u8>, BodyStep),
                    ErrorView,
                >((final(self)@, final(buffer)@, action@)),
                Err(e) => body_step(old(self)@, old(buffer)@) == Err::<
                    (BodyPhase, Seq<u8>, BodyStep),
                    ErrorView,
                >(e@) && final(buffer)@ == old(buffer)@ && final(self)@ == match body_settle(
                    old(self)@,
                ) {
                    Ok(settled) => settled,
                    Err(_) => old(self)@,
                },
            },
    {
        match self.settle() {
            Ok(_) => {},
            Err(e) => {
                return Err(e);
            },
        }
        let ghost all = buffer@;
        match self {
            BodyForwarder::Counted { remaining } => {
                let bytes = takeWanted(*remaining, buffer);
                if bytes.len() == 0 {
                    assert(buffer@ =~= all);
                    return Ok(BodyAction::Read);
                }
                let left: u128 = *remaining - bytes.len() as u128;
                if left == 0 {
                    *self = BodyForwarder::Done;
                } else {
                    *self = BodyForwarder::Counted { remaining: left };
                }
                Ok(BodyAction::Write(bytes))
            },
            BodyForwarder::Chunk { remaining } => {
                let bytes = takeWanted(*remaining, buffer);
                if bytes.len() == 0 {
                    assert(buffer@ =~= all);
                    return Ok(BodyAction::Read);
                }
                let left: u128 = *remaining - bytes.len() as u128;
                if left == 0 {
                    *self = BodyForwarder::SizeLine;
                } else {
                    *self = BodyForwarder::Chunk { remaining: left };
                }
                Ok(BodyAction::Write(bytes))
            },
            BodyForwarder::SizeLine => match takeCrLfLine(buffer) {
                Ok(Some(line)) => {
                    let copy = vstd::slice::slice_to_vec(&line);
                    *self = BodyForwarder::Size { line: copy };
                    Ok(BodyAction::Write(line))
                },
                Ok(None) => Ok(BodyAction::Read),
                Err(e) => Err(e),
            },
            BodyForwarder::Trailer => match takeCrLfLine(buffer) {
                Ok(Some(line)) => {
                    if isLineMark(&line) {
                        *self = BodyForwarder::Done;
                    }
                    Ok(BodyAction::Write(line))
                },
                Ok(None) => Ok(BodyAction::Read),
                Err(e) => Err(e),
            },
            BodyForwarder::UntilClose => {
                if buffer.len() == 0 {
                    return Ok(BodyAction::Read);
                }
                let mut bytes: Vec<u8> = Vec::new();
                std::mem::swap(&mut bytes, buffer);
                Ok(BodyAction::Write(bytes))
            },
            _ => Ok(BodyAction::Done),
        }
    }

    /// Takes in what was read from the sender; no bytes mean that it closed the connection. A
    /// failure leaves the buffer as it is.
    pub fn receive(&mut self, buffer: &mut Vec<u8>, data: &[u8]) -> (r: Result<(), ProxyError>)
        ensures
            match r {
                Ok(_) => body_receive(old(self)@, old(buffer)@, data@) == Ok::<
                    (BodyPhase, Seq<u8>),
                    ErrorView,
                >((final(self)@, final(buffer)@)),
                Err(e) => body_receive(old(self)@, old(buffer)@, data@) == Err::<
                    (BodyPhase, Seq<u8>),
                    ErrorView,
                >(e@) && final(buffer)@ == old(buffer)@ && final(self)@ == old(self)@,
            },
    {
        if data.len() > 0 {
            appendBytes(buffer, data);
            return Ok(());
        }
        match self {
            BodyForwarder::Counted { .. } | BodyForwarder::Chunk { .. } => Err(
                error(ErrorKind::UnexpectedEof, "connection closed during body forwarding"),
            ),
            BodyForwarder::SizeLine | BodyForwarder::Size { .. } | BodyForwarder::Trailer => Err(
                error(ErrorKind::UnexpectedEof, "connection closed during line read"),
            ),
            BodyForwarder::UntilClose | BodyForwarder::Done => {
                *self = BodyForwarder::Done;
                Ok(())
            },
        }
    }

    /// Reports a sender that was silent for too long.
    pub fn timedOut(&self, reason: &str) -> (e: ProxyError)
        ensures
            e@ == body_timeout(self@, reason@),
    {
        match self {
            BodyForwarder::Counted { .. } | BodyForwarder::Chunk { .. } => detailed(
                ErrorKind::TimedOut,
                "body forwarding timeout: ",
                reason,
            ),
            BodyForwarder::SizeLine | BodyForwarder::Size { .. } | BodyForwarder::Trailer =>
            detailed(ErrorKind::TimedOut, "line read timeout: ", reason),
            BodyForwarder::UntilClose | BodyForwarder::Done => detailed(
                ErrorKind::TimedOut,
                "stream forwarding timeout: ",
                reason,
            ),
        }
    }
}

// ---------------------------------------------------------------------------------------------
// Laws
// ---------------------------------------------------------------------------------------------

/// The phases that occur: while bytes are counted, some are missing.
pub open spec fn body_wf(phase: BodyPhase) -> bool {
    match phase {
        BodyPhase::Counted { remaining } => remaining > 0,
        BodyPhase::Chunk { remaining } => remaining > 0,
        _ => true,
    }
}

/// Passing on a body begins and stays in phases that occur.
pub proof fn law_phases_stay_well_formed(
    mode: BodyMode,
    phase: BodyPhase,
    buffer: Seq<u8>,
    data: Seq<u8>,
)
    requires
        body_wf(phase),
    ensures
        body_wf(body_start(mode)),
        body_step(phase, buffer) matches Ok((next, rest, step)) ==> body_wf(next),
        body_receive(phase, buffer, data) matches Ok((next, rest)) ==> body_wf(next),
{
}

/// Every byte that is written comes off the front of the buffer, and what is not written stays.
pub proof fn law_step_keeps_every_byte(phase: BodyPhase, buffer: Seq<u8>)
    requires
        body_wf(phase),
    ensures
        match body_step(phase, buffer) {
            Ok((next, rest, BodyStep::Write(bytes))) => bytes + rest == buffer && bytes.len() > 0,
            Ok((next, rest, _)) => rest == buffer,
            Err(_) => true,
        },
{
    match body_settle(phase) {
        Ok(BodyPhase::Counted { remaining }) | Ok(BodyPhase::Chunk { remaining }) => {
            let n = wanted(remaining, buffer) as int;
            assert(buffer.take(n) + buffer.skip(n) =~= buffer);
        },
        Ok(BodyPhase::SizeLine) | Ok(BodyPhase::Trailer) => {
            if cut(buffer, line_mark()) is Some {
                law_cut_keeps_every_byte(buffer, line_mark());
            }
        },
        Ok(BodyPhase::UntilClose) => {
            assert(buffer + Seq::<u8>::empty() =~= buffer);
        },
        _ => {},
    }
}

/// One number after another, where there is another.
pub open spec fn plus(n: nat, more: Option<nat>) -> Option<nat> {
    match more {
        Some(m) => Some(n + m),
        None => None,
    }
}

/// Whether a phase stands directly before a chunk line, and which one comes first where the
/// stream does not move.
pub open spec fn phase_rank(phase: BodyPhase) -> nat {
    match phase {
        BodyPhase::Size { .. } => 2,
        BodyPhase::Chunk { .. } => 1,
        _ => 0,
    }
}

/// How many bytes at the front of a stream belong to the body: a counted body is so long, and a
/// chunked one runs through every chunk with its line and line end, the empty last chunk and the
/// lines behind it up to an empty one. `None` if the stream does not hold the whole body.
pub open spec fn body_length(phase: BodyPhase, stream: Seq<u8>) -> Option<nat>
    decreases stream.len(), phase_rank(phase),
    via body_length_shrinks
{
    match phase {
        BodyPhase::Done => Some(0),
        BodyPhase::UntilClose => Some(stream.len()),
        BodyPhase::Counted { remaining } => if remaining <= stream.len() {
            Some(remaining)
        } else {
            None
        },
        BodyPhase::Size { line } => match chunk_size(line) {
            Err(_) => None,
            Ok(size) => if size == 0 {
                body_length(BodyPhase::Trailer, stream)
            } else {
                body_length(BodyPhase::Chunk { remaining: size as nat + 2 }, stream)
            },
        },
        BodyPhase::Chunk { remaining } => if remaining <= stream.len() {
            plus(remaining, body_length(BodyPhase::SizeLine, stream.skip(remaining as int)))
        } else {
            None
        },
        BodyPhase::SizeLine => match cut(stream, line_mark()) {
            None => None,
            Some((line, rest)) => plus(line.len(), body_length(BodyPhase::Size { line }, rest)),
        },
        BodyPhase::Trailer => match cut(stream, line_mark()) {
            None => None,
            Some((line, rest)) => if line == line_mark() {
                Some(line.len())
            } else {
                plus(line.len(), body_length(BodyPhase::Trailer, rest))
            },
        },
    }
}

#[via_fn]
proof fn body_length_shrinks(phase: BodyPhase, stream: Seq<u8>) {
    lemma_mark_end(stream, line_mark());
}

/// A step moves the body's end exactly as far as it writes.
pub proof fn lemma_step_moves_body_end(phase: BodyPhase, buffer: Seq<u8>, future: Seq<u8>)
    requires
        body_wf(phase),
        !(phase is UntilClose),
    ensures
        match body_step(phase, buffer) {
            Ok((next, rest, BodyStep::Write(bytes))) => body_length(phase, buffer + future) == plus(
                bytes.len(),
                body_length(next, rest + future),
            ) && !(next is UntilClose),
            Ok((next, rest, BodyStep::Read)) => body_length(phase, buffer + future) == body_length(
                next,
                buffer + future,
            ) && !(next is UntilClose),
            Ok((next, rest, BodyStep::Done)) => body_length(phase, buffer + future) == Some(0nat),
            Err(_) => true,
        },
{
    let stream = buffer + future;
    match body_settle(phase) {
        Err(_) => {},
        Ok(settled) => {
            assert(body_length(phase, stream) == body_length(settled, stream));
            match settled {
                BodyPhase::Counted { remaining } => {
                    let n = wanted(remaining, buffer) as int;
                    assert(buffer.skip(n) + future =~= stream.skip(n));
                },
                BodyPhase::Chunk { remaining } => {
                    let n = wanted(remaining, buffer) as int;
                    assert(buffer.skip(n) + future =~= stream.skip(n));
                    if remaining <= stream.len() {
                        assert(stream.skip(n).skip(remaining - n) =~= stream.skip(
                            remaining as int,
                        ));
                    }
                },
                BodyPhase::SizeLine => {
                    if cut(buffer, line_mark()) is Some {
                        law_cut_ignores_what_follows(buffer, future, line_mark());
                    }
                },
                BodyPhase::Trailer => {
                    if cut(buffer, line_mark()) is Some {
                        law_cut_ignores_what_follows(buffer, future, line_mark());
                    }
                },
                _ => {},
            }
        },
    }
}

/// The bytes that some reads deliver, one after the other.
pub open spec fn joined(reads: Seq<Seq<u8>>) -> Seq<u8>
    decreases reads.len(),
{
    if reads.len() == 0 {
        Seq::empty()
    } else {
        reads[0] + joined(reads.drop_first())
    }
}

/// What was passed on, what is left in the buffer and which reads were not made, once a body was
/// passed on to its end.
pub struct Forwarded {
    pub written: Seq<u8>,
    pub left: Seq<u8>,
    pub unread: Seq<Seq<u8>>,
}

/// Passing on a body from a buffer and the reads that follow, in at most so many steps. `None`
/// if the body does not end within them.
pub open spec fn forward_body(
    phase: BodyPhase,
    buffer: Seq<u8>,
    reads: Seq<Seq<u8>>,
    steps: nat,
) -> Option<Forwarded>
    decreases steps,
{
    if steps == 0 {
        None
    } else {
        match body_step(phase, buffer) {
            Err(_) => None,
            Ok((next, rest, BodyStep::Done)) => Some(
                Forwarded { written: Seq::empty(), left: rest, unread: reads },
            ),
            Ok((next, rest, BodyStep::Write(bytes))) => match forward_body(
                next,
                rest,
                reads,
                (steps - 1) as nat,
            ) {
                None => None,
                Some(f) => Some(Forwarded { written: bytes + f.written, ..f }),
            },
            Ok((next, rest, BodyStep::Read)) => if reads.len() == 0 {
                None
            } else {
                match body_receive(next, rest, reads[0]) {
                    Err(_) => None,
                    Ok((after, grown)) => forward_body(
                        after,
                        grown,
                        reads.drop_first(),
                        (steps - 1) as nat,
                    ),
                }
            },
        }
    }
}

/// A body that was passed on to its end went through unchanged: every byte that was received is
/// either written, in order, or still there.
pub proof fn law_forwarding_keeps_every_byte(
    phase: BodyPhase,
    buffer: Seq<u8>,
    reads: Seq<Seq<u8>>,
    steps: nat,
)
    requires
        body_wf(phase),
        forward_body(phase, buffer, reads, steps) is Some,
    ensures
        ({
            let f = forward_body(phase, buffer, reads, steps)->0;
            f.written + f.left + joined(f.unread) == buffer + joined(reads)
        }),
    decreases steps,
{
    let f = forward_body(phase, buffer, reads, steps)->0;
    law_step_keeps_every_byte(phase, buffer);
    match body_step(phase, buffer) {
        Err(_) => {},
        Ok((next, rest, BodyStep::Done)) => {
            assert(f.written + f.left =~= buffer);
        },
        Ok((next, rest, BodyStep::Write(bytes))) => {
            law_forwarding_keeps_every_byte(next, rest, reads, (steps - 1) as nat);
            let g = forward_body(next, rest, reads, (steps - 1) as nat)->0;
            assert(f.written + f.left + joined(f.unread) =~= bytes + (g.written + g.left + joined(
                g.unread,
            )));
            assert(bytes + (rest + joined(reads)) =~= buffer + joined(reads));
        },
        Ok((next, rest, BodyStep::Read)) => {
            match body_receive(next, rest, reads[0]) {
                Err(_) => {},
                Ok((after, grown)) => {
                    law_forwarding_keeps_every_byte(
                        after,
                        grown,
                        reads.drop_first(),
                        (steps - 1) as nat,
                    );
                    assert(grown =~= buffer + reads[0]);
                    assert(grown + joined(reads.drop_first()) =~= buffer + joined(reads));
                },
            }
        },
    }
}

/// A body with a boundary of its own is passed on exactly up to that boundary, however the stream
/// is cut into reads: what is written is the body, and nothing behind it.
pub proof fn law_forwarding_stops_at_the_end_of_the_body(
    phase: BodyPhase,
    buffer: Seq<u8>,
    reads: Seq<Seq<u8>>,
    steps: nat,
)
    requires
        body_wf(phase),
        !(phase is UntilClose),
        forward_body(phase, buffer, reads, steps) is Some,
    ensures
        ({
            let f = forward_body(phase, buffer, reads, steps)->0;
            let stream = buffer + joined(reads);
            &&& body_length(phase, stream) == Some(f.written.len())
            &&& f.written == stream.take(f.written.len() as int)
        }),
    decreases steps,
{
    let f = forward_body(phase, buffer, reads, steps)->0;
    let stream = buffer + joined(reads);
    law_forwarding_keeps_every_byte(phase, buffer, reads, steps);
    assert(f.written =~= stream.take(f.written.len() as int));
    law_step_keeps_every_byte(phase, buffer);
    lemma_step_moves_body_end(phase, buffer, joined(reads));
    match body_step(phase, buffer) {
        Err(_) => {},
        Ok((next, rest, BodyStep::Done)) => {},
        Ok((next, rest, BodyStep::Write(bytes))) => {
            law_forwarding_stops_at_the_end_of_the_body(next, rest, reads, (steps - 1) as nat);
        },
        Ok((next, rest, BodyStep::Read)) => {
            match body_receive(next, rest, reads[0]) {
                Err(_) => {},
                Ok((after, grown)) => {
                    assert(grown + joined(reads.drop_first()) =~= stream);
                    if after is Done {
                        assert(next is Done);
                    }
                    law_forwarding_stops_at_the_end_of_the_body(
                        after,
                        grown,
                        reads.drop_first(),
                        (steps - 1) as nat,
                    );
                },
            }
        },
    }
}

/// A body without a boundary is passed on whole: nothing that was received is held back.
pub proof fn law_forwarding_until_close_holds_nothing_back(
    buffer: Seq<u8>,
    reads: Seq<Seq<u8>>,
    steps: nat,
)
    requires
        forward_body(BodyPhase::UntilClose, buffer, reads, steps) is Some,
    ensures
        ({
            let f = forward_body(BodyPhase::UntilClose, buffer, reads, steps)->0;
            let received = (reads.len() - f.unread.len()) as int;
            &&& f.left.len() == 0
            &&& f.written + joined(f.unread) == buffer + joined(reads)
            &&& received > 0 && f.unread == reads.skip(received) && reads[received - 1].len() == 0
        }),
    decreases steps,
{
    let phase = BodyPhase::UntilClose;
    let f = forward_body(phase, buffer, reads, steps)->0;
    law_forwarding_keeps_every_byte(phase, buffer, reads, steps);
    if buffer.len() > 0 {
        law_forwarding_until_close_holds_nothing_back(Seq::empty(), reads, (steps - 1) as nat);
    } else {
        let rest = reads.drop_first();
        if reads[0].len() > 0 {
            law_forwarding_until_close_holds_nothing_back(
                buffer + reads[0],
                rest,
                (steps - 1) as nat,
            );
            let received = (reads.len() - f.unread.len()) as int;
            assert(rest.skip(received - 1) =~= reads.skip(received));
            assert(rest[received - 2] == reads[received - 1]);
        } else {
            reveal_with_fuel(forward_body, 2);
            assert(f.unread == rest);
            assert(reads.skip(1) =~= rest);
        }
    }
    assert(f.written + f.left =~= f.written);
}

/// Whether no line of a body is longer than the buffer is allowed to grow.
pub open spec fn lines_fit(phase: BodyPhase, stream: Seq<u8>) -> bool
    decreases stream.len(), phase_rank(phase),
    via lines_fit_shrinks
{
    match phase {
        BodyPhase::Done | BodyPhase::UntilClose | BodyPhase::Counted { .. } => true,
        BodyPhase::Size { line } => match chunk_size(line) {
            Err(_) => true,
            Ok(size) => if size == 0 {
                lines_fit(BodyPhase::Trailer, stream)
            } else {
                lines_fit(BodyPhase::Chunk { remaining: size as nat + 2 }, stream)
            },
        },
        BodyPhase::Chunk { remaining } => remaining <= stream.len() ==> lines_fit(
            BodyPhase::SizeLine,
            stream.skip(remaining as int),
        ),
        BodyPhase::SizeLine => match cut(stream, line_mark()) {
            None => true,
            Some((line, rest)) => line.len() <= maxHttpHeaderSize + 1 && lines_fit(
                BodyPhase::Size { line },
                rest,
            ),
        },
        BodyPhase::Trailer => match cut(stream, line_mark()) {
            None => true,
            Some((line, rest)) => line == line_mark() || (line.len() <= maxHttpHeaderSize + 1
                && lines_fit(BodyPhase::Trailer, rest)),
        },
    }
}

#[via_fn]
proof fn lines_fit_shrinks(phase: BodyPhase, stream: Seq<u8>) {
    lemma_mark_end(stream, line_mark());
}

/// Lines that fit go on to fit.
proof fn lemma_lines_go_on_to_fit(phase: BodyPhase, buffer: Seq<u8>, future: Seq<u8>)
    requires
        body_wf(phase),
        !(phase is UntilClose),
        lines_fit(phase, buffer + future),
        body_length(phase, buffer + future) is Some,
    ensures
        match body_step(phase, buffer) {
            Ok((next, rest, BodyStep::Write(bytes))) => lines_fit(next, rest + future),
            Ok((next, rest, BodyStep::Read)) => lines_fit(next, buffer + future),
            Ok((next, rest, BodyStep::Done)) => true,
            Err(_) => false,
        },
{
    let stream = buffer + future;
    match body_settle(phase) {
        Err(_) => {},
        Ok(settled) => {
            assert(lines_fit(phase, stream) == lines_fit(settled, stream));
            assert(body_length(phase, stream) == body_length(settled, stream));
            match settled {
                BodyPhase::Counted { remaining } => {},
                BodyPhase::Chunk { remaining } => {
                    let n = wanted(remaining, buffer) as int;
                    assert(buffer.skip(n) + future =~= stream.skip(n));
                    assert(stream.skip(n).skip(remaining - n) =~= stream.skip(remaining as int));
                },
                BodyPhase::SizeLine => {
                    if cut(buffer, line_mark()) is Some {
                        law_cut_ignores_what_follows(buffer, future, line_mark());
                    } else {
                        law_a_piece_that_is_not_there_is_longer(buffer, future, line_mark());
                    }
                },
                BodyPhase::Trailer => {
                    if cut(buffer, line_mark()) is Some {
                        law_cut_ignores_what_follows(buffer, future, line_mark());
                    } else {
                        law_a_piece_that_is_not_there_is_longer(buffer, future, line_mark());
                    }
                },
                _ => {},
            }
        },
    }
}

/// A body with a boundary of its own whose bytes all arrive gets through, as long as its lines
/// fit into the buffer.
pub proof fn law_a_whole_body_gets_through(
    phase: BodyPhase,
    buffer: Seq<u8>,
    reads: Seq<Seq<u8>>,
    steps: nat,
)
    requires
        body_wf(phase),
        !(phase is UntilClose),
        forall|i: int| 0 <= i < reads.len() ==> (#[trigger] reads[i]).len() > 0,
        body_length(phase, buffer + joined(reads)) is Some,
        lines_fit(phase, buffer + joined(reads)),
        steps > buffer.len() + joined(reads).len() + reads.len(),
    ensures
        forward_body(phase, buffer, reads, steps) is Some,
    decreases steps,
{
    let stream = buffer + joined(reads);
    let fewer = (steps - 1) as nat;
    law_step_keeps_every_byte(phase, buffer);
    law_phases_stay_well_formed(BodyMode::Empty, phase, buffer, Seq::empty());
    lemma_step_moves_body_end(phase, buffer, joined(reads));
    lemma_lines_go_on_to_fit(phase, buffer, joined(reads));
    match body_step(phase, buffer) {
        Err(_) => {},
        Ok((next, rest, BodyStep::Done)) => {},
        Ok((next, rest, BodyStep::Write(bytes))) => {
            assert((rest + joined(reads)).len() < stream.len());
            law_a_whole_body_gets_through(next, rest, reads, fewer);
        },
        Ok((next, rest, BodyStep::Read)) => {
            if reads.len() == 0 {
                assert(stream =~= buffer);
            } else {
                let later = reads.drop_first();
                assert(reads[0].len() > 0);
                assert(buffer + reads[0] + joined(later) =~= stream);
                law_a_whole_body_gets_through(next, buffer + reads[0], later, fewer);
            }
        },
    }
}

/// A body without a boundary gets through once its sender closes.
pub proof fn law_a_body_until_close_gets_through(
    buffer: Seq<u8>,
    reads: Seq<Seq<u8>>,
    steps: nat,
)
    requires
        exists|i: int| 0 <= i < reads.len() && (#[trigger] reads[i]).len() == 0,
        steps > buffer.len() + joined(reads).len() + reads.len(),
    ensures
        forward_body(BodyPhase::UntilClose, buffer, reads, steps) is Some,
    decreases steps,
{
    let fewer = (steps - 1) as nat;
    if buffer.len() > 0 {
        law_a_body_until_close_gets_through(Seq::empty(), reads, fewer);
    } else if reads[0].len() > 0 {
        let later = reads.drop_first();
        let i = choose|i: int| 0 <= i < reads.len() && (#[trigger] reads[i]).len() == 0;
        assert(later[i - 1].len() == 0);
        law_a_body_until_close_gets_through(buffer + reads[0], later, fewer);
    } else {
        reveal_with_fuel(forward_body, 2);
    }
}

} // verus!
