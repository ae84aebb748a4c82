//! Cutting lines and message heads off a buffer that a connection fills piece by piece.

use vstd::prelude::*;

use crate::error::{invalid, invalidData, ProxyError};

verus! {

/// A head or line that grows beyond this many bytes is refused.
pub const maxHttpHeaderSize: usize = 65536;

/// CR LF, the end of a line.
pub open spec fn line_mark() -> Seq<u8> {
    seq![13u8, 10]
}

/// CR LF CR LF, the end of a message head.
pub open spec fn head_mark() -> Seq<u8> {
    seq![13u8, 10, 13, 10]
}

/// The position right behind the first mark in a buffer.
pub open spec fn mark_end(buffer: Seq<u8>, mark: Seq<u8>) -> Option<nat>
    decreases buffer.len(),
{
    if buffer.len() == 0 || buffer.len() < mark.len() {
        None
    } else if buffer.take(mark.len() as int) == mark {
        Some(mark.len())
    } else {
        match mark_end(buffer.drop_first(), mark) {
            Some(n) => Some(n + 1),
            None => None,
        }
    }
}

/// Whether a mark ends at position `n`.
pub open spec fn mark_ends_at(buffer: Seq<u8>, mark: Seq<u8>, n: int) -> bool {
    &&& mark.len() <= n <= buffer.len()
    &&& buffer.subrange(n - mark.len(), n) == mark
}

/// What [`mark_end`] finds: the first position where a mark ends.
pub proof fn lemma_mark_end(buffer: Seq<u8>, mark: Seq<u8>)
    requires
        mark.len() > 0,
    ensures
        match mark_end(buffer, mark) {
            Some(n) => mark_ends_at(buffer, mark, n as int) && forall|i: int|
                i < n ==> !mark_ends_at(buffer, mark, i),
            None => forall|i: int| !mark_ends_at(buffer, mark, i),
        },
    decreases buffer.len(),
{
    let m = mark.len() as int;
    if buffer.len() >= m {
        assert(buffer.subrange(0, m) =~= buffer.take(m));
        if buffer.take(m) != mark {
            let rest = buffer.drop_first();
            lemma_mark_end(rest, mark);
            assert forall|i: int| m < i <= buffer.len() implies mark_ends_at(buffer, mark, i)
                == mark_ends_at(rest, mark, i - 1) by {
                assert(buffer.subrange(i - m, i) =~= rest.subrange(i - 1 - m, i - 1));
            }
            assert forall|i: int| mark_ends_at(buffer, mark, i) implies mark_ends_at(
                rest,
                mark,
                i - 1,
            ) by {
                if i == m {
                    assert(buffer.subrange(0, m) == mark);
                }
            }
        }
    }
}

/// The first position where a mark ends is what [`mark_end`] finds.
pub proof fn lemma_mark_end_is(buffer: Seq<u8>, mark: Seq<u8>, n: int)
    requires
        mark.len() > 0,
        mark_ends_at(buffer, mark, n),
        forall|i: int| i < n ==> !mark_ends_at(buffer, mark, i),
    ensures
        mark_end(buffer, mark) == Some(n as nat),
{
    lemma_mark_end(buffer, mark);
    match mark_end(buffer, mark) {
        Some(k) => {
            if k < n {
                assert(!mark_ends_at(buffer, mark, k as int));
            }
        },
        None => {},
    }
}

/// A mark that was found stays where it is, whatever arrives behind it.
pub proof fn law_mark_end_is_stable(buffer: Seq<u8>, more: Seq<u8>, mark: Seq<u8>)
    requires
        mark.len() > 0,
        mark_end(buffer, mark) is Some,
    ensures
        mark_end(buffer + more, mark) == mark_end(buffer, mark),
{
    let n = mark_end(buffer, mark)->0 as int;
    let m = mark.len() as int;
    lemma_mark_end(buffer, mark);
    assert forall|i: int| i <= n implies #[trigger] mark_ends_at(buffer + more, mark, i)
        == mark_ends_at(buffer, mark, i) by {
        if m <= i {
            assert((buffer + more).subrange(i - m, i) =~= buffer.subrange(i - m, i));
        }
    }
    lemma_mark_end_is(buffer + more, mark, n);
}

fn endsAt(buffer: &[u8], start: usize, mark: &[u8]) -> (r: bool)
    requires
        start + mark.len() <= buffer.len(),
    ensures
        r == (buffer@.subrange(start as int, start + mark.len()) == mark@),
{
    let ghost here = buffer@.subrange(start as int, start + mark.len());
    for i in 0..mark.len()
        invariant
            start + mark.len() <= buffer.len(),
            here == buffer@.subrange(start as int, start + mark.len()),
            forall|j: int| 0 <= j < i ==> here[j] == mark@[j],
    {
        assert(here[i as int] == buffer@[start + i]);
        if buffer[start + i] != mark[i] {
            return false;
        }
    }
    assert(here =~= mark@);
    true
}

fn findMarkEnd(buffer: &[u8], mark: &[u8]) -> (r: Option<usize>)
    requires
        mark.len() > 0,
    ensures
        match r {
            Some(n) => mark_end(buffer@, mark@) == Some(n as nat) && mark.len() <= n
                <= buffer.len(),
            None => mark_end(buffer@, mark@) is None,
        },
{
    let mut start: usize = 0;
    while start < buffer.len() && mark.len() <= buffer.len() - start
        invariant
            mark.len() > 0,
            start <= buffer.len(),
            forall|i: int| i < start + mark.len() ==> !mark_ends_at(buffer@, mark@, i),
        decreases buffer.len() - start,
    {
        if endsAt(buffer, start, mark) {
            let end = start + mark.len();
            proof {
                lemma_mark_end_is(buffer@, mark@, end as int);
            }
            return Some(end);
        }
        start = start + 1;
    }
    proof {
        lemma_mark_end(buffer@, mark@);
        match mark_end(buffer@, mark@) {
            Some(n) => {
                assert(!mark_ends_at(buffer@, mark@, n as int));
            },
            None => {},
        }
    }
    None
}

/// Finds the position right behind the blank line that ends a message head.
pub fn findHttpHeaderEnd(buffer: &[u8]) -> (r: Option<usize>)
    ensures
        match r {
            Some(n) => mark_end(buffer@, head_mark()) == Some(n as nat) && n <= buffer.len(),
            None => mark_end(buffer@, head_mark()) is None,
        },
{
    let mark: [u8; 4] = [13, 10, 13, 10];
    assert(mark@ =~= head_mark());
    findMarkEnd(buffer, &mark)
}

/// Finds the position right behind the first line end.
pub fn findCrLf(buffer: &[u8]) -> (r: Option<usize>)
    ensures
        match r {
            Some(n) => mark_end(buffer@, line_mark()) == Some(n as nat) && n <= buffer.len(),
            None => mark_end(buffer@, line_mark()) is None,
        },
{
    let mark: [u8; 2] = [13, 10];
    assert(mark@ =~= line_mark());
    findMarkEnd(buffer, &mark)
}

/// Takes the first `n` bytes out of a buffer.
pub fn takeFront(buffer: &mut Vec<u8>, n: usize) -> (front: Vec<u8>)
    requires
        n <= old(buffer).len(),
    ensures
        front@ == old(buffer)@.take(n as int),
        final(buffer)@ == old(buffer)@.skip(n as int),
{
    let ghost all = buffer@;
    let mut rest = buffer.split_off(n);
    std::mem::swap(&mut rest, buffer);
    assert(rest@ =~= all.take(n as int));
    assert(buffer@ =~= all.skip(n as int));
    rest
}

/// Appends bytes to a buffer.
pub fn appendBytes(buffer: &mut Vec<u8>, data: &[u8])
    ensures
        final(buffer)@ == old(buffer)@ + data@,
{
    let ghost start = buffer@;
    buffer.extend_from_slice(data);
    assert(buffer@ =~= start + data@);
}

// ---------------------------------------------------------------------------------------------
// Heads and lines
// ---------------------------------------------------------------------------------------------

/// What is cut off a buffer: the bytes up to the first mark, and the rest.
pub open spec fn cut(buffer: Seq<u8>, mark: Seq<u8>) -> Option<(Seq<u8>, Seq<u8>)> {
    match mark_end(buffer, mark) {
        Some(n) => Some((buffer.take(n as int), buffer.skip(n as int))),
        None => None,
    }
}

/// Takes a whole message head out of a buffer. `Ok(None)` asks for more bytes; the buffer is
/// then unchanged.
pub fn takeHttpHeader(buffer: &mut Vec<u8>) -> (r: Result<Option<Vec<u8>>, ProxyError>)
    ensures
        match cut(old(buffer)@, head_mark()) {
            Some((head, rest)) => r matches Ok(Some(h)) && h@ == head && final(buffer)@ == rest,
            None => final(buffer)@ == old(buffer)@ && if old(buffer).len() > maxHttpHeaderSize {
                r matches Err(e) && e@ == invalid("HTTP header is too large"@)
            } else {
                r matches Ok(None)
            },
        },
{
    match findHttpHeaderEnd(buffer) {
        Some(n) => Ok(Some(takeFront(buffer, n))),
        None => if buffer.len() > maxHttpHeaderSize {
            Err(invalidData("HTTP header is too large"))
        } else {
            Ok(None)
        },
    }
}

/// Takes a whole line with its line end out of a buffer. `Ok(None)` asks for more bytes; the
/// buffer is then unchanged.
pub fn takeCrLfLine(buffer: &mut Vec<u8>) -> (r: Result<Option<Vec<u8>>, ProxyError>)
    ensures
        match cut(old(buffer)@, line_mark()) {
            Some((line, rest)) => r matches Ok(Some(l)) && l@ == line && final(buffer)@ == rest,
            None => final(buffer)@ == old(buffer)@ && if old(buffer).len() > maxHttpHeaderSize {
                r matches Err(e) && e@ == invalid("HTTP line is too large"@)
            } else {
                r matches Ok(None)
            },
        },
{
    match findCrLf(buffer) {
        Some(n) => Ok(Some(takeFront(buffer, n))),
        None => if buffer.len() > maxHttpHeaderSize {
            Err(invalidData("HTTP line is too large"))
        } else {
            Ok(None)
        },
    }
}

/// Nothing is lost, doubled or moved when a piece is cut off, and the piece ends in the mark.
pub proof fn law_cut_keeps_every_byte(buffer: Seq<u8>, mark: Seq<u8>)
    requires
        mark.len() > 0,
        cut(buffer, mark) is Some,
    ensures
        (cut(buffer, mark)->0).0 + (cut(buffer, mark)->0).1 == buffer,
        mark_ends_at((cut(buffer, mark)->0).0, mark, (cut(buffer, mark)->0).0.len() as int),
{
    lemma_mark_end(buffer, mark);
    let n = mark_end(buffer, mark)->0 as int;
    let m = mark.len() as int;
    assert(buffer.take(n) + buffer.skip(n) =~= buffer);
    assert(buffer.take(n).subrange(n - m, n) =~= buffer.subrange(n - m, n));
}

/// The piece that is cut off does not depend on how many of the bytes behind it are there yet.
pub proof fn law_cut_ignores_what_follows(buffer: Seq<u8>, more: Seq<u8>, mark: Seq<u8>)
    requires
        mark.len() > 0,
        cut(buffer, mark) is Some,
    ensures
        cut(buffer + more, mark) == Some(
            ((cut(buffer, mark)->0).0, (cut(buffer, mark)->0).1 + more),
        ),
{
    law_mark_end_is_stable(buffer, more, mark);
    lemma_mark_end(buffer, mark);
    let n = mark_end(buffer, mark)->0 as int;
    assert((buffer + more).take(n) =~= buffer.take(n));
    assert((buffer + more).skip(n) =~= buffer.skip(n) + more);
}

/// A piece that cannot be cut off yet is longer than what is there.
pub proof fn law_a_piece_that_is_not_there_is_longer(buffer: Seq<u8>, more: Seq<u8>, mark: Seq<u8>)
    requires
        mark.len() > 0,
        cut(buffer, mark) is None,
        cut(buffer + more, mark) is Some,
    ensures
        buffer.len() < (cut(buffer + more, mark)->0).0.len(),
{
    let all = buffer + more;
    let m = mark.len() as int;
    lemma_mark_end(buffer, mark);
    lemma_mark_end(all, mark);
    let n = mark_end(all, mark)->0 as int;
    if n <= buffer.len() {
        assert(buffer.subrange(n - m, n) =~= all.subrange(n - m, n));
        assert(mark_ends_at(buffer, mark, n));
    }
}

/// Whether two bytes of a stream are CR and LF.
pub open spec fn crlf_at(s: Seq<u8>, i: int) -> bool {
    0 <= i && i + 1 < s.len() && s[i] == 13 && s[i + 1] == 10
}

/// Whether four bytes of a stream are CR LF CR LF.
pub open spec fn empty_line_at(s: Seq<u8>, i: int) -> bool {
    crlf_at(s, i) && crlf_at(s, i + 2)
}

/// A line runs up to its first CR LF, which belongs to it; without a CR LF there is no line.
pub proof fn law_a_line_ends_at_its_first_cr_lf(line: Seq<u8>, rest: Seq<u8>)
    requires
        forall|i: int| !crlf_at(line, i),
    ensures
        cut(line, line_mark()) is None,
        cut(line + seq![13u8, 10] + rest, line_mark()) == Some((line + seq![13u8, 10], rest)),
{
    let mark = line_mark();
    let all = line + seq![13u8, 10] + rest;
    let n = line.len() as int + 2;
    assert(all.subrange(n - 2, n) =~= mark);
    assert(mark[0] == 13 && mark[1] == 10);
    assert forall|i: int| i < n implies !mark_ends_at(all, mark, i) by {
        if 2 <= i && all.subrange(i - 2, i) == mark {
            assert(all.subrange(i - 2, i)[0] == all[i - 2]);
            assert(all.subrange(i - 2, i)[1] == all[i - 1]);
            if i < n - 1 {
                assert(crlf_at(line, i - 2));
            }
        }
    }
    lemma_mark_end_is(all, mark, n);
    assert(all.take(n) =~= line + seq![13u8, 10]);
    assert(all.skip(n) =~= rest);
    lemma_mark_end(line, mark);
    assert forall|i: int| !mark_ends_at(line, mark, i) by {
        if 2 <= i <= line.len() && line.subrange(i - 2, i) == mark {
            assert(line.subrange(i - 2, i)[0] == line[i - 2]);
            assert(line.subrange(i - 2, i)[1] == line[i - 1]);
            assert(crlf_at(line, i - 2));
        }
    }
}

/// A head runs up to its first empty line, which belongs to it; without one there is no head.
pub proof fn law_a_head_ends_at_its_first_empty_line(head: Seq<u8>, rest: Seq<u8>)
    requires
        forall|i: int| !empty_line_at(head.push(13).push(10).push(13), i),
    ensures
        cut(head, head_mark()) is None,
        cut(head + seq![13u8, 10, 13, 10] + rest, head_mark()) == Some(
            (head + seq![13u8, 10, 13, 10], rest),
        ),
{
    let mark = head_mark();
    let all = head + seq![13u8, 10, 13, 10] + rest;
    let short = head.push(13).push(10).push(13);
    let n = head.len() as int + 4;
    assert(all.subrange(n - 4, n) =~= mark);
    assert(mark[0] == 13 && mark[1] == 10 && mark[2] == 13 && mark[3] == 10);
    assert forall|i: int| i < n implies !mark_ends_at(all, mark, i) by {
        if 4 <= i && all.subrange(i - 4, i) == mark {
            let here = all.subrange(i - 4, i);
            assert(here[0] == short[i - 4] && here[1] == short[i - 3]);
            assert(here[2] == short[i - 2] && here[3] == short[i - 1]);
            assert(empty_line_at(short, i - 4));
        }
    }
    lemma_mark_end_is(all, mark, n);
    assert(all.take(n) =~= head + seq![13u8, 10, 13, 10]);
    assert(all.skip(n) =~= rest);
    lemma_mark_end(head, mark);
    assert forall|i: int| !mark_ends_at(head, mark, i) by {
        if 4 <= i <= head.len() {
            assert(head.subrange(i - 4, i) =~= all.subrange(i - 4, i));
            assert(!mark_ends_at(all, mark, i));
        }
    }
}

} // verus!
