//! Where a message body ends and whether the connection outlives it.

use vstd::prelude::*;

use crate::error::{detailed, invalid, invalidData, ErrorKind, ErrorView, ProxyError};
use crate::header::{
    fields, headerContainsToken, headers_have_token, FieldView, HeaderField,
};
use crate::number::{number_error_text, numberErrorText, parse_number, parseNumber};
use crate::text::{
    charsOf, eqIgnoreAsciiCase, same_ignoring_case, split, splitAt, stringOf, texts, trim, trimmed,
};

verus! {

/// How the end of a body is found.
#[derive(Clone, Copy, Debug, PartialEq, Eq, Structural)]
pub enum BodyMode {
    /// There is no body.
    Empty,
    /// The body has this many bytes.
    ContentLength(u64),
    /// The body comes in chunks, each with its size in front.
    Chunked,
    /// The body ends with the connection.
    UntilClose,
}

// ---------------------------------------------------------------------------------------------
// Content-Length
// ---------------------------------------------------------------------------------------------

/// The comma-separated elements of a value, without white space round them.
pub open spec fn elements(value: Seq<char>) -> Seq<Seq<char>> {
    split(value, ',').map_values(|piece: Seq<char>| trim(piece))
}

/// Every length that the Content-Length fields name.
pub open spec fn named_lengths(list: Seq<FieldView>) -> Seq<Seq<char>>
    decreases list.len(),
{
    if list.len() == 0 {
        Seq::empty()
    } else if same_ignoring_case(list.last().name, "content-length"@) {
        named_lengths(list.drop_last()) + elements(list.last().value)
    } else {
        named_lengths(list.drop_last())
    }
}

/// Whether some element is missing.
pub open spec fn has_empty(list: Seq<Seq<char>>) -> bool {
    exists|i: int| 0 <= i < list.len() && (#[trigger] list[i]).len() == 0
}

/// The body length that the fields announce. It may be named several times, always in the same
/// words.
pub open spec fn content_length(list: Seq<FieldView>) -> Result<Option<u64>, ErrorView> {
    let lengths = named_lengths(list);
    if has_empty(lengths) {
        Err(invalid("empty Content-Length value"@))
    } else if lengths.len() == 0 {
        Ok(None)
    } else if exists|i: int| 0 <= i < lengths.len() && #[trigger] lengths[i] != lengths[0] {
        Err(invalid("conflicting Content-Length values"@))
    } else {
        match parse_number(lengths[0], 10, u64::MAX as nat) {
            Ok(n) => Ok(Some(n as u64)),
            Err(e) => Err(invalid("invalid Content-Length value: "@ + number_error_text(e))),
        }
    }
}

/// An element that is missing stays missing when more fields follow.
proof fn lemma_empty_stays(list: Seq<FieldView>, n: int)
    requires
        0 <= n <= list.len(),
        has_empty(named_lengths(list.take(n))),
    ensures
        has_empty(named_lengths(list)),
    decreases list.len() - n,
{
    if n == list.len() {
        assert(list.take(n) =~= list);
    } else {
        let shorter = named_lengths(list.take(n));
        let longer = named_lengths(list.take(n + 1));
        assert(list.take(n + 1).drop_last() =~= list.take(n));
        let i = choose|i: int| 0 <= i < shorter.len() && (#[trigger] shorter[i]).len() == 0;
        assert(longer[i].len() == 0);
        lemma_empty_stays(list, n + 1);
    }
}

/// Reads the announced body length; values that contradict each other are refused.
pub fn parseContentLength(headers: &[HeaderField]) -> (r: Result<Option<u64>, ProxyError>)
    ensures
        match r {
            Ok(length) => content_length(fields(headers@)) == Ok::<Option<u64>, ErrorView>(length),
            Err(e) => content_length(fields(headers@)) == Err::<Option<u64>, ErrorView>(e@),
        },
{
    let ghost all = fields(headers@);
    let mut values: Vec<String> = Vec::new();
    assert(texts(values@) =~= Seq::empty());
    for i in 0..headers.len()
        invariant
            all == fields(headers@),
            texts(values@) == named_lengths(all.take(i as int)),
            !has_empty(named_lengths(all.take(i as int))),
    {
        assert(all.take(i + 1).drop_last() =~= all.take(i as int));
        assert(all[i as int] == headers@[i as int]@);
        if eqIgnoreAsciiCase(&headers[i].headerName, "content-length") {
            let ghost before = named_lengths(all.take(i as int));
            let ghost here = elements(headers@[i as int].headerValue@);
            let ghost after = named_lengths(all.take(i + 1));
            assert(after == before + here);
            let pieces = splitAt(&charsOf(&headers[i].headerValue), ',');
            assert(here.len() == pieces@.len());
            for j in 0..pieces.len()
                invariant
                    texts(pieces@) == split(headers@[i as int].headerValue@, ','),
                    here == elements(headers@[i as int].headerValue@),
                    here.len() == pieces@.len(),
                    i < headers.len(),
                    all == fields(headers@),
                    after == named_lengths(all.take(i + 1)),
                    after == before + here,
                    texts(values@) == before + here.take(j as int),
                    !has_empty(before + here.take(j as int)),
            {
                let piece = charsOf(&pieces[j]);
                assert(texts(pieces@)[j as int] == pieces@[j as int]@);
                let value = trimmed(&piece);
                assert(here[j as int] == value@);
                if value.len() == 0 {
                    proof {
                        assert(after[before.len() + j as int].len() == 0);
                        lemma_empty_stays(all, i + 1);
                    }
                    return Err(invalidData("empty Content-Length value"));
                }
                let ghost grown = before + here.take(j + 1);
                proof {
                    let shorter = before + here.take(j as int);
                    assert(grown =~= shorter.push(value@));
                    if has_empty(grown) {
                        let k = choose|k: int|
                            0 <= k < grown.len() && (#[trigger] grown[k]).len() == 0;
                        assert(shorter[k].len() == 0);
                    }
                }
                values.push(stringOf(value));
                assert(texts(values@) =~= grown);
            }
            assert(here.take(here.len() as int) =~= here);
        }
    }
    assert(all.take(all.len() as int) =~= all);
    let ghost lengths = named_lengths(all);
    assert(lengths.len() == values@.len());
    if values.len() == 0 {
        return Ok(None);
    }
    assert(texts(values@)[0] == values@[0]@);
    for i in 0..values.len()
        invariant
            0 < values.len(),
            all == fields(headers@),
            lengths == named_lengths(all),
            lengths == texts(values@),
            !has_empty(lengths),
            forall|j: int| 0 <= j < i ==> #[trigger] lengths[j] == lengths[0],
    {
        assert(texts(values@)[i as int] == values@[i as int]@);
        assert(texts(values@)[0] == values@[0]@);
        if values[i] != values[0] {
            assert(lengths[i as int] != lengths[0]);
            return Err(invalidData("conflicting Content-Length values"));
        }
    }
    match parseNumber(&charsOf(&values[0]), 10, u64::MAX) {
        Ok(length) => Ok(Some(length)),
        Err(e) => Err(
            detailed(
                ErrorKind::InvalidData,
                "invalid Content-Length value: ",
                numberErrorText(e),
            ),
        ),
    }
}

// ---------------------------------------------------------------------------------------------
// Bodies
// ---------------------------------------------------------------------------------------------

/// Whether the body comes in chunks.
pub open spec fn is_chunked(list: Seq<FieldView>) -> bool {
    headers_have_token(list, "transfer-encoding"@, "chunked"@)
}

/// How the body ends that the fields announce; `otherwise` where they announce none.
pub open spec fn announced_body(list: Seq<FieldView>, otherwise: BodyMode) -> Result<
    BodyMode,
    ErrorView,
> {
    if is_chunked(list) {
        Ok(BodyMode::Chunked)
    } else {
        match content_length(list) {
            Ok(Some(n)) => Ok(BodyMode::ContentLength(n)),
            Ok(None) => Ok(otherwise),
            Err(e) => Err(e),
        }
    }
}

/// How the body of a request ends.
pub open spec fn request_body_mode(list: Seq<FieldView>) -> Result<BodyMode, ErrorView> {
    announced_body(list, BodyMode::Empty)
}

/// Whether a response has no body whatever its fields say.
pub open spec fn never_has_body(method: Seq<char>, status: u16) -> bool {
    ||| same_ignoring_case(method, "HEAD"@)
    ||| 100 <= status < 200
    ||| status == 204
    ||| status == 304
}

/// How the body of a response to the given method ends.
pub open spec fn response_body_mode(
    method: Seq<char>,
    status: u16,
    list: Seq<FieldView>,
) -> Result<BodyMode, ErrorView> {
    if never_has_body(method, status) {
        Ok(BodyMode::Empty)
    } else {
        announced_body(list, BodyMode::UntilClose)
    }
}

/// Decides how the body of a request ends.
pub fn getRequestBodyMode(headers: &[HeaderField]) -> (r: Result<BodyMode, ProxyError>)
    ensures
        match r {
            Ok(mode) => request_body_mode(fields(headers@)) == Ok::<BodyMode, ErrorView>(mode),
            Err(e) => request_body_mode(fields(headers@)) == Err::<BodyMode, ErrorView>(e@),
        },
{
    if headerContainsToken(headers, "transfer-encoding", "chunked") {
        return Ok(BodyMode::Chunked);
    }
    match parseContentLength(headers) {
        Ok(Some(contentLength)) => Ok(BodyMode::ContentLength(contentLength)),
        Ok(None) => Ok(BodyMode::Empty),
        Err(e) => Err(e),
    }
}

/// Decides how the body of a response ends.
pub fn getResponseBodyMode(method: &str, statusCode: u16, headers: &[HeaderField]) -> (r: Result<
    BodyMode,
    ProxyError,
>)
    ensures
        match r {
            Ok(mode) => response_body_mode(method@, statusCode, fields(headers@)) == Ok::<
                BodyMode,
                ErrorView,
            >(mode),
            Err(e) => response_body_mode(method@, statusCode, fields(headers@)) == Err::<
                BodyMode,
                ErrorView,
            >(e@),
        },
{
    if eqIgnoreAsciiCase(method, "HEAD") {
        return Ok(BodyMode::Empty);
    }
    if (100 <= statusCode && statusCode < 200) || statusCode == 204 || statusCode == 304 {
        return Ok(BodyMode::Empty);
    }
    if headerContainsToken(headers, "transfer-encoding", "chunked") {
        return Ok(BodyMode::Chunked);
    }
    match parseContentLength(headers) {
        Ok(Some(contentLength)) => Ok(BodyMode::ContentLength(contentLength)),
        Ok(None) => Ok(BodyMode::UntilClose),
        Err(e) => Err(e),
    }
}

// ---------------------------------------------------------------------------------------------
// Persistence
// ---------------------------------------------------------------------------------------------

/// Whether the sender of a message wants the connection to stay open: an order to close always
/// counts, and HTTP/1.0 has to ask for it.
pub open spec fn should_keep_alive(version: Seq<char>, list: Seq<FieldView>) -> bool {
    &&& !headers_have_token(list, "connection"@, "close"@)
    &&& same_ignoring_case(version, "HTTP/1.0"@) ==> headers_have_token(
        list,
        "connection"@,
        "keep-alive"@,
    )
}

/// Decides whether the client's connection may serve another request.
pub fn shouldKeepAlive(version: &str, headers: &[HeaderField]) -> (r: bool)
    ensures
        r == should_keep_alive(version@, fields(headers@)),
{
    if headerContainsToken(headers, "connection", "close") {
        return false;
    }
    if eqIgnoreAsciiCase(version, "HTTP/1.0") {
        return headerContainsToken(headers, "connection", "keep-alive");
    }
    true
}

} // verus!
