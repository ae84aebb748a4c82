//! HTTP message heads: parsing them and writing the ones that the proxy sends on.

use vstd::prelude::*;
use vstd::slice::slice_subrange;
use vstd::utf8::{decode_utf8, valid_utf8};

use crate::error::{detailed, invalid, invalidData, ErrorKind, ErrorView, ProxyError};
use crate::header::{
    fields, is_removed_request_header, is_removed_response_header, isRemovedRequestHeader,
    isRemovedResponseHeader, parse_fields, parseHeaderFields, FieldView, HeaderField,
};
use crate::number::{
    decimal, number_error_text, numberErrorText, parse_number, parseNumber, pushDecimal,
};
use crate::text::{
    before, charsOf, eqIgnoreAsciiCase, positionOf, same_ignoring_case, splitLines,
    splitWords, split_lines, stringOf, textFromUtf8, texts, utf8_error_text, words,
};

verus! {

/// The head of a request.
#[derive(Debug)]
pub struct HttpRequest {
    pub method: String,
    pub target: String,
    pub version: String,
    pub headers: Vec<HeaderField>,
}

/// A request head as contracts see it.
pub struct RequestView {
    pub method: Seq<char>,
    pub target: Seq<char>,
    pub version: Seq<char>,
    pub headers: Seq<FieldView>,
}

impl View for HttpRequest {
    type V = RequestView;

    open spec fn view(&self) -> RequestView {
        RequestView {
            method: self.method@,
            target: self.target@,
            version: self.version@,
            headers: fields(self.headers@),
        }
    }
}

/// The head of a response.
#[derive(Debug)]
pub struct HttpResponse {
    pub version: String,
    pub statusCode: u16,
    pub reason: String,
    pub headers: Vec<HeaderField>,
}

/// A response head as contracts see it.
pub struct ResponseView {
    pub version: Seq<char>,
    pub status: u16,
    pub reason: Seq<char>,
    pub headers: Seq<FieldView>,
}

impl View for HttpResponse {
    type V = ResponseView;

    open spec fn view(&self) -> ResponseView {
        ResponseView {
            version: self.version@,
            status: self.statusCode,
            reason: self.reason@,
            headers: fields(self.headers@),
        }
    }
}

// ---------------------------------------------------------------------------------------------
// Parsing requests
// ---------------------------------------------------------------------------------------------

/// The request that a head denotes: method, target and version are the first words of the first
/// line (the version may be missing), and header fields follow.
pub open spec fn parse_request_text(text: Seq<char>) -> Result<RequestView, ErrorView> {
    let lines = split_lines(text);
    let parts = words(lines[0]);
    if parts.len() == 0 {
        Err(invalid("missing HTTP method"@))
    } else if parts.len() == 1 {
        Err(invalid("missing HTTP target"@))
    } else {
        match parse_fields(lines.drop_first()) {
            Ok(headers) => Ok(
                RequestView {
                    method: parts[0],
                    target: parts[1],
                    version: if parts.len() > 2 {
                        parts[2]
                    } else {
                        "HTTP/1.1"@
                    },
                    headers,
                },
            ),
            Err(e) => Err(e),
        }
    }
}

/// The request that the bytes of a head denote.
pub open spec fn parse_request(bytes: Seq<u8>) -> Result<RequestView, ErrorView> {
    if valid_utf8(bytes) {
        parse_request_text(decode_utf8(bytes))
    } else {
        Err(invalid("invalid HTTP request header encoding: "@ + utf8_error_text(bytes)))
    }
}

/// Parses the text of a request head.
pub fn parseHttpRequestText(text: &str) -> (r: Result<HttpRequest, ProxyError>)
    ensures
        match r {
            Ok(request) => parse_request_text(text@) == Ok::<RequestView, ErrorView>(request@),
            Err(e) => parse_request_text(text@) == Err::<RequestView, ErrorView>(e@),
        },
{
    let lines = splitLines(text);
    assert(texts(lines@)[0] == lines@[0]@);
    let parts = splitWords(&lines[0]);
    assert(texts(parts@).len() == parts@.len());
    if parts.len() == 0 {
        return Err(invalidData("missing HTTP method"));
    }
    assert(texts(parts@)[0] == parts@[0]@);
    if parts.len() == 1 {
        return Err(invalidData("missing HTTP target"));
    }
    assert(texts(parts@)[1] == parts@[1]@);
    let method = parts[0].clone();
    let target = parts[1].clone();
    let version = if parts.len() > 2 {
        assert(texts(parts@)[2] == parts@[2]@);
        parts[2].clone()
    } else {
        "HTTP/1.1".to_owned()
    };
    let fieldLines = slice_subrange(&lines, 1, lines.len());
    assert(texts(fieldLines@) =~= texts(lines@).drop_first());
    match parseHeaderFields(fieldLines) {
        Ok(headers) => Ok(HttpRequest { method, target, version, headers }),
        Err(e) => Err(e),
    }
}

/// Parses the head of a client's request.
pub fn parseHttpRequest(headerBytes: &[u8]) -> (r: Result<HttpRequest, ProxyError>)
    ensures
        match r {
            Ok(request) => parse_request(headerBytes@) == Ok::<RequestView, ErrorView>(request@),
            Err(e) => parse_request(headerBytes@) == Err::<RequestView, ErrorView>(e@),
        },
{
    match textFromUtf8(headerBytes) {
        Ok(text) => parseHttpRequestText(&text),
        Err(reason) => Err(
            detailed(
                ErrorKind::InvalidData,
                "invalid HTTP request header encoding: ",
                &reason,
            ),
        ),
    }
}

// ---------------------------------------------------------------------------------------------
// Parsing responses
// ---------------------------------------------------------------------------------------------

/// The response that a head denotes: single spaces separate version, status code and reason on
/// the first line (the reason may be missing and may itself hold spaces), header fields follow.
pub open spec fn parse_response_text(text: Seq<char>) -> Result<ResponseView, ErrorView> {
    let lines = split_lines(text);
    let first = lines[0];
    let n = before(first, ' ') as int;
    let rest = first.skip(n + 1);
    let m = before(rest, ' ') as int;
    if n >= first.len() {
        Err(invalid("missing HTTP status code"@))
    } else {
        match parse_number(rest.take(m), 10, 0xffff) {
            Err(e) => Err(invalid("invalid HTTP status code: "@ + number_error_text(e))),
            Ok(status) => match parse_fields(lines.drop_first()) {
                Ok(headers) => Ok(
                    ResponseView {
                        version: first.take(n),
                        status: status as u16,
                        reason: if m < rest.len() {
                            rest.skip(m + 1)
                        } else {
                            Seq::empty()
                        },
                        headers,
                    },
                ),
                Err(e) => Err(e),
            },
        }
    }
}

/// The response that the bytes of a head denote.
pub open spec fn parse_response(bytes: Seq<u8>) -> Result<ResponseView, ErrorView> {
    if valid_utf8(bytes) {
        parse_response_text(decode_utf8(bytes))
    } else {
        Err(invalid("invalid HTTP response header encoding: "@ + utf8_error_text(bytes)))
    }
}

/// Parses the text of a response head.
pub fn parseHttpResponseText(text: &str) -> (r: Result<HttpResponse, ProxyError>)
    ensures
        match r {
            Ok(response) => parse_response_text(text@) == Ok::<ResponseView, ErrorView>(response@),
            Err(e) => parse_response_text(text@) == Err::<ResponseView, ErrorView>(e@),
        },
{
    let lines = splitLines(text);
    assert(texts(lines@)[0] == lines@[0]@);
    let first = charsOf(&lines[0]);
    let n = positionOf(&first, ' ');
    if n >= first.len() {
        return Err(invalidData("missing HTTP status code"));
    }
    let version = stringOf(slice_subrange(&first, 0, n));
    assert(version@ =~= first@.take(n as int));
    let rest = slice_subrange(&first, n + 1, first.len());
    assert(rest@ =~= first@.skip(n + 1));
    let m = positionOf(rest, ' ');
    let code = slice_subrange(rest, 0, m);
    assert(code@ =~= rest@.take(m as int));
    let statusCode: u16 = match parseNumber(code, 10, 0xffff) {
        Ok(status) => status as u16,
        Err(e) => {
            return Err(
                detailed(
                    ErrorKind::InvalidData,
                    "invalid HTTP status code: ",
                    numberErrorText(e),
                ),
            );
        },
    };
    let reason = if m < rest.len() {
        let reason = stringOf(slice_subrange(rest, m + 1, rest.len()));
        assert(reason@ =~= rest@.skip(m + 1));
        reason
    } else {
        String::new()
    };
    let fieldLines = slice_subrange(&lines, 1, lines.len());
    assert(texts(fieldLines@) =~= texts(lines@).drop_first());
    match parseHeaderFields(fieldLines) {
        Ok(headers) => Ok(HttpResponse { version, statusCode, reason, headers }),
        Err(e) => Err(e),
    }
}

/// Parses the head of an upstream server's response.
pub fn parseHttpResponse(headerBytes: &[u8]) -> (r: Result<HttpResponse, ProxyError>)
    ensures
        match r {
            Ok(response) => parse_response(headerBytes@) == Ok::<ResponseView, ErrorView>(
                response@,
            ),
            Err(e) => parse_response(headerBytes@) == Err::<ResponseView, ErrorView>(e@),
        },
{
    match textFromUtf8(headerBytes) {
        Ok(text) => parseHttpResponseText(&text),
        Err(reason) => Err(
            detailed(
                ErrorKind::InvalidData,
                "invalid HTTP response header encoding: ",
                &reason,
            ),
        ),
    }
}

// ---------------------------------------------------------------------------------------------
// Writing
// ---------------------------------------------------------------------------------------------

/// A header field as a line.
pub open spec fn field_line(field: FieldView) -> Seq<char> {
    field.name + ": "@ + field.value + "\r\n"@
}

/// Header fields as lines.
pub open spec fn field_lines(list: Seq<FieldView>) -> Seq<char>
    decreases list.len(),
{
    if list.len() == 0 {
        Seq::empty()
    } else {
        field_lines(list.drop_last()) + field_line(list.last())
    }
}

/// The request fields that are passed on, in their order.
pub open spec fn kept_request_fields(list: Seq<FieldView>) -> Seq<FieldView> {
    list.filter(|f: FieldView| !is_removed_request_header(f.name))
}

/// The response fields that are passed on, in their order.
pub open spec fn kept_response_fields(list: Seq<FieldView>) -> Seq<FieldView> {
    list.filter(|f: FieldView| !is_removed_response_header(f.name))
}

/// Whether a Host field is there.
pub open spec fn names_host(list: Seq<FieldView>) -> bool {
    exists|i: int| 0 <= i < list.len() && same_ignoring_case((#[trigger] list[i]).name, "host"@)
}

/// The fields of a request as the upstream server gets it: those that are passed on, a Host
/// field where the client sent none, and the order to close the connection.
pub open spec fn forward_fields(list: Seq<FieldView>, address: Seq<char>) -> Seq<FieldView> {
    let kept = kept_request_fields(list);
    let hosted = if names_host(kept) {
        kept
    } else {
        kept.push(FieldView { name: "Host"@, value: address })
    };
    hosted.push(FieldView { name: "Connection"@, value: "close"@ })
}

/// The fields of a response as the client gets it: those that are passed on and what becomes of
/// the connection.
pub open spec fn client_fields(list: Seq<FieldView>, keep_alive: bool) -> Seq<FieldView> {
    kept_response_fields(list).push(
        FieldView {
            name: "Connection"@,
            value: if keep_alive {
                "keep-alive"@
            } else {
                "close"@
            },
        },
    )
}

/// The head of a request as the upstream server gets it.
pub open spec fn forward_request_text(
    request: RequestView,
    path: Seq<char>,
    address: Seq<char>,
) -> Seq<char> {
    request.method + " "@ + path + " "@ + request.version + "\r\n"@ + field_lines(
        forward_fields(request.headers, address),
    ) + "\r\n"@
}

/// The first line of a response as the client gets it.
pub open spec fn status_line(response: ResponseView) -> Seq<char> {
    response.version + " "@ + decimal(response.status as nat) + if response.reason.len() > 0 {
        " "@ + response.reason
    } else {
        Seq::empty()
    }
}

/// The head of a response as the client gets it.
pub open spec fn client_response_text(response: ResponseView, keep_alive: bool) -> Seq<char> {
    status_line(response) + "\r\n"@ + field_lines(client_fields(response.headers, keep_alive))
        + "\r\n"@
}

fn pushField(out: &mut String, name: &str, value: &str)
    ensures
        final(out)@ == old(out)@ + field_line(FieldView { name: name@, value: value@ }),
{
    let ghost start = out@;
    out.append(name);
    out.append(": ");
    out.append(value);
    out.append("\r\n");
    assert(out@ =~= start + field_line(FieldView { name: name@, value: value@ }));
}

proof fn lemma_field_lines_push(list: Seq<FieldView>, field: FieldView)
    ensures
        field_lines(list.push(field)) == field_lines(list) + field_line(field),
{
    assert(list.push(field).drop_last() =~= list);
}

/// Writes the head of a request for the upstream server, without the fields that concern only
/// the hop between client and proxy. The upstream connection serves this one request.
pub fn buildForwardRequestHeader(
    request: &HttpRequest,
    originPath: &str,
    remoteAddress: &str,
) -> (r: String)
    ensures
        r@ == forward_request_text(request@, originPath@, remoteAddress@),
{
    let mut output = String::new();
    output.append(&request.method);
    output.append(" ");
    output.append(originPath);
    output.append(" ");
    output.append(&request.version);
    output.append("\r\n");
    let ghost lead = output@;
    assert(lead =~= request@.method + " "@ + originPath@ + " "@ + request@.version + "\r\n"@);
    let ghost all = request@.headers;
    let ghost passes = |f: FieldView| !is_removed_request_header(f.name);
    let mut hasHostHeader = false;
    assert(all.take(0).filter(passes) =~= Seq::empty()) by {
        reveal(Seq::filter);
    }
    for i in 0..request.headers.len()
        invariant
            all == request@.headers,
            passes == (|f: FieldView| !is_removed_request_header(f.name)),
            output@ == lead + field_lines(all.take(i as int).filter(passes)),
            hasHostHeader == names_host(all.take(i as int).filter(passes)),
    {
        let ghost kept = all.take(i as int).filter(passes);
        let field = &request.headers[i];
        assert(all[i as int] == field@);
        assert(all.take(i + 1).drop_last() =~= all.take(i as int));
        assert(all.take(i + 1).filter(passes) == if passes(field@) {
            kept.push(field@)
        } else {
            kept
        }) by {
            reveal(Seq::filter);
        }
        if !isRemovedRequestHeader(&field.headerName) {
            if eqIgnoreAsciiCase(&field.headerName, "host") {
                hasHostHeader = true;
                assert(same_ignoring_case(kept.push(field@)[kept.len() as int].name, "host"@));
            }
            proof {
                lemma_field_lines_push(kept, field@);
                lemma_names_host_push(kept, field@);
            }
            pushField(&mut output, &field.headerName, &field.headerValue);
            assert(output@ =~= lead + field_lines(kept.push(field@)));
        }
    }
    assert(all.take(all.len() as int) =~= all);
    let ghost kept = kept_request_fields(all);
    let ghost host = FieldView { name: "Host"@, value: remoteAddress@ };
    let ghost close = FieldView { name: "Connection"@, value: "close"@ };
    if !hasHostHeader {
        proof {
            lemma_field_lines_push(kept, host);
        }
        pushField(&mut output, "Host", remoteAddress);
    }
    let ghost hosted = if names_host(kept) {
        kept
    } else {
        kept.push(host)
    };
    assert(output@ =~= lead + field_lines(hosted));
    proof {
        lemma_field_lines_push(hosted, close);
    }
    pushField(&mut output, "Connection", "close");
    output.append("\r\n");
    assert(output@ =~= forward_request_text(request@, originPath@, remoteAddress@));
    output
}

proof fn lemma_names_host_push(list: Seq<FieldView>, field: FieldView)
    ensures
        names_host(list.push(field)) == (names_host(list) || same_ignoring_case(
            field.name,
            "host"@,
        )),
{
    let longer = list.push(field);
    if names_host(list) {
        let i = choose|i: int|
            0 <= i < list.len() && same_ignoring_case((#[trigger] list[i]).name, "host"@);
        assert(same_ignoring_case(longer[i].name, "host"@));
    }
    if same_ignoring_case(field.name, "host"@) {
        assert(same_ignoring_case(longer[list.len() as int].name, "host"@));
    }
    if names_host(longer) && !same_ignoring_case(field.name, "host"@) {
        let i = choose|i: int|
            0 <= i < longer.len() && same_ignoring_case((#[trigger] longer[i]).name, "host"@);
        assert(same_ignoring_case(list[i].name, "host"@));
    }
}

/// Writes the head of a response for the client, without the fields that concern only the hop
/// between proxy and server, and with the decision on the client's connection.
pub fn buildClientResponseHeader(response: &HttpResponse, keepAlive: bool) -> (r: String)
    ensures
        r@ == client_response_text(response@, keepAlive),
{
    let mut output = String::new();
    output.append(&response.version);
    output.append(" ");
    pushDecimal(&mut output, response.statusCode as u64);
    if !response.reason.as_str().is_empty() {
        output.append(" ");
        output.append(&response.reason);
    }
    assert(output@ =~= status_line(response@));
    output.append("\r\n");
    let ghost lead = output@;
    let ghost all = response@.headers;
    let ghost passes = |f: FieldView| !is_removed_response_header(f.name);
    assert(all.take(0).filter(passes) =~= Seq::empty()) by {
        reveal(Seq::filter);
    }
    for i in 0..response.headers.len()
        invariant
            all == response@.headers,
            passes == (|f: FieldView| !is_removed_response_header(f.name)),
            output@ == lead + field_lines(all.take(i as int).filter(passes)),
    {
        let ghost kept = all.take(i as int).filter(passes);
        let field = &response.headers[i];
        assert(all[i as int] == field@);
        assert(all.take(i + 1).drop_last() =~= all.take(i as int));
        assert(all.take(i + 1).filter(passes) == if passes(field@) {
            kept.push(field@)
        } else {
            kept
        }) by {
            reveal(Seq::filter);
        }
        if !isRemovedResponseHeader(&field.headerName) {
            proof {
                lemma_field_lines_push(kept, field@);
            }
            pushField(&mut output, &field.headerName, &field.headerValue);
            assert(output@ =~= lead + field_lines(kept.push(field@)));
        }
    }
    assert(all.take(all.len() as int) =~= all);
    let ghost kept = kept_response_fields(all);
    if keepAlive {
        proof {
            lemma_field_lines_push(
                kept,
                FieldView { name: "Connection"@, value: "keep-alive"@ },
            );
        }
        pushField(&mut output, "Connection", "keep-alive");
    } else {
        proof {
            lemma_field_lines_push(kept, FieldView { name: "Connection"@, value: "close"@ });
        }
        pushField(&mut output, "Connection", "close");
    }
    output.append("\r\n");
    assert(output@ =~= client_response_text(response@, keepAlive));
    output
}

} // verus!
