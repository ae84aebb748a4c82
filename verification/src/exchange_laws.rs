//! What is read off a head, and what becomes of it on the way to the other side.

use vstd::prelude::*;
use vstd::utf8::{
    decode_utf8, encode_utf8, encode_utf8_decode_utf8, encode_utf8_valid_utf8, valid_utf8,
};

use crate::error::{invalid, ErrorView};
use crate::exchange::{
    plan_request, plan_response, plan_response_head, PendingView, RequestPlanView,
    ResponsePlanView,
};
use crate::framing::{request_body_mode, response_body_mode, should_keep_alive};
use crate::framing_laws::{
    law_forwarding_keeps_the_framing_of_a_request, law_forwarding_keeps_the_framing_of_a_response,
};
use crate::header::{
    is_removed_request_header, is_removed_response_header, parse_fields, FieldView,
};
use crate::header_laws::{
    law_request_fields_that_are_taken_away, law_response_fields_that_are_taken_away,
};
use crate::message::{
    client_fields, client_response_text, field_lines, forward_fields, forward_request_text,
    kept_request_fields, names_host, parse_request, parse_request_text, parse_response,
    parse_response_text, RequestView, ResponseView,
};
use crate::message_laws::{
    law_client_head_reads_back, law_forwarded_head_reads_back,
    law_request_fields_that_are_passed_on, law_response_fields_that_are_passed_on,
};
use crate::number::{decimal, number_error_text, parse_number};
use crate::number_laws::{are_decimal, is_decimal, law_decimal_digits_are_read, worth};
use crate::stream::{cut, head_mark};
use crate::target::{normalize_authority, parse_target};
use crate::text::{before, lemma_before_is, same_ignoring_case, split_lines, utf8_error_text, words};
use crate::text_laws::{
    is_line, law_lines_are_cut_at_line_ends, law_matching_is_by_lower_case, lower_case,
};
use crate::url_laws::law_an_absolute_url_names_its_server;

verus! {

// ---------------------------------------------------------------------------------------------
// Reading
// ---------------------------------------------------------------------------------------------

/// The first three words on the first line of a request head are its method, its target and its
/// version, which is HTTP/1.1 where it is missing; the other lines are its fields. Without a
/// method or a target the head is refused.
pub proof fn law_a_request_head_is_read(line: Seq<char>, rest: Seq<char>)
    requires
        is_line(line),
    ensures
        ({
            let read = parse_request_text(line + "\r\n"@ + rest);
            let parts = words(line);
            match parse_fields(split_lines(rest)) {
                Ok(headers) => {
                    &&& parts.len() >= 2 ==> (read matches Ok(request) && request.method == parts[0]
                        && request.target == parts[1] && request.headers == headers)
                    &&& parts.len() == 2 ==> read->Ok_0.version == seq![
                        'H',
                        'T',
                        'T',
                        'P',
                        '/',
                        '1',
                        '.',
                        '1',
                    ]
                    &&& parts.len() > 2 ==> read->Ok_0.version == parts[2]
                },
                Err(e) => parts.len() >= 2 ==> read == Err::<RequestView, ErrorView>(e),
            }
        }),
        words(line).len() == 2 ==> (parse_request_text(line) matches Ok(request) && request.method
            == words(line)[0] && request.target == words(line)[1] && request.headers.len() == 0),
        words(line).len() > 2 ==> (parse_request_text(line) matches Ok(request) && request.method
            == words(line)[0] && request.target == words(line)[1] && request.version == words(
            line,
        )[2] && request.headers.len() == 0),
        words(line).len() == 0 ==> parse_request_text(line + "\r\n"@ + rest) == Err::<
            RequestView,
            ErrorView,
        >(invalid("missing HTTP method"@)),
        words(line).len() == 1 ==> parse_request_text(line + "\r\n"@ + rest) == Err::<
            RequestView,
            ErrorView,
        >(invalid("missing HTTP target"@)),
{
    reveal_strlit("HTTP/1.1");
    law_lines_are_cut_at_line_ends(line, rest);
    let lines = split_lines(line + "\r\n"@ + rest);
    assert(lines[0] == line);
    assert(lines.drop_first() =~= split_lines(rest));
    assert("HTTP/1.1"@ =~= seq!['H', 'T', 'T', 'P', '/', '1', '.', '1']);
    assert(split_lines(line).drop_first() =~= Seq::empty());
}

/// The first line of a response head is its version, a space, its status in decimal and, behind
/// another space, its reason, which may be missing; the other lines are its fields.
pub proof fn law_a_response_head_is_read(
    version: Seq<char>,
    digits: Seq<char>,
    reason: Seq<char>,
    rest: Seq<char>,
)
    requires
        !version.contains(' '),
        digits.len() > 0,
        are_decimal(digits),
        worth(digits, 10) <= 0xffff,
        is_line(version + seq![' '] + digits + seq![' '] + reason),
        is_line(version + seq![' '] + digits),
    ensures
        parse_response_text(
            version + seq![' '] + digits + seq![' '] + reason + "\r\n"@ + rest,
        ) == match parse_fields(split_lines(rest)) {
            Ok(headers) => Ok::<ResponseView, ErrorView>(
                ResponseView { version, status: worth(digits, 10) as u16, reason, headers },
            ),
            Err(e) => Err(e),
        },
        parse_response_text(version + seq![' '] + digits + seq![' '] + reason) == Ok::<
            ResponseView,
            ErrorView,
        >(
            ResponseView {
                version,
                status: worth(digits, 10) as u16,
                reason,
                headers: Seq::empty(),
            },
        ),
        parse_response_text(version + seq![' '] + digits + "\r\n"@ + rest) == match parse_fields(
            split_lines(rest),
        ) {
            Ok(headers) => Ok::<ResponseView, ErrorView>(
                ResponseView {
                    version,
                    status: worth(digits, 10) as u16,
                    reason: Seq::empty(),
                    headers,
                },
            ),
            Err(e) => Err(e),
        },
{
    law_decimal_digits_are_read(digits, 0xffff);
    assert forall|i: int| 0 <= i < digits.len() implies digits[i] != ' ' by {
        assert(is_decimal(digits[i]));
    }
    let full = version + seq![' '] + digits + seq![' '] + reason;
    let bare = version + seq![' '] + digits;
    lemma_status_line_parts(version, digits, seq![' '] + reason);
    lemma_status_line_parts(version, digits, Seq::empty());
    assert(full =~= version + seq![' '] + (digits + (seq![' '] + reason)));
    assert(bare =~= version + seq![' '] + (digits + Seq::<char>::empty()));
    law_lines_are_cut_at_line_ends(full, rest);
    law_lines_are_cut_at_line_ends(bare, rest);
    let lines = split_lines(full + "\r\n"@ + rest);
    assert(lines[0] == full && lines.drop_first() =~= split_lines(rest));
    assert(split_lines(full).drop_first() =~= Seq::empty());
    let others = split_lines(bare + "\r\n"@ + rest);
    assert(others[0] == bare && others.drop_first() =~= split_lines(rest));
    let tail = digits + (seq![' '] + reason);
    assert(tail.skip(digits.len() as int + 1) =~= reason);
}

proof fn lemma_status_line_parts(version: Seq<char>, code: Seq<char>, more: Seq<char>)
    requires
        !version.contains(' '),
        forall|i: int| 0 <= i < code.len() ==> code[i] != ' ',
        more.len() == 0 || more[0] == ' ',
    ensures
        ({
            let line = version + seq![' '] + (code + more);
            let n = before(line, ' ') as int;
            let rest = line.skip(n + 1);
            let m = before(rest, ' ') as int;
            &&& n == version.len()
            &&& line.take(n) == version
            &&& rest == code + more
            &&& m == code.len()
            &&& rest.take(m) == code
        }),
{
    let line = version + seq![' '] + (code + more);
    let n = version.len() as int;
    assert forall|i: int| 0 <= i < n implies line[i] != ' ' by {
        assert(version.contains(version[i]));
    }
    assert(line[n] == ' ');
    lemma_before_is(line, ' ', n);
    assert(line.take(n) =~= version);
    let rest = line.skip(n + 1);
    assert(rest =~= code + more);
    lemma_before_is(rest, ' ', code.len() as int);
    assert(rest.take(code.len() as int) =~= code);
}

/// A response head without a status is refused, and so is one whose status is no number that 16
/// bits hold, for the reason why it is none.
pub proof fn law_a_response_needs_a_status(
    version: Seq<char>,
    code: Seq<char>,
    more: Seq<char>,
    rest: Seq<char>,
)
    requires
        !version.contains(' '),
        !code.contains(' '),
        more.len() == 0 || more[0] == ' ',
        is_line(version),
        is_line(version + seq![' '] + (code + more)),
    ensures
        parse_response_text(version + "\r\n"@ + rest) == Err::<ResponseView, ErrorView>(
            invalid("missing HTTP status code"@),
        ),
        parse_number(code, 10, 0xffff) matches Err(e) ==> parse_response_text(
            version + seq![' '] + (code + more) + "\r\n"@ + rest,
        ) == Err::<ResponseView, ErrorView>(
            invalid("invalid HTTP status code: "@ + number_error_text(e)),
        ),
{
    law_lines_are_cut_at_line_ends(version, rest);
    let short = split_lines(version + "\r\n"@ + rest);
    assert(short[0] == version);
    assert forall|i: int| 0 <= i < version.len() implies version[i] != ' ' by {
        assert(version.contains(version[i]));
    }
    lemma_before_is(version, ' ', version.len() as int);
    assert forall|i: int| 0 <= i < code.len() implies code[i] != ' ' by {
        assert(code.contains(code[i]));
    }
    let line = version + seq![' '] + (code + more);
    lemma_status_line_parts(version, code, more);
    law_lines_are_cut_at_line_ends(line, rest);
    assert(split_lines(line + "\r\n"@ + rest)[0] == line);
}

/// A head is read as the text that its bytes encode; bytes that encode no text are refused.
pub proof fn law_heads_are_read_as_text(text: Seq<char>, bytes: Seq<u8>)
    ensures
        parse_request(encode_utf8(text)) == parse_request_text(text),
        parse_response(encode_utf8(text)) == parse_response_text(text),
        !valid_utf8(bytes) ==> {
            &&& parse_request(bytes) == Err::<RequestView, ErrorView>(
                invalid("invalid HTTP request header encoding: "@ + utf8_error_text(bytes)),
            )
            &&& parse_response(bytes) == Err::<ResponseView, ErrorView>(
                invalid("invalid HTTP response header encoding: "@ + utf8_error_text(bytes)),
            )
        },
        valid_utf8(bytes) ==> parse_request(bytes) == parse_request_text(decode_utf8(bytes))
            && parse_response(bytes) == parse_response_text(decode_utf8(bytes)),
{
    encode_utf8_valid_utf8(text);
    encode_utf8_decode_utf8(text);
}

/// Fields are written one to a line: name, colon, space, value, CR LF.
pub proof fn law_fields_are_written_line_by_line(list: Seq<FieldView>, field: FieldView)
    ensures
        field_lines(Seq::empty()) == Seq::<char>::empty(),
        field_lines(list.push(field)) == field_lines(list) + (field.name + seq![':', ' ']
            + field.value + seq!['\r', '\n']),
{
    reveal_strlit(": ");
    reveal_strlit("\r\n");
    assert(list.push(field).drop_last() =~= list);
    assert(field_lines(list.push(field)) =~= field_lines(list) + (field.name + seq![':', ' ']
        + field.value + seq!['\r', '\n']));
}

/// The head for the upstream server is method, path and version with a space between them, CR LF,
/// the fields, and an empty line. The head for the client is version and status with a space
/// between them, the reason behind another space where there is one, CR LF, the fields, and an
/// empty line.
pub proof fn law_heads_are_written_so(
    request: RequestView,
    path: Seq<char>,
    address: Seq<char>,
    response: ResponseView,
    keep_alive: bool,
)
    ensures
        forward_request_text(request, path, address) == request.method + seq![' '] + path + seq![
            ' ',
        ] + request.version + seq!['\r', '\n'] + field_lines(
            forward_fields(request.headers, address),
        ) + seq!['\r', '\n'],
        client_response_text(response, keep_alive) == response.version + seq![' '] + decimal(
            response.status as nat,
        ) + if response.reason.len() > 0 {
            seq![' '] + response.reason
        } else {
            Seq::<char>::empty()
        } + seq!['\r', '\n'] + field_lines(client_fields(response.headers, keep_alive)) + seq![
            '\r',
            '\n',
        ],
{
    reveal_strlit(" ");
    reveal_strlit("\r\n");
    let fields = field_lines(forward_fields(request.headers, address));
    assert(forward_request_text(request, path, address) =~= request.method + seq![' '] + path
        + seq![' '] + request.version + seq!['\r', '\n'] + fields + seq!['\r', '\n']);
    let behind = if response.reason.len() > 0 {
        seq![' '] + response.reason
    } else {
        Seq::<char>::empty()
    };
    let others = field_lines(client_fields(response.headers, keep_alive));
    assert(client_response_text(response, keep_alive) =~= response.version + seq![' '] + decimal(
        response.status as nat,
    ) + behind + seq!['\r', '\n'] + others + seq!['\r', '\n']);
}

// ---------------------------------------------------------------------------------------------
// Fields on their way
// ---------------------------------------------------------------------------------------------

/// Every field of the client's request is among the forwarded fields unless its name in lower
/// case is connection, proxy-connection, proxy-authorization, keep-alive or upgrade.
pub proof fn law_other_request_fields_are_forwarded(
    list: Seq<FieldView>,
    address: Seq<char>,
    i: int,
)
    requires
        0 <= i < list.len(),
        lower_case(list[i].name) != "connection"@,
        lower_case(list[i].name) != "proxy-connection"@,
        lower_case(list[i].name) != "proxy-authorization"@,
        lower_case(list[i].name) != "keep-alive"@,
        lower_case(list[i].name) != "upgrade"@,
    ensures
        forward_fields(list, address).contains(list[i]),
{
    law_request_fields_that_are_taken_away(list[i].name);
    law_request_fields_that_are_passed_on(list, address);
}

/// Every field of the server's response is among those that the client gets unless its name in
/// lower case is connection, proxy-connection, proxy-authenticate, keep-alive or upgrade.
pub proof fn law_other_response_fields_are_passed_on(
    list: Seq<FieldView>,
    keep_alive: bool,
    i: int,
)
    requires
        0 <= i < list.len(),
        lower_case(list[i].name) != "connection"@,
        lower_case(list[i].name) != "proxy-connection"@,
        lower_case(list[i].name) != "proxy-authenticate"@,
        lower_case(list[i].name) != "keep-alive"@,
        lower_case(list[i].name) != "upgrade"@,
    ensures
        client_fields(list, keep_alive).contains(list[i]),
{
    law_response_fields_that_are_taken_away(list[i].name);
    law_response_fields_that_are_passed_on(list, keep_alive);
}

/// The upstream server gets the client's fields in their order, without those that concern one
/// hop, then a Host field if the client sent none, then the order to close the connection; and
/// nothing else.
pub proof fn law_the_forwarded_fields(list: Seq<FieldView>, address: Seq<char>)
    ensures
        ({
            let kept = list.filter(
                |f: FieldView|
                    lower_case(f.name) != "connection"@ && lower_case(f.name)
                        != "proxy-connection"@ && lower_case(f.name) != "proxy-authorization"@
                        && lower_case(f.name) != "keep-alive"@ && lower_case(f.name)
                        != "upgrade"@,
            );
            let close = FieldView { name: "Connection"@, value: "close"@ };
            if exists|i: int|
                0 <= i < list.len() && lower_case((#[trigger] list[i]).name) == "host"@ {
                forward_fields(list, address) == kept.push(close)
            } else {
                forward_fields(list, address) == kept.push(
                    FieldView { name: "Host"@, value: address },
                ).push(close)
            }
        }),
{
    let passes = |f: FieldView| !is_removed_request_header(f.name);
    let named = |f: FieldView|
        lower_case(f.name) != "connection"@ && lower_case(f.name) != "proxy-connection"@
            && lower_case(f.name) != "proxy-authorization"@ && lower_case(f.name) != "keep-alive"@
            && lower_case(f.name) != "upgrade"@;
    assert forall|f: FieldView| #[trigger] passes(f) == named(f) by {
        law_request_fields_that_are_taken_away(f.name);
    }
    assert(passes =~= named);
    let kept = kept_request_fields(list);
    assert forall|name: Seq<char>| #[trigger]
        same_ignoring_case(name, "host"@) <==> lower_case(name) == "host"@ by {
        reveal_strlit("host");
        law_matching_is_by_lower_case(name, "host"@);
    }
    if exists|i: int| 0 <= i < list.len() && lower_case((#[trigger] list[i]).name) == "host"@ {
        let i = choose|i: int|
            0 <= i < list.len() && lower_case((#[trigger] list[i]).name) == "host"@;
        lemma_host_is_no_hop(list[i].name);
        list.lemma_filter_contains(passes, i);
        let j = choose|j: int| 0 <= j < kept.len() && kept[j] == list[i];
        assert(same_ignoring_case(kept[j].name, "host"@));
    }
    if names_host(kept) {
        let j = choose|j: int|
            0 <= j < kept.len() && same_ignoring_case((#[trigger] kept[j]).name, "host"@);
        assert(kept.contains(kept[j]));
        list.lemma_filter_contains_rev(passes, kept[j]);
        let i = choose|i: int| 0 <= i < list.len() && list[i] == kept[j];
        assert(lower_case(list[i].name) == "host"@);
    }
}

proof fn lemma_host_is_no_hop(name: Seq<char>)
    requires
        lower_case(name) == "host"@,
    ensures
        !is_removed_request_header(name),
{
    law_request_fields_that_are_taken_away(name);
    reveal_strlit("host");
    reveal_strlit("connection");
    reveal_strlit("proxy-connection");
    reveal_strlit("proxy-authorization");
    reveal_strlit("keep-alive");
    reveal_strlit("upgrade");
    assert("host"@.len() == 4);
}

/// The client gets the server's fields in their order, without those that concern one hop, then
/// what becomes of the connection; and nothing else.
pub proof fn law_the_fields_for_the_client(list: Seq<FieldView>, keep_alive: bool)
    ensures
        client_fields(list, keep_alive) == list.filter(
            |f: FieldView|
                lower_case(f.name) != "connection"@ && lower_case(f.name) != "proxy-connection"@
                    && lower_case(f.name) != "proxy-authenticate"@ && lower_case(f.name)
                    != "keep-alive"@ && lower_case(f.name) != "upgrade"@,
        ).push(
            FieldView {
                name: "Connection"@,
                value: if keep_alive {
                    "keep-alive"@
                } else {
                    "close"@
                },
            },
        ),
{
    let passes = |f: FieldView| !is_removed_response_header(f.name);
    let named = |f: FieldView|
        lower_case(f.name) != "connection"@ && lower_case(f.name) != "proxy-connection"@
            && lower_case(f.name) != "proxy-authenticate"@ && lower_case(f.name) != "keep-alive"@
            && lower_case(f.name) != "upgrade"@;
    assert forall|f: FieldView| #[trigger] passes(f) == named(f) by {
        law_response_fields_that_are_taken_away(f.name);
    }
    assert(passes =~= named);
}

// ---------------------------------------------------------------------------------------------
// Plans
// ---------------------------------------------------------------------------------------------

/// A request is planned exactly if its target and its body length make sense; a bad target is
/// reported before a bad length.
pub proof fn law_which_requests_are_planned(request: RequestView)
    ensures
        plan_request(request) is Ok <==> parse_target(request.target, request.headers) is Ok
            && request_body_mode(request.headers) is Ok,
        parse_target(request.target, request.headers) is Err ==> plan_request(request) == Err::<
            RequestPlanView,
            ErrorView,
        >(parse_target(request.target, request.headers)->Err_0),
        parse_target(request.target, request.headers) is Ok && request_body_mode(
            request.headers,
        ) is Err ==> plan_request(request) == Err::<RequestPlanView, ErrorView>(
            request_body_mode(request.headers)->Err_0,
        ),
{
}

/// Whenever a request that was read off a head is planned, the planned head, read back, is that
/// request: it has the same method and version, it asks for the path that the target denotes, it
/// holds the fields that are passed on, and it announces the same body. The planned address is the
/// address that the target denotes, and what is remembered is what the client sent. Whatever
/// follows the head is not taken for a part of it.
pub proof fn law_a_planned_request_is_the_clients(
    head: Seq<u8>,
    request: RequestView,
    plan: RequestPlanView,
    body: Seq<u8>,
)
    requires
        parse_request(head) == Ok::<RequestView, ErrorView>(request),
        plan_request(request) == Ok::<RequestPlanView, ErrorView>(plan),
    ensures
        parse_target(request.target, request.headers) matches Ok((address, path)) && {
            &&& plan.address == address
            &&& parse_request(encode_utf8(plan.head)) matches Ok(again) && {
                &&& again.method == request.method
                &&& again.version == request.version
                &&& again.target == path
                &&& again.headers == forward_fields(request.headers, address)
                &&& request_body_mode(again.headers) == request_body_mode(request.headers)
            }
        },
        Ok::<_, ErrorView>(plan.body) == request_body_mode(request.headers),
        plan.pending.method == request.method,
        plan.pending.target == request.target,
        plan.pending.keep_alive == should_keep_alive(request.version, request.headers),
        cut(encode_utf8(plan.head) + body, head_mark()) == Some((encode_utf8(plan.head), body)),
{
    let (address, path) = parse_target(request.target, request.headers)->Ok_0;
    law_forwarded_head_reads_back(head, request, address, path, body);
    law_forwarding_keeps_the_framing_of_a_request(request.headers, address);
}

/// A request for an absolute URL is planned for the address that the URL's authority denotes, and
/// asks there for what follows the authority, with the same method and version.
pub proof fn law_a_planned_request_asks_for_its_path(
    head: Seq<u8>,
    request: RequestView,
    plan: RequestPlanView,
    authority: Seq<char>,
    path: Seq<char>,
)
    requires
        parse_request(head) == Ok::<RequestView, ErrorView>(request),
        plan_request(request) == Ok::<RequestPlanView, ErrorView>(plan),
        request.target == "http://"@ + authority + path,
        !authority.contains('/'),
        !authority.contains('?'),
        path.len() > 0 && path[0] == '/',
    ensures
        normalize_authority(authority, 80) == Ok::<Seq<char>, ErrorView>(plan.address),
        parse_request(encode_utf8(plan.head)) matches Ok(again) && again.method == request.method
            && again.target == path && again.version == request.version,
{
    law_an_absolute_url_names_its_server(authority, path, request.headers);
    law_a_planned_request_is_the_clients(head, request, plan, Seq::empty());
}

/// Whenever a response that was read off a head is planned, the planned head, read back, is that
/// response: it has the same version, status and reason, it holds the fields that are passed on,
/// and it announces the same body. The client's connection ends with it exactly if the client
/// wanted that or the body ends with the server's connection, and the client is told which.
/// Whatever follows the head is not taken for a part of it.
pub proof fn law_a_planned_response_is_the_servers(
    pending: PendingView,
    head: Seq<u8>,
    response: ResponseView,
    plan: ResponsePlanView,
    body: Seq<u8>,
)
    requires
        parse_response(head) == Ok::<ResponseView, ErrorView>(response),
        plan_response_head(pending, head) == Ok::<ResponsePlanView, ErrorView>(plan),
    ensures
        parse_response(encode_utf8(plan.head)) matches Ok(again) && {
            &&& again.version == response.version
            &&& again.status == response.status
            &&& again.reason == response.reason
            &&& again.headers == client_fields(response.headers, !plan.close)
            &&& response_body_mode(pending.method, again.status, again.headers)
                == response_body_mode(pending.method, response.status, response.headers)
        },
        Ok::<_, ErrorView>(plan.body) == response_body_mode(
            pending.method,
            response.status,
            response.headers,
        ),
        plan.close <==> !pending.keep_alive || plan.body is UntilClose,
        plan.summary == pending.method + seq![' '] + pending.target + seq![' ', '-', '>', ' ']
            + decimal(response.status as nat) + seq![' '] + response.reason,
        cut(encode_utf8(plan.head) + body, head_mark()) == Some((encode_utf8(plan.head), body)),
{
    reveal_strlit(" ");
    reveal_strlit(" -> ");
    law_client_head_reads_back(head, response, !plan.close, body);
    law_forwarding_keeps_the_framing_of_a_response(
        pending.method,
        response.status,
        response.headers,
        !plan.close,
    );
    assert(plan.summary =~= pending.method + seq![' '] + pending.target + seq![' ', '-', '>', ' ']
        + decimal(response.status as nat) + seq![' '] + response.reason);
}

/// A response is planned exactly if its head can be read and its body length makes sense.
pub proof fn law_which_responses_are_planned(pending: PendingView, head: Seq<u8>)
    ensures
        parse_response(head) matches Err(e) ==> plan_response_head(pending, head) == Err::<
            ResponsePlanView,
            ErrorView,
        >(e),
        parse_response(head) matches Ok(response) ==> match response_body_mode(
            pending.method,
            response.status,
            response.headers,
        ) {
            Ok(_) => plan_response_head(pending, head) is Ok && plan_response_head(pending, head)
                == plan_response(pending, response),
            Err(e) => plan_response_head(pending, head) == Err::<ResponsePlanView, ErrorView>(e),
        },
{
}

} // verus!
