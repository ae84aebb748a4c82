//! Passing a message on does not change where its body ends.

use vstd::prelude::*;
use vstd::utf8::encode_utf8;

use crate::framing::{is_chunked, named_lengths, request_body_mode, response_body_mode};
use crate::header::{
    is_removed_request_header, is_removed_response_header, value_has_token, FieldView,
};
use crate::message::{
    client_fields, forward_fields, forward_request_text, kept_request_fields,
    kept_response_fields, parse_request, RequestView,
};
use crate::message_laws::{are_writable, law_a_built_request_head_reads_back};
use crate::text::{same_ignoring_case, trim};
use crate::text_laws::{is_line, is_word};

verus! {

/// Whether a field has a say in where a body ends.
pub open spec fn is_framing(field: FieldView) -> bool {
    same_ignoring_case(field.name, "content-length"@) || same_ignoring_case(
        field.name,
        "transfer-encoding"@,
    )
}

/// Fields without a say can be taken away.
proof fn lemma_filter_keeps_the_framing(list: Seq<FieldView>, passes: spec_fn(FieldView) -> bool)
    requires
        forall|f: FieldView| #[trigger] is_framing(f) ==> passes(f),
    ensures
        named_lengths(list.filter(passes)) == named_lengths(list),
        is_chunked(list.filter(passes)) == is_chunked(list),
    decreases list.len(),
{
    let kept = list.filter(passes);
    if list.len() > 0 {
        let rest = list.drop_last();
        reveal(Seq::filter);
        lemma_filter_keeps_the_framing(rest, passes);
        if passes(list.last()) {
            assert(kept.drop_last() =~= rest.filter(passes));
        } else {
            assert(!is_framing(list.last()));
        }
    } else {
        reveal(Seq::filter);
    }
    let name = "transfer-encoding"@;
    let token = "chunked"@;
    if is_chunked(list) {
        let i = choose|i: int|
            0 <= i < list.len() && same_ignoring_case((#[trigger] list[i]).name, name)
                && value_has_token(list[i].value, token);
        assert(is_framing(list[i]));
        list.lemma_filter_contains(passes, i);
        let j = choose|j: int| 0 <= j < kept.len() && kept[j] == list[i];
        assert(same_ignoring_case(kept[j].name, name));
    }
    if is_chunked(kept) {
        let j = choose|j: int|
            0 <= j < kept.len() && same_ignoring_case((#[trigger] kept[j]).name, name)
                && value_has_token(kept[j].value, token);
        assert(kept.contains(kept[j]));
        list.lemma_filter_contains_rev(passes, kept[j]);
        let i = choose|i: int| 0 <= i < list.len() && list[i] == kept[j];
        assert(same_ignoring_case(list[i].name, name));
    }
}

/// A field without a say can be added.
proof fn lemma_push_keeps_the_framing(list: Seq<FieldView>, field: FieldView)
    requires
        !is_framing(field),
    ensures
        named_lengths(list.push(field)) == named_lengths(list),
        is_chunked(list.push(field)) == is_chunked(list),
{
    let longer = list.push(field);
    let name = "transfer-encoding"@;
    let token = "chunked"@;
    assert(longer.drop_last() =~= list);
    if is_chunked(list) {
        let i = choose|i: int|
            0 <= i < list.len() && same_ignoring_case((#[trigger] list[i]).name, name)
                && value_has_token(list[i].value, token);
        assert(same_ignoring_case(longer[i].name, name));
    }
    if is_chunked(longer) {
        let i = choose|i: int|
            0 <= i < longer.len() && same_ignoring_case((#[trigger] longer[i]).name, name)
                && value_has_token(longer[i].value, token);
        assert(same_ignoring_case(list[i].name, name));
    }
}

/// Neither the fields that are taken away nor those that are added have a say.
proof fn lemma_changed_fields_have_no_say(value: Seq<char>)
    ensures
        forall|f: FieldView| #[trigger] is_framing(f) ==> !is_removed_request_header(f.name),
        forall|f: FieldView| #[trigger] is_framing(f) ==> !is_removed_response_header(f.name),
        !is_framing(FieldView { name: "Host"@, value }),
        !is_framing(FieldView { name: "Connection"@, value }),
{
    reveal_strlit("content-length");
    reveal_strlit("transfer-encoding");
    reveal_strlit("connection");
    reveal_strlit("proxy-connection");
    reveal_strlit("proxy-authorization");
    reveal_strlit("proxy-authenticate");
    reveal_strlit("keep-alive");
    reveal_strlit("upgrade");
    reveal_strlit("Host");
    reveal_strlit("Connection");
}

/// The fields that the upstream server gets announce the same body as those that the client sent,
/// or are as wrong.
pub proof fn law_forwarding_keeps_the_framing_of_a_request(
    list: Seq<FieldView>,
    address: Seq<char>,
)
    ensures
        request_body_mode(forward_fields(list, address)) == request_body_mode(list),
{
    let kept = kept_request_fields(list);
    let passes = |f: FieldView| !is_removed_request_header(f.name);
    let host = FieldView { name: "Host"@, value: address };
    lemma_changed_fields_have_no_say(address);
    lemma_changed_fields_have_no_say("close"@);
    lemma_filter_keeps_the_framing(list, passes);
    lemma_push_keeps_the_framing(kept, host);
    let close = FieldView { name: "Connection"@, value: "close"@ };
    lemma_push_keeps_the_framing(kept, close);
    lemma_push_keeps_the_framing(kept.push(host), close);
}

/// The fields that the client gets announce the same body as those that the server sent, or are
/// as wrong.
pub proof fn law_forwarding_keeps_the_framing_of_a_response(
    method: Seq<char>,
    status: u16,
    list: Seq<FieldView>,
    keep_alive: bool,
)
    ensures
        response_body_mode(method, status, client_fields(list, keep_alive)) == response_body_mode(
            method,
            status,
            list,
        ),
{
    let kept = kept_response_fields(list);
    let passes = |f: FieldView| !is_removed_response_header(f.name);
    let value = if keep_alive {
        "keep-alive"@
    } else {
        "close"@
    };
    lemma_changed_fields_have_no_say(value);
    lemma_filter_keeps_the_framing(list, passes);
    lemma_push_keeps_the_framing(kept, FieldView { name: "Connection"@, value });
}

/// Whoever reads the head that was built for a request finds the body that the request announced,
/// or is as wrong about it.
pub proof fn law_a_built_request_head_announces_the_same_body(
    request: RequestView,
    path: Seq<char>,
    address: Seq<char>,
)
    requires
        is_word(request.method),
        is_word(path),
        is_word(request.version),
        are_writable(request.headers),
        is_line(address),
    ensures
        parse_request(encode_utf8(forward_request_text(request, path, address))) matches Ok(again)
            && request_body_mode(again.headers) == request_body_mode(request.headers),
{
    law_a_built_request_head_reads_back(request, path, address);
    law_forwarding_keeps_the_framing_of_a_request(request.headers, trim(address));
}

} // verus!
