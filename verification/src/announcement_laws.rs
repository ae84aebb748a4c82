//! What the fields of a message announce: where its body ends and whether its sender goes on.

use vstd::prelude::*;

use crate::error::{invalid, ErrorView};
use crate::framing::{
    content_length, elements, has_empty, is_chunked, named_lengths, request_body_mode,
    response_body_mode, should_keep_alive, BodyMode,
};
use crate::header::{headers_have_token, value_has_token, FieldView};
use crate::header_laws::law_tokens_stand_in_any_field;
use crate::number::{decimal, number_error_text, parse_number, NumberError};
use crate::number_laws::{
    law_decimal_digits_are_read, law_what_was_read_fits, law_written_numbers_are_worth_themselves,
};
use crate::text::{ascii_lower, same_ignoring_case, split, trim};
use crate::text_laws::{law_cutting_a_joined_text, law_matching_is_by_lower_case, lower_case};

verus! {

// ---------------------------------------------------------------------------------------------
// Content-Length
// ---------------------------------------------------------------------------------------------

/// Whether field `i` is a Content-Length field and `k` one of the places between its commas.
pub open spec fn is_length_at(list: Seq<FieldView>, i: int, k: int) -> bool {
    &&& 0 <= i < list.len()
    &&& lower_case(list[i].name) == "content-length"@
    &&& 0 <= k < split(list[i].value, ',').len()
}

/// What stands at place `k` of field `i`, without the white space round it.
pub open spec fn length_at(list: Seq<FieldView>, i: int, k: int) -> Seq<char> {
    trim(split(list[i].value, ',')[k])
}

proof fn lemma_is_length_name(name: Seq<char>)
    ensures
        same_ignoring_case(name, "content-length"@) <==> lower_case(name) == "content-length"@,
{
    reveal_strlit("content-length");
    law_matching_is_by_lower_case(name, "content-length"@);
}

proof fn lemma_split_is_never_empty(s: Seq<char>, c: char)
    ensures
        split(s, c).len() > 0,
{
}

proof fn lemma_length_is_named(list: Seq<FieldView>, i: int, k: int)
    requires
        is_length_at(list, i, k),
    ensures
        named_lengths(list).contains(length_at(list, i, k)),
    decreases list.len(),
{
    lemma_is_length_name(list.last().name);
    let named = named_lengths(list);
    let shorter = list.drop_last();
    let front = named_lengths(shorter);
    if i == list.len() - 1 {
        assert(named == front + elements(list.last().value));
        assert(elements(list.last().value)[k] == length_at(list, i, k));
        assert(named[front.len() + k] == length_at(list, i, k));
    } else {
        assert(shorter[i] == list[i]);
        lemma_length_is_named(shorter, i, k);
        let j = choose|j: int| 0 <= j < front.len() && front[j] == length_at(shorter, i, k);
        assert(named[j] == front[j]);
    }
}

proof fn lemma_named_length_is_somewhere(list: Seq<FieldView>, j: int) -> (place: (int, int))
    requires
        0 <= j < named_lengths(list).len(),
    ensures
        is_length_at(list, place.0, place.1),
        length_at(list, place.0, place.1) == named_lengths(list)[j],
    decreases list.len(),
{
    lemma_is_length_name(list.last().name);
    let shorter = list.drop_last();
    let front = named_lengths(shorter);
    if j >= front.len() {
        assert(named_lengths(list) == front + elements(list.last().value));
        (list.len() - 1, j - front.len())
    } else {
        let place = lemma_named_length_is_somewhere(shorter, j);
        assert(named_lengths(list)[j] == front[j]);
        assert(list[place.0] == shorter[place.0]);
        place
    }
}

/// A length is announced exactly if there is a Content-Length field.
pub proof fn law_a_length_needs_a_field(list: Seq<FieldView>)
    ensures
        content_length(list) == Ok::<Option<u64>, ErrorView>(None) <==> forall|i: int|
            0 <= i < list.len() ==> lower_case((#[trigger] list[i]).name) != "content-length"@,
{
    let named = named_lengths(list);
    if named.len() > 0 {
        let place = lemma_named_length_is_somewhere(list, 0);
        assert(lower_case(list[place.0].name) == "content-length"@);
    } else {
        assert forall|i: int| 0 <= i < list.len() implies lower_case((#[trigger] list[i]).name)
            != "content-length"@ by {
            if lower_case(list[i].name) == "content-length"@ {
                lemma_split_is_never_empty(list[i].value, ',');
                assert(is_length_at(list, i, 0));
                lemma_length_is_named(list, i, 0);
            }
        }
    }
}

/// A length that is announced once, or several times in the same words, is the length.
pub proof fn law_one_length_counts(
    list: Seq<FieldView>,
    word: Seq<char>,
    n: u64,
    field: int,
    place: int,
)
    requires
        is_length_at(list, field, place),
        forall|i: int, k: int|
            #[trigger] is_length_at(list, i, k) ==> length_at(list, i, k) == word,
        parse_number(word, 10, u64::MAX as nat) == Ok::<nat, NumberError>(n as nat),
    ensures
        content_length(list) == Ok::<Option<u64>, ErrorView>(Some(n)),
{
    let named = named_lengths(list);
    lemma_length_is_named(list, field, place);
    assert forall|j: int| 0 <= j < named.len() implies #[trigger] named[j] == word by {
        let at = lemma_named_length_is_somewhere(list, j);
        assert(is_length_at(list, at.0, at.1));
    }
    assert(word.len() > 0);
    assert(!has_empty(named));
}

/// A length that was read is what every Content-Length field says at every place.
pub proof fn law_a_length_that_was_read_is_the_only_one(list: Seq<FieldView>, n: u64)
    requires
        content_length(list) == Ok::<Option<u64>, ErrorView>(Some(n)),
    ensures
        exists|i: int, k: int| #[trigger] is_length_at(list, i, k),
        forall|i: int, k: int|
            #[trigger] is_length_at(list, i, k) ==> parse_number(
                length_at(list, i, k),
                10,
                u64::MAX as nat,
            ) == Ok::<nat, NumberError>(n as nat),
{
    let named = named_lengths(list);
    let place = lemma_named_length_is_somewhere(list, 0);
    assert(is_length_at(list, place.0, place.1));
    assert forall|i: int, k: int| #[trigger] is_length_at(list, i, k) implies parse_number(
        length_at(list, i, k),
        10,
        u64::MAX as nat,
    ) == Ok::<nat, NumberError>(n as nat) by {
        lemma_length_is_named(list, i, k);
        let j = choose|j: int| 0 <= j < named.len() && named[j] == length_at(list, i, k);
        assert(named[j] == named[0]);
        law_what_was_read_fits(named[0], 10, u64::MAX as nat);
    }
}

/// A length that is announced in the same words everywhere, but in words that are no number, is
/// refused for the reason why they are none.
pub proof fn law_a_length_has_to_be_a_number(
    list: Seq<FieldView>,
    word: Seq<char>,
    e: NumberError,
    field: int,
    place: int,
)
    requires
        is_length_at(list, field, place),
        forall|i: int, k: int|
            #[trigger] is_length_at(list, i, k) ==> length_at(list, i, k) == word,
        word.len() > 0,
        parse_number(word, 10, u64::MAX as nat) == Err::<nat, NumberError>(e),
    ensures
        content_length(list) == Err::<Option<u64>, ErrorView>(
            invalid("invalid Content-Length value: "@ + number_error_text(e)),
        ),
{
    let named = named_lengths(list);
    lemma_length_is_named(list, field, place);
    assert forall|j: int| 0 <= j < named.len() implies #[trigger] named[j] == word by {
        let at = lemma_named_length_is_somewhere(list, j);
        assert(is_length_at(list, at.0, at.1));
    }
    assert(!has_empty(named));
}

/// A place with nothing between its commas is refused as such, whatever else is announced, and
/// two lengths in different words are refused as a conflict where no place is empty.
pub proof fn law_lengths_that_cannot_be_are_refused(
    list: Seq<FieldView>,
    one: (int, int),
    other: (int, int),
)
    requires
        is_length_at(list, one.0, one.1),
        is_length_at(list, other.0, other.1),
    ensures
        length_at(list, one.0, one.1).len() == 0 ==> content_length(list) == Err::<
            Option<u64>,
            ErrorView,
        >(invalid("empty Content-Length value"@)),
        length_at(list, one.0, one.1) != length_at(list, other.0, other.1) && (forall|
            i: int,
            k: int,
        |
            #[trigger] is_length_at(list, i, k) ==> length_at(list, i, k).len() > 0)
            ==> content_length(list) == Err::<Option<u64>, ErrorView>(
            invalid("conflicting Content-Length values"@),
        ),
{
    let named = named_lengths(list);
    lemma_length_is_named(list, one.0, one.1);
    lemma_length_is_named(list, other.0, other.1);
    let a = choose|j: int| 0 <= j < named.len() && named[j] == length_at(list, one.0, one.1);
    let b = choose|j: int| 0 <= j < named.len() && named[j] == length_at(list, other.0, other.1);
    assert(named[a].len() == 0 ==> has_empty(named));
    if forall|i: int, k: int|
        #[trigger] is_length_at(list, i, k) ==> length_at(list, i, k).len() > 0 {
        assert forall|j: int| 0 <= j < named.len() implies (#[trigger] named[j]).len() > 0 by {
            let at = lemma_named_length_is_somewhere(list, j);
            assert(is_length_at(list, at.0, at.1));
        }
        assert(named[a] != named[0] || named[b] != named[0] || named[a] == named[b]);
    }
}

// ---------------------------------------------------------------------------------------------
// Bodies
// ---------------------------------------------------------------------------------------------

/// Whether the fields name the chunked transfer coding.
pub open spec fn names_chunked(list: Seq<FieldView>) -> bool {
    exists|i: int|
        0 <= i < list.len() && lower_case((#[trigger] list[i]).name) == "transfer-encoding"@
            && value_has_token(list[i].value, "chunked"@)
}

proof fn lemma_names_chunked(list: Seq<FieldView>)
    ensures
        is_chunked(list) <==> names_chunked(list),
{
    reveal_strlit("transfer-encoding");
    assert forall|i: int| 0 <= i < list.len() implies (same_ignoring_case(
        (#[trigger] list[i]).name,
        "transfer-encoding"@,
    ) <==> lower_case(list[i].name) == "transfer-encoding"@) by {
        law_matching_is_by_lower_case(list[i].name, "transfer-encoding"@);
    }
    if is_chunked(list) {
        let i = choose|i: int|
            0 <= i < list.len() && same_ignoring_case(
                (#[trigger] list[i]).name,
                "transfer-encoding"@,
            ) && value_has_token(list[i].value, "chunked"@);
        assert(lower_case(list[i].name) == "transfer-encoding"@);
    }
    if names_chunked(list) {
        let i = choose|i: int|
            0 <= i < list.len() && lower_case((#[trigger] list[i]).name) == "transfer-encoding"@
                && value_has_token(list[i].value, "chunked"@);
        assert(same_ignoring_case(list[i].name, "transfer-encoding"@));
    }
}

proof fn lemma_is_head(method: Seq<char>)
    ensures
        same_ignoring_case(method, "HEAD"@) <==> lower_case(method) == "head"@,
{
    reveal_strlit("HEAD");
    reveal_strlit("head");
    law_matching_is_by_lower_case(method, "head"@);
    assert forall|i: int| 0 <= i < 4 implies ascii_lower("HEAD"@[i]) == ascii_lower("head"@[i]) by {
        assert(i == 0 || i == 1 || i == 2 || i == 3);
    }
    if same_ignoring_case(method, "HEAD"@) {
        assert forall|i: int| 0 <= i < method.len() implies ascii_lower(#[trigger] method[i])
            == ascii_lower("head"@[i]) by {
            assert(ascii_lower(method[i]) == ascii_lower("HEAD"@[i]));
        }
    }
    if same_ignoring_case(method, "head"@) {
        assert forall|i: int| 0 <= i < method.len() implies ascii_lower(#[trigger] method[i])
            == ascii_lower("HEAD"@[i]) by {
            assert(ascii_lower(method[i]) == ascii_lower("head"@[i]));
        }
    }
}

/// A response has the body that its fields announce unless it answers HEAD or its status is in
/// 100..200, 204 or 304: chunks where they name the chunked coding, otherwise as many bytes as
/// Content-Length says, and without a Content-Length everything until the connection closes.
pub proof fn law_a_response_has_the_body_it_announces(
    method: Seq<char>,
    status: u16,
    list: Seq<FieldView>,
)
    requires
        lower_case(method) != "head"@,
        !(100 <= status < 200),
        status != 204,
        status != 304,
    ensures
        names_chunked(list) ==> response_body_mode(method, status, list) == Ok::<
            BodyMode,
            ErrorView,
        >(BodyMode::Chunked),
        !names_chunked(list) ==> (content_length(list) matches Ok(Some(n)) ==> response_body_mode(
            method,
            status,
            list,
        ) == Ok::<BodyMode, ErrorView>(BodyMode::ContentLength(n))),
        !names_chunked(list) && (forall|i: int|
            0 <= i < list.len() ==> lower_case((#[trigger] list[i]).name) != "content-length"@)
            ==> response_body_mode(method, status, list) == Ok::<BodyMode, ErrorView>(
            BodyMode::UntilClose,
        ),
        !names_chunked(list) && content_length(list) is Err ==> response_body_mode(
            method,
            status,
            list,
        ) == Err::<BodyMode, ErrorView>(content_length(list)->Err_0),
{
    lemma_is_head(method);
    lemma_names_chunked(list);
    law_a_length_needs_a_field(list);
}

/// A response that answers HEAD, or whose status is in 100..200, 204 or 304, has no body whatever
/// its fields say.
pub proof fn law_some_responses_have_no_body(
    method: Seq<char>,
    status: u16,
    list: Seq<FieldView>,
)
    requires
        lower_case(method) == "head"@ || 100 <= status < 200 || status == 204 || status == 304,
    ensures
        response_body_mode(method, status, list) == Ok::<BodyMode, ErrorView>(BodyMode::Empty),
{
    lemma_is_head(method);
}

/// A request has the body that its fields announce: chunks where they name the chunked coding,
/// otherwise as many bytes as Content-Length says, and without a Content-Length none.
pub proof fn law_a_request_has_the_body_it_announces(list: Seq<FieldView>)
    ensures
        names_chunked(list) ==> request_body_mode(list) == Ok::<BodyMode, ErrorView>(
            BodyMode::Chunked,
        ),
        !names_chunked(list) ==> (content_length(list) matches Ok(Some(n)) ==> request_body_mode(
            list,
        ) == Ok::<BodyMode, ErrorView>(BodyMode::ContentLength(n))),
        !names_chunked(list) && (forall|i: int|
            0 <= i < list.len() ==> lower_case((#[trigger] list[i]).name) != "content-length"@)
            ==> request_body_mode(list) == Ok::<BodyMode, ErrorView>(BodyMode::Empty),
        !names_chunked(list) && content_length(list) is Err ==> request_body_mode(list) == Err::<
            BodyMode,
            ErrorView,
        >(content_length(list)->Err_0),
{
    lemma_names_chunked(list);
    law_a_length_needs_a_field(list);
}

/// A message with one Content-Length field that holds a number in decimal, and no field that
/// names a transfer coding, has a body of that many bytes, whatever its other fields are.
pub proof fn law_a_plain_length_is_the_length(
    list: Seq<FieldView>,
    field: int,
    n: u64,
    method: Seq<char>,
    status: u16,
)
    requires
        0 <= field < list.len(),
        lower_case(list[field].name) == "content-length"@,
        trim(list[field].value) == decimal(n as nat),
        !list[field].value.contains(','),
        forall|i: int|
            0 <= i < list.len() && i != field ==> lower_case((#[trigger] list[i]).name)
                != "content-length"@,
        forall|i: int|
            0 <= i < list.len() ==> lower_case((#[trigger] list[i]).name) != "transfer-encoding"@,
        lower_case(method) != "head"@,
        !(100 <= status < 200),
        status != 204,
        status != 304,
    ensures
        request_body_mode(list) == Ok::<BodyMode, ErrorView>(BodyMode::ContentLength(n)),
        response_body_mode(method, status, list) == Ok::<BodyMode, ErrorView>(
            BodyMode::ContentLength(n),
        ),
{
    let word = decimal(n as nat);
    let value = list[field].value;
    law_cutting_a_joined_text(value, value, ',');
    assert(split(value, ',') == seq![value]);
    assert(is_length_at(list, field, 0));
    law_written_numbers_are_worth_themselves(n as nat);
    law_decimal_digits_are_read(word, u64::MAX as nat);
    law_one_length_counts(list, word, n, field, 0);
    law_a_request_has_the_body_it_announces(list);
    law_a_response_has_the_body_it_announces(method, status, list);
}

// ---------------------------------------------------------------------------------------------
// Going on
// ---------------------------------------------------------------------------------------------

proof fn lemma_is_old_version(version: Seq<char>)
    ensures
        same_ignoring_case(version, "HTTP/1.0"@) <==> lower_case(version) == "http/1.0"@,
{
    reveal_strlit("HTTP/1.0");
    reveal_strlit("http/1.0");
    law_matching_is_by_lower_case(version, "http/1.0"@);
    assert forall|i: int| 0 <= i < 8 implies ascii_lower("HTTP/1.0"@[i]) == ascii_lower(
        "http/1.0"@[i],
    ) by {
        assert(i == 0 || i == 1 || i == 2 || i == 3 || i == 4 || i == 5 || i == 6 || i == 7);
    }
    if same_ignoring_case(version, "HTTP/1.0"@) {
        assert forall|i: int| 0 <= i < version.len() implies ascii_lower(#[trigger] version[i])
            == ascii_lower("http/1.0"@[i]) by {
            assert(ascii_lower(version[i]) == ascii_lower("HTTP/1.0"@[i]));
        }
    }
    if same_ignoring_case(version, "http/1.0"@) {
        assert forall|i: int| 0 <= i < version.len() implies ascii_lower(#[trigger] version[i])
            == ascii_lower("HTTP/1.0"@[i]) by {
            assert(ascii_lower(version[i]) == ascii_lower("http/1.0"@[i]));
        }
    }
}

/// Whether some Connection field holds a token.
pub open spec fn connection_says(list: Seq<FieldView>, token: Seq<char>) -> bool {
    exists|i: int|
        0 <= i < list.len() && lower_case((#[trigger] list[i]).name) == "connection"@
            && value_has_token(list[i].value, token)
}

proof fn lemma_connection_says(list: Seq<FieldView>, token: Seq<char>)
    ensures
        headers_have_token(list, "connection"@, token) <==> connection_says(list, token),
{
    reveal_strlit("connection");
    assert forall|i: int| 0 <= i < list.len() implies (same_ignoring_case(
        (#[trigger] list[i]).name,
        "connection"@,
    ) <==> lower_case(list[i].name) == "connection"@) by {
        law_matching_is_by_lower_case(list[i].name, "connection"@);
    }
    if headers_have_token(list, "connection"@, token) {
        let i = choose|i: int|
            0 <= i < list.len() && same_ignoring_case((#[trigger] list[i]).name, "connection"@)
                && value_has_token(list[i].value, token);
        assert(lower_case(list[i].name) == "connection"@);
    }
    if connection_says(list, token) {
        let i = choose|i: int|
            0 <= i < list.len() && lower_case((#[trigger] list[i]).name) == "connection"@
                && value_has_token(list[i].value, token);
        assert(same_ignoring_case(list[i].name, "connection"@));
    }
}

/// A sender that says close ends the connection. One that does not goes on, except that one of
/// HTTP/1.0 has to say keep-alive for that.
pub proof fn law_who_says_close_ends_the_connection(version: Seq<char>, list: Seq<FieldView>)
    ensures
        connection_says(list, "close"@) ==> !should_keep_alive(version, list),
        !connection_says(list, "close"@) && lower_case(version) != "http/1.0"@
            ==> should_keep_alive(version, list),
        !connection_says(list, "close"@) && lower_case(version) == "http/1.0"@ ==> (
        should_keep_alive(version, list) <==> connection_says(list, "keep-alive"@)),
{
    lemma_is_old_version(version);
    lemma_connection_says(list, "close"@);
    lemma_connection_says(list, "keep-alive"@);
}

/// No field but Connection has a say in whether the connection goes on.
pub proof fn law_other_fields_do_not_end_the_connection(
    version: Seq<char>,
    list: Seq<FieldView>,
    field: FieldView,
)
    requires
        lower_case(field.name) != "connection"@,
    ensures
        should_keep_alive(version, list.push(field)) == should_keep_alive(version, list),
{
    reveal_strlit("connection");
    law_matching_is_by_lower_case(field.name, "connection"@);
    law_tokens_stand_in_any_field(list, field, "connection"@, "close"@);
    law_tokens_stand_in_any_field(list, field, "connection"@, "keep-alive"@);
}

} // verus!
