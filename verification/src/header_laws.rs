//! How header fields are read, found and taken away.

use vstd::prelude::*;

use crate::error::{invalid, ErrorView};
use crate::header::{
    header_value, headers_have_token, is_removed_request_header, is_removed_response_header,
    line_field, parse_fields, value_has_token, FieldView,
};
use crate::text::{is_white_space, lemma_before_is, same_ignoring_case, split, trim};
use crate::text_laws::{
    is_blank, is_trimmed, law_cutting_a_joined_text, law_matching_is_by_lower_case,
    law_trimming_takes_white_space_alone, lower_case,
};

verus! {

// ---------------------------------------------------------------------------------------------
// Reading
// ---------------------------------------------------------------------------------------------

/// A line with a name, a colon and a value, and white space round either or none, is a field with
/// that name and value. The first colon counts.
pub proof fn law_a_field_line_is_read(
    name: Seq<char>,
    value: Seq<char>,
    blanks: (Seq<char>, Seq<char>, Seq<char>, Seq<char>),
    rest: Seq<Seq<char>>,
)
    requires
        is_trimmed(name),
        !name.contains(':'),
        is_trimmed(value),
        is_blank(blanks.0),
        is_blank(blanks.1),
        is_blank(blanks.2),
        is_blank(blanks.3),
    ensures
        ({
            let line = blanks.0 + name + blanks.1 + seq![':'] + (blanks.2 + value + blanks.3);
            parse_fields(seq![line] + rest) == match parse_fields(rest) {
                Ok(more) => Ok::<Seq<FieldView>, ErrorView>(
                    seq![FieldView { name, value }] + more,
                ),
                Err(e) => Err(e),
            }
        }),
{
    let front = blanks.0 + name + blanks.1;
    let back = blanks.2 + value + blanks.3;
    let line = front + seq![':'] + back;
    let n = front.len() as int;
    assert forall|i: int| 0 <= i < n implies line[i] != ':' by {
        if i < blanks.0.len() {
            assert(is_white_space(blanks.0[i]));
            assert(line[i] == blanks.0[i]);
        } else if i < blanks.0.len() + name.len() {
            assert(line[i] == name[i - blanks.0.len()]);
            assert(name.contains(name[i - blanks.0.len()]));
        } else {
            assert(is_white_space(blanks.1[i - blanks.0.len() - name.len()]));
            assert(line[i] == blanks.1[i - blanks.0.len() - name.len()]);
        }
    }
    assert(line[n] == ':');
    lemma_before_is(line, ':', n);
    assert(line.take(n) =~= front);
    assert(line.skip(n + 1) =~= back);
    law_trimming_takes_white_space_alone(blanks.0, name, blanks.1);
    law_trimming_takes_white_space_alone(blanks.2, value, blanks.3);
    assert(line_field(line) == FieldView { name, value });
    assert((seq![line] + rest).drop_first() =~= rest);
    assert(line.contains(':'));
}

/// The fields end at the first empty line or with the lines; a line without a colon is refused.
pub proof fn law_where_fields_end(line: Seq<char>, rest: Seq<Seq<char>>)
    ensures
        parse_fields(Seq::empty()) == Ok::<Seq<FieldView>, ErrorView>(Seq::empty()),
        line.len() == 0 ==> parse_fields(seq![line] + rest) == Ok::<Seq<FieldView>, ErrorView>(
            Seq::empty(),
        ),
        line.len() > 0 && !line.contains(':') ==> parse_fields(seq![line] + rest) == Err::<
            Seq<FieldView>,
            ErrorView,
        >(invalid("invalid HTTP header line"@)),
{
    assert((seq![line] + rest)[0] == line);
}

// ---------------------------------------------------------------------------------------------
// Looking up
// ---------------------------------------------------------------------------------------------

/// The first field whose name matches counts, and there is a value exactly if some name matches.
pub proof fn law_the_first_field_counts(list: Seq<FieldView>, name: Seq<char>)
    ensures
        header_value(list, name) is None <==> forall|i: int|
            0 <= i < list.len() ==> !same_ignoring_case((#[trigger] list[i]).name, name),
        forall|i: int|
            0 <= i < list.len() && same_ignoring_case((#[trigger] list[i]).name, name) && (forall|
                j: int,
            |
                0 <= j < i ==> !same_ignoring_case((#[trigger] list[j]).name, name))
                ==> header_value(list, name) == Some(list[i].value),
    decreases list.len(),
{
    if list.len() > 0 {
        let rest = list.drop_first();
        law_the_first_field_counts(rest, name);
        if same_ignoring_case(list[0].name, name) {
            assert forall|i: int|
                0 <= i < list.len() && same_ignoring_case((#[trigger] list[i]).name, name) && (
                forall|j: int|
                    0 <= j < i ==> !same_ignoring_case(
                        (#[trigger] list[j]).name,
                        name,
                    )) implies header_value(list, name) == Some(list[i].value) by {
                if i > 0 {
                    assert(!same_ignoring_case(list[0].name, name));
                }
            }
        } else {
            assert forall|i: int|
                0 <= i < list.len() && same_ignoring_case((#[trigger] list[i]).name, name) && (
                forall|j: int|
                    0 <= j < i ==> !same_ignoring_case(
                        (#[trigger] list[j]).name,
                        name,
                    )) implies header_value(list, name) == Some(list[i].value) by {
                assert(rest[i - 1] == list[i]);
                assert forall|j: int| 0 <= j < i - 1 implies !same_ignoring_case(
                    (#[trigger] rest[j]).name,
                    name,
                ) by {
                    assert(rest[j] == list[j + 1]);
                }
            }
            if header_value(list, name) is None {
                assert forall|i: int| 0 <= i < list.len() implies !same_ignoring_case(
                    (#[trigger] list[i]).name,
                    name,
                ) by {
                    if i > 0 {
                        assert(rest[i - 1] == list[i]);
                    }
                }
            } else {
                let i = choose|i: int|
                    0 <= i < rest.len() && same_ignoring_case((#[trigger] rest[i]).name, name);
                assert(list[i + 1] == rest[i]);
            }
        }
    }
}

/// A value is searched for a token piece by piece: a piece without a comma is the token, in
/// either case and with white space round it or not, or it is not.
pub proof fn law_tokens_stand_between_commas(a: Seq<char>, b: Seq<char>, token: Seq<char>)
    ensures
        value_has_token(a + seq![','] + b, token) <==> value_has_token(a, token) || value_has_token(
            b,
            token,
        ),
        !a.contains(',') ==> (value_has_token(a, token) <==> same_ignoring_case(trim(a), token)),
{
    law_cutting_a_joined_text(a, b, ',');
    let whole = split(a + seq![','] + b, ',');
    let left = split(a, ',');
    let right = split(b, ',');
    if value_has_token(a, token) {
        let j = choose|j: int|
            0 <= j < left.len() && same_ignoring_case(trim(#[trigger] left[j]), token);
        assert(whole[j] == left[j]);
    }
    if value_has_token(b, token) {
        let j = choose|j: int|
            0 <= j < right.len() && same_ignoring_case(trim(#[trigger] right[j]), token);
        assert(whole[left.len() + j] == right[j]);
    }
    if value_has_token(a + seq![','] + b, token) {
        let j = choose|j: int|
            0 <= j < whole.len() && same_ignoring_case(trim(#[trigger] whole[j]), token);
        if j < left.len() {
            assert(left[j] == whole[j]);
        } else {
            assert(right[j - left.len()] == whole[j]);
        }
    }
    if !a.contains(',') {
        assert(left[0] == a);
    }
}

/// Fields are searched for a token one by one: only those whose name matches count, and each of
/// those counts.
pub proof fn law_tokens_stand_in_any_field(
    list: Seq<FieldView>,
    field: FieldView,
    name: Seq<char>,
    token: Seq<char>,
)
    ensures
        !headers_have_token(Seq::empty(), name, token),
        headers_have_token(list.push(field), name, token) <==> headers_have_token(list, name, token)
            || (same_ignoring_case(field.name, name) && value_has_token(field.value, token)),
{
    let longer = list.push(field);
    if headers_have_token(list, name, token) {
        let i = choose|i: int|
            0 <= i < list.len() && same_ignoring_case((#[trigger] list[i]).name, name)
                && value_has_token(list[i].value, token);
        assert(longer[i] == list[i]);
    }
    if same_ignoring_case(field.name, name) && value_has_token(field.value, token) {
        assert(longer[list.len() as int] == field);
    }
    if headers_have_token(longer, name, token) {
        let i = choose|i: int|
            0 <= i < longer.len() && same_ignoring_case((#[trigger] longer[i]).name, name)
                && value_has_token(longer[i].value, token);
        if i < list.len() {
            assert(list[i] == longer[i]);
        }
    }
}

// ---------------------------------------------------------------------------------------------
// Fields that concern only one hop
// ---------------------------------------------------------------------------------------------

/// A request field is taken away exactly if its name in lower case is connection,
/// proxy-connection, proxy-authorization, keep-alive or upgrade.
pub proof fn law_request_fields_that_are_taken_away(name: Seq<char>)
    ensures
        is_removed_request_header(name) <==> {
            ||| lower_case(name) == "connection"@
            ||| lower_case(name) == "proxy-connection"@
            ||| lower_case(name) == "proxy-authorization"@
            ||| lower_case(name) == "keep-alive"@
            ||| lower_case(name) == "upgrade"@
        },
{
    reveal_strlit("connection");
    reveal_strlit("proxy-connection");
    reveal_strlit("proxy-authorization");
    reveal_strlit("keep-alive");
    reveal_strlit("upgrade");
    law_matching_is_by_lower_case(name, "connection"@);
    law_matching_is_by_lower_case(name, "proxy-connection"@);
    law_matching_is_by_lower_case(name, "proxy-authorization"@);
    law_matching_is_by_lower_case(name, "keep-alive"@);
    law_matching_is_by_lower_case(name, "upgrade"@);
}

/// A response field is taken away exactly if its name in lower case is connection,
/// proxy-connection, proxy-authenticate, keep-alive or upgrade.
pub proof fn law_response_fields_that_are_taken_away(name: Seq<char>)
    ensures
        is_removed_response_header(name) <==> {
            ||| lower_case(name) == "connection"@
            ||| lower_case(name) == "proxy-connection"@
            ||| lower_case(name) == "proxy-authenticate"@
            ||| lower_case(name) == "keep-alive"@
            ||| lower_case(name) == "upgrade"@
        },
{
    reveal_strlit("connection");
    reveal_strlit("proxy-connection");
    reveal_strlit("proxy-authenticate");
    reveal_strlit("keep-alive");
    reveal_strlit("upgrade");
    law_matching_is_by_lower_case(name, "connection"@);
    law_matching_is_by_lower_case(name, "proxy-connection"@);
    law_matching_is_by_lower_case(name, "proxy-authenticate"@);
    law_matching_is_by_lower_case(name, "keep-alive"@);
    law_matching_is_by_lower_case(name, "upgrade"@);
}

} // verus!
