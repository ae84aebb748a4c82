//! HTTP header fields: parsing them and looking them up.

use vstd::prelude::*;
use vstd::slice::slice_subrange;

use crate::error::{invalid, invalidData, ErrorView, ProxyError};
use crate::text::{
    ascii_lower, before, charsOf, eqIgnoreAsciiCase, lemma_before, positionOf, sameIgnoringCase,
    same_ignoring_case, split, splitAt, stringOf, texts, trim, trimmed,
};

verus! {

/// One header field, name and value as they were sent.
#[derive(Debug)]
pub struct HeaderField {
    pub headerName: String,
    pub headerValue: String,
}

/// A header field as contracts see it.
pub struct FieldView {
    pub name: Seq<char>,
    pub value: Seq<char>,
}

impl View for HeaderField {
    type V = FieldView;

    open spec fn view(&self) -> FieldView {
        FieldView { name: self.headerName@, value: self.headerValue@ }
    }
}

impl Clone for HeaderField {
    fn clone(&self) -> (copy: Self)
        ensures
            copy@ == self@,
    {
        HeaderField {
            headerName: self.headerName.clone(),
            headerValue: self.headerValue.clone(),
        }
    }
}

/// Header fields as contracts see them.
pub open spec fn fields(headers: Seq<HeaderField>) -> Seq<FieldView> {
    headers.map_values(|h: HeaderField| h@)
}

// ---------------------------------------------------------------------------------------------
// Parsing
// ---------------------------------------------------------------------------------------------

/// The field on a line that holds a colon: the first colon separates name and value, and the
/// white space round both is dropped.
pub open spec fn line_field(line: Seq<char>) -> FieldView {
    let n = before(line, ':') as int;
    FieldView { name: trim(line.take(n)), value: trim(line.skip(n + 1)) }
}

/// The fields on the lines up to the first empty one. A line without a colon is refused.
pub open spec fn parse_fields(lines: Seq<Seq<char>>) -> Result<Seq<FieldView>, ErrorView>
    decreases lines.len(),
{
    if lines.len() == 0 || lines[0].len() == 0 {
        Ok(Seq::empty())
    } else if !lines[0].contains(':') {
        Err(invalid("invalid HTTP header line"@))
    } else {
        match parse_fields(lines.drop_first()) {
            Ok(rest) => Ok(seq![line_field(lines[0])] + rest),
            Err(e) => Err(e),
        }
    }
}

/// A text holds a character exactly if the search for it ends before the end.
pub proof fn lemma_contains_is_before(s: Seq<char>, c: char)
    ensures
        s.contains(c) <==> before(s, c) < s.len(),
{
    lemma_before(s, c);
    if s.contains(c) {
        let i = choose|i: int| 0 <= i < s.len() && s[i] == c;
        assert(s[i] == c);
    }
}

/// Parses header lines up to the first empty one.
pub fn parseHeaderFields(lines: &[String]) -> (r: Result<Vec<HeaderField>, ProxyError>)
    ensures
        match r {
            Ok(headers) => parse_fields(texts(lines@)) == Ok::<Seq<FieldView>, ErrorView>(
                fields(headers@),
            ),
            Err(e) => parse_fields(texts(lines@)) == Err::<Seq<FieldView>, ErrorView>(e@),
        },
{
    let mut headers: Vec<HeaderField> = Vec::new();
    let ghost all = texts(lines@);
    assert(all.skip(0) =~= all);
    let mut i: usize = 0;
    while i < lines.len()
        invariant
            i <= lines.len(),
            all == texts(lines@),
            match parse_fields(all.skip(i as int)) {
                Ok(rest) => parse_fields(all) == Ok::<Seq<FieldView>, ErrorView>(
                    fields(headers@) + rest,
                ),
                Err(e) => parse_fields(all) == Err::<Seq<FieldView>, ErrorView>(e),
            },
        decreases lines.len() - i,
    {
        let ghost rest = all.skip(i as int);
        let ghost parsed = fields(headers@);
        assert(rest[0] == lines@[i as int]@);
        assert(rest.drop_first() =~= all.skip(i + 1));
        let line = charsOf(&lines[i]);
        if line.len() == 0 {
            assert(parsed + Seq::<FieldView>::empty() =~= parsed);
            return Ok(headers);
        }
        let colon = positionOf(&line, ':');
        proof {
            lemma_contains_is_before(line@, ':');
        }
        if colon >= line.len() {
            return Err(invalidData("invalid HTTP header line"));
        }
        let headerName = stringOf(trimmed(slice_subrange(&line, 0, colon)));
        let headerValue = stringOf(trimmed(slice_subrange(&line, colon + 1, line.len())));
        assert(line@.subrange(0, colon as int) =~= line@.take(colon as int));
        assert(line@.subrange(colon + 1, line@.len() as int) =~= line@.skip(colon + 1));
        headers.push(HeaderField { headerName, headerValue });
        proof {
            assert(fields(headers@) =~= parsed + seq![line_field(rest[0])]);
            match parse_fields(rest.drop_first()) {
                Ok(more) => {
                    assert(fields(headers@) + more =~= parsed + (seq![line_field(rest[0])] + more));
                },
                Err(e) => {},
            }
        }
        i = i + 1;
    }
    assert(all.skip(i as int).len() == 0);
    assert(fields(headers@) + Seq::<FieldView>::empty() =~= fields(headers@));
    Ok(headers)
}

// ---------------------------------------------------------------------------------------------
// Looking up
// ---------------------------------------------------------------------------------------------

/// The value of the first field with the given name.
pub open spec fn header_value(list: Seq<FieldView>, name: Seq<char>) -> Option<Seq<char>>
    decreases list.len(),
{
    if list.len() == 0 {
        None
    } else if same_ignoring_case(list[0].name, name) {
        Some(list[0].value)
    } else {
        header_value(list.drop_first(), name)
    }
}

/// Whether a token is one of the comma-separated elements of a value.
pub open spec fn value_has_token(value: Seq<char>, token: Seq<char>) -> bool {
    exists|j: int|
        0 <= j < split(value, ',').len() && same_ignoring_case(
            trim(#[trigger] split(value, ',')[j]),
            token,
        )
}

/// Whether a token stands in some field with the given name.
pub open spec fn headers_have_token(
    list: Seq<FieldView>,
    name: Seq<char>,
    token: Seq<char>,
) -> bool {
    exists|i: int|
        0 <= i < list.len() && same_ignoring_case((#[trigger] list[i]).name, name)
            && value_has_token(list[i].value, token)
}

/// Finds the value of the first field with the given name; names match in either case.
pub fn headerValue(headers: &[HeaderField], targetName: &str) -> (r: Option<String>)
    ensures
        match r {
            Some(value) => header_value(fields(headers@), targetName@) == Some(value@),
            None => header_value(fields(headers@), targetName@) is None,
        },
{
    let ghost all = fields(headers@);
    assert(all.skip(0) =~= all);
    for i in 0..headers.len()
        invariant
            all == fields(headers@),
            header_value(all, targetName@) == header_value(all.skip(i as int), targetName@),
    {
        let ghost rest = all.skip(i as int);
        assert(rest[0] == headers@[i as int]@);
        assert(rest.drop_first() =~= all.skip(i + 1));
        if eqIgnoreAsciiCase(&headers[i].headerName, targetName) {
            return Some(headers[i].headerValue.clone());
        }
    }
    None
}

fn valueHasToken(value: &str, token: &str) -> (r: bool)
    ensures
        r == value_has_token(value@, token@),
{
    let wanted = charsOf(token);
    let pieces = splitAt(&charsOf(value), ',');
    for j in 0..pieces.len()
        invariant
            wanted@ == token@,
            texts(pieces@) == split(value@, ','),
            forall|k: int|
                0 <= k < j ==> !same_ignoring_case(
                    trim(#[trigger] split(value@, ',')[k]),
                    token@,
                ),
    {
        let piece = charsOf(&pieces[j]);
        assert(texts(pieces@)[j as int] == pieces@[j as int]@);
        assert(split(value@, ',')[j as int] == piece@);
        if sameIgnoringCase(trimmed(&piece), &wanted) {
            return true;
        }
    }
    assert(texts(pieces@).len() == pieces@.len());
    false
}

/// Tells whether a comma-separated header holds a token; names and tokens match in either case.
pub fn headerContainsToken(headers: &[HeaderField], targetName: &str, targetToken: &str) -> (r:
    bool)
    ensures
        r == headers_have_token(fields(headers@), targetName@, targetToken@),
{
    let ghost all = fields(headers@);
    for i in 0..headers.len()
        invariant
            all == fields(headers@),
            forall|k: int|
                0 <= k < i ==> !(same_ignoring_case((#[trigger] all[k]).name, targetName@)
                    && value_has_token(all[k].value, targetToken@)),
    {
        assert(all[i as int] == headers@[i as int]@);
        if eqIgnoreAsciiCase(&headers[i].headerName, targetName) && valueHasToken(
            &headers[i].headerValue,
            targetToken,
        ) {
            return true;
        }
    }
    false
}

// ---------------------------------------------------------------------------------------------
// Fields that are not passed on
// ---------------------------------------------------------------------------------------------

/// The request fields that concern only one hop.
pub open spec fn is_removed_request_header(name: Seq<char>) -> bool {
    ||| same_ignoring_case(name, "connection"@)
    ||| same_ignoring_case(name, "proxy-connection"@)
    ||| same_ignoring_case(name, "proxy-authorization"@)
    ||| same_ignoring_case(name, "keep-alive"@)
    ||| same_ignoring_case(name, "upgrade"@)
}

/// The response fields that concern only one hop.
pub open spec fn is_removed_response_header(name: Seq<char>) -> bool {
    ||| same_ignoring_case(name, "connection"@)
    ||| same_ignoring_case(name, "proxy-connection"@)
    ||| same_ignoring_case(name, "proxy-authenticate"@)
    ||| same_ignoring_case(name, "keep-alive"@)
    ||| same_ignoring_case(name, "upgrade"@)
}

/// Tells whether a request field is kept from the upstream server.
pub fn isRemovedRequestHeader(headerName: &str) -> (r: bool)
    ensures
        r == is_removed_request_header(headerName@),
{
    eqIgnoreAsciiCase(headerName, "connection") || eqIgnoreAsciiCase(headerName, "proxy-connection")
        || eqIgnoreAsciiCase(headerName, "proxy-authorization") || eqIgnoreAsciiCase(
        headerName,
        "keep-alive",
    ) || eqIgnoreAsciiCase(headerName, "upgrade")
}

/// Tells whether a response field is kept from the client.
pub fn isRemovedResponseHeader(headerName: &str) -> (r: bool)
    ensures
        r == is_removed_response_header(headerName@),
{
    eqIgnoreAsciiCase(headerName, "connection") || eqIgnoreAsciiCase(headerName, "proxy-connection")
        || eqIgnoreAsciiCase(headerName, "proxy-authenticate") || eqIgnoreAsciiCase(
        headerName,
        "keep-alive",
    ) || eqIgnoreAsciiCase(headerName, "upgrade")
}

// ---------------------------------------------------------------------------------------------
// Laws
// ---------------------------------------------------------------------------------------------

/// The case in which a header name is asked for does not matter.
pub proof fn law_lookup_ignores_case(
    list: Seq<FieldView>,
    name: Seq<char>,
    other: Seq<char>,
    token: Seq<char>,
)
    requires
        same_ignoring_case(name, other),
    ensures
        header_value(list, name) == header_value(list, other),
        headers_have_token(list, name, token) == headers_have_token(list, other, token),
    decreases list.len(),
{
    assert forall|a: Seq<char>| same_ignoring_case(a, name) == #[trigger] same_ignoring_case(
        a,
        other,
    ) by {
        lemma_same_ignoring_case_substitutes(a, name, other);
    }
    if list.len() > 0 {
        law_lookup_ignores_case(list.drop_first(), name, other, token);
    }
    if headers_have_token(list, name, token) {
        let i = choose|i: int|
            0 <= i < list.len() && same_ignoring_case((#[trigger] list[i]).name, name)
                && value_has_token(list[i].value, token);
        assert(same_ignoring_case(list[i].name, other));
    }
    if headers_have_token(list, other, token) {
        let i = choose|i: int|
            0 <= i < list.len() && same_ignoring_case((#[trigger] list[i]).name, other)
                && value_has_token(list[i].value, token);
        assert(same_ignoring_case(list[i].name, name));
    }
}

proof fn lemma_same_ignoring_case_substitutes(a: Seq<char>, b: Seq<char>, c: Seq<char>)
    requires
        same_ignoring_case(b, c),
    ensures
        same_ignoring_case(a, b) == same_ignoring_case(a, c),
{
    if same_ignoring_case(a, b) {
        assert forall|i: int| 0 <= i < a.len() implies ascii_lower(#[trigger] a[i]) == ascii_lower(
            c[i],
        ) by {
            assert(ascii_lower(b[i]) == ascii_lower(c[i]));
        }
    }
    if same_ignoring_case(a, c) {
        assert forall|i: int| 0 <= i < a.len() implies ascii_lower(#[trigger] a[i]) == ascii_lower(
            b[i],
        ) by {
            assert(ascii_lower(b[i]) == ascii_lower(c[i]));
        }
    }
}

} // verus!
