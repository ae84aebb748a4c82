//! What the heads that are passed on say to whoever reads them: exactly what was meant.

use vstd::prelude::*;
use vstd::utf8::{
    decode_utf8, encode_scalar, encode_utf8, encode_utf8_decode_utf8, encode_utf8_first_scalar,
    encode_utf8_valid_utf8, leading_byte_width_1,
};

use crate::address::{bracketed_with_port, with_port};
use crate::error::ErrorView;
use crate::header::{
    header_value, is_removed_request_header, is_removed_response_header, lemma_contains_is_before,
    line_field, parse_fields, FieldView,
};
use crate::message::{
    client_fields, client_response_text, field_line, field_lines, forward_fields,
    forward_request_text, kept_request_fields, kept_response_fields, names_host, parse_request,
    parse_request_text, parse_response, parse_response_text, status_line, RequestView, ResponseView,
};
use crate::number::{decimal, law_number_round_trip, parse_number, NumberError};
use crate::stream::{
    cut, head_mark, law_cut_ignores_what_follows, lemma_mark_end, lemma_mark_end_is, mark_end,
    mark_ends_at,
};
use crate::target::{
    authority_host, authority_length, dialable, lemma_authority_ends, origin_path, parse_target,
};
use crate::text::{
    before, found_at, is_white_space, lemma_before, lemma_before_is, line_end_at,
    same_ignoring_case, split_lines, trim, words,
};
use crate::text_laws::{
    has_no_space, is_line, is_trimmed, is_word, lemma_after_last, lemma_decimal_has_no_space,
    lemma_part_of_line, lemma_split_first_line, lemma_split_lines_are_lines, lemma_three_words,
    lemma_trim, lemma_trim_is_done, lemma_trim_takes_a_space, lemma_words_are_words,
};

verus! {

// ---------------------------------------------------------------------------------------------
// Header fields
// ---------------------------------------------------------------------------------------------

/// Whether a field can be written on a line and read back.
pub open spec fn is_writable(field: FieldView) -> bool {
    &&& is_trimmed(field.name)
    &&& is_trimmed(field.value)
    &&& is_line(field.name)
    &&& is_line(field.value)
    &&& !field.name.contains(':')
}

/// Whether every field can be written on a line and read back.
pub open spec fn are_writable(list: Seq<FieldView>) -> bool {
    forall|i: int| 0 <= i < list.len() ==> is_writable(#[trigger] list[i])
}

proof fn lemma_line_field_is_writable(line: Seq<char>)
    requires
        is_line(line),
        line.contains(':'),
    ensures
        is_writable(line_field(line)),
{
    let n = before(line, ':') as int;
    lemma_before(line, ':');
    lemma_contains_is_before(line, ':');
    let name = line.take(n);
    let value = line.skip(n + 1);
    assert(name =~= line.subrange(0, n));
    assert(value =~= line.subrange(n + 1, line.len() as int));
    lemma_part_of_line(line, 0, n);
    lemma_part_of_line(line, n + 1, line.len() as int);
    let from = lemma_trim(name);
    let start = lemma_trim(value);
    lemma_part_of_line(name, from, from + trim(name).len());
    lemma_part_of_line(value, start, start + trim(value).len());
    if trim(name).contains(':') {
        let i = choose|i: int| 0 <= i < trim(name).len() && trim(name)[i] == ':';
        assert(line[from + i] == ':');
    }
}

/// Fields that were read can be written.
pub proof fn lemma_parsed_fields_are_writable(lines: Seq<Seq<char>>)
    requires
        forall|i: int| 0 <= i < lines.len() ==> is_line(#[trigger] lines[i]),
    ensures
        parse_fields(lines) matches Ok(list) ==> are_writable(list),
    decreases lines.len(),
{
    if lines.len() > 0 && lines[0].len() > 0 && lines[0].contains(':') {
        let rest = lines.drop_first();
        assert forall|i: int| 0 <= i < rest.len() implies is_line(#[trigger] rest[i]) by {
            assert(is_line(lines[i + 1]));
        }
        lemma_parsed_fields_are_writable(rest);
        lemma_line_field_is_writable(lines[0]);
    }
}

proof fn lemma_field_lines_first(list: Seq<FieldView>)
    requires
        list.len() > 0,
    ensures
        field_lines(list) == field_line(list[0]) + field_lines(list.drop_first()),
    decreases list.len(),
{
    if list.len() == 1 {
        assert(list.drop_last() =~= Seq::empty());
        assert(list.drop_first() =~= Seq::empty());
        assert(field_lines(list) =~= field_line(list[0]) + field_lines(list.drop_first()));
    } else {
        lemma_field_lines_first(list.drop_last());
        assert(list.drop_last().drop_first() =~= list.drop_first().drop_last());
        assert(field_lines(list) =~= field_line(list[0]) + field_lines(list.drop_first()));
    }
}

/// Whether a field can be written on a line.
pub open spec fn is_on_a_line(field: FieldView) -> bool {
    is_line(field.name) && is_line(field.value)
}

/// Whether every field can be written on a line.
pub open spec fn are_on_lines(list: Seq<FieldView>) -> bool {
    forall|i: int| 0 <= i < list.len() ==> is_on_a_line(#[trigger] list[i])
}

/// Whether a field that is written on a line is read back, but for white space round its value.
pub open spec fn is_legible(field: FieldView) -> bool {
    &&& is_on_a_line(field)
    &&& is_trimmed(field.name)
    &&& !field.name.contains(':')
}

/// Whether every field that is written on a line is read back, but for white space round values.
pub open spec fn are_legible(list: Seq<FieldView>) -> bool {
    forall|i: int| 0 <= i < list.len() ==> is_legible(#[trigger] list[i])
}

/// Fields as they are read back.
pub open spec fn as_read(list: Seq<FieldView>) -> Seq<FieldView> {
    list.map_values(|f: FieldView| FieldView { name: f.name, value: trim(f.value) })
}

/// Fields that can be written and read back come back as they were.
pub proof fn lemma_writable_fields_come_back(list: Seq<FieldView>)
    requires
        are_writable(list),
    ensures
        are_legible(list),
        as_read(list) == list,
{
    assert forall|i: int| 0 <= i < list.len() implies #[trigger] as_read(list)[i] == list[i] by {
        assert(is_writable(list[i]));
        lemma_trim_is_done(list[i].value);
    }
    assert forall|i: int| 0 <= i < list.len() implies is_legible(#[trigger] list[i]) by {
        assert(is_writable(list[i]));
    }
    assert(as_read(list) =~= list);
}

/// A field makes a line that is not empty.
proof fn lemma_field_makes_a_line(field: FieldView)
    requires
        is_on_a_line(field),
    ensures
        is_line(field.name + ": "@ + field.value),
        (field.name + ": "@ + field.value).len() > 0,
{
    reveal_strlit(": ");
    let line = field.name + ": "@ + field.value;
    let n = field.name.len() as int;
    assert forall|i: int| !line_end_at(line, i) by {
        assert(!line_end_at(field.name, i));
        assert(!line_end_at(field.value, i - n - 2));
    }
}

/// A field that is written on a line is read back.
proof fn lemma_field_line_is_read_back(field: FieldView)
    requires
        is_legible(field),
    ensures
        ({
            let line = field.name + ": "@ + field.value;
            &&& line.contains(':')
            &&& line_field(line) == FieldView { name: field.name, value: trim(field.value) }
        }),
{
    reveal_strlit(": ");
    let line = field.name + ": "@ + field.value;
    let n = field.name.len() as int;
    assert(line[n] == ':');
    assert forall|i: int| 0 <= i < n implies line[i] != ':' by {
        assert(field.name.contains(field.name[i]));
    }
    lemma_before_is(line, ':', n);
    assert(line.take(n) =~= field.name);
    assert(line.skip(n + 1) =~= seq![' '] + field.value);
    lemma_trim_is_done(field.name);
    lemma_trim_takes_a_space(field.value);
}

/// Fields that are written with an empty line behind them are read back.
pub proof fn lemma_written_fields_are_read_back(list: Seq<FieldView>)
    requires
        are_legible(list),
    ensures
        parse_fields(split_lines(field_lines(list) + "\r\n"@)) == Ok::<Seq<FieldView>, ErrorView>(
            as_read(list),
        ),
    decreases list.len(),
{
    let all = field_lines(list) + "\r\n"@;
    if list.len() == 0 {
        let none = Seq::<char>::empty();
        assert(all =~= none + "\r\n"@ + none);
        lemma_split_first_line(none, none);
        assert(split_lines(all)[0].len() == 0);
        assert(as_read(list) =~= Seq::empty());
    } else {
        let field = list[0];
        let rest = list.drop_first();
        let line = field.name + ": "@ + field.value;
        let more = field_lines(rest) + "\r\n"@;
        assert(is_legible(field));
        assert forall|i: int| 0 <= i < rest.len() implies is_legible(#[trigger] rest[i]) by {
            assert(is_legible(list[i + 1]));
        }
        lemma_written_fields_are_read_back(rest);
        lemma_field_lines_first(list);
        lemma_field_makes_a_line(field);
        lemma_field_line_is_read_back(field);
        assert(all =~= line + "\r\n"@ + more);
        lemma_split_first_line(line, more);
        assert(split_lines(all).drop_first() =~= split_lines(more));
        assert(seq![line_field(line)] + as_read(rest) =~= as_read(list));
    }
}

// ---------------------------------------------------------------------------------------------
// Where heads end
// ---------------------------------------------------------------------------------------------

/// Whether an empty line stands behind position `i`: a line end and another one.
pub open spec fn blank_line_at(s: Seq<char>, i: int) -> bool {
    line_end_at(s, i) && line_end_at(s, i + 2)
}

/// Whether a text is a head, or a rear part of one: its one empty line is at the end, and it
/// starts with a line end only if it is nothing but that.
pub open spec fn ends_as_head(s: Seq<char>) -> bool {
    &&& s.len() >= 2
    &&& line_end_at(s, s.len() - 2)
    &&& forall|i: int| #[trigger] blank_line_at(s, i) ==> i + 4 == s.len()
    &&& line_end_at(s, 0) ==> s.len() == 2
}

proof fn lemma_line_in_front_of_head(line: Seq<char>, rest: Seq<char>)
    requires
        is_line(line),
        line.len() > 0,
        ends_as_head(rest),
    ensures
        ends_as_head(line + "\r\n"@ + rest),
        rest.len() == 2 ==> blank_line_at(line + "\r\n"@ + rest, line.len() as int),
{
    reveal_strlit("\r\n");
    let s = line + "\r\n"@ + rest;
    let n = line.len() as int;
    assert forall|i: int| #[trigger] blank_line_at(s, i) implies i + 4 == s.len() by {
        if i < n {
            assert(!line_end_at(line, i));
        } else if i == n {
            assert(line_end_at(rest, 0));
        } else if i >= n + 2 {
            assert(line_end_at(rest, i - n - 2));
            assert(line_end_at(rest, i - n));
            assert(blank_line_at(rest, i - n - 2));
        }
    }
    if line_end_at(s, 0) {
        assert(!line_end_at(line, 0));
    }
    assert(line_end_at(rest, rest.len() - 2));
    assert(line_end_at(s, s.len() - 2));
    if rest.len() == 2 {
        assert(line_end_at(s, n + 2));
    }
}

proof fn lemma_fields_end_as_head(list: Seq<FieldView>)
    requires
        are_on_lines(list),
    ensures
        ends_as_head(field_lines(list) + "\r\n"@),
        list.len() > 0 ==> exists|i: int|
            #[trigger] blank_line_at(field_lines(list) + "\r\n"@, i),
    decreases list.len(),
{
    reveal_strlit("\r\n");
    let all = field_lines(list) + "\r\n"@;
    if list.len() == 0 {
        assert(all =~= "\r\n"@);
    } else {
        let field = list[0];
        let rest = list.drop_first();
        let line = field.name + ": "@ + field.value;
        let more = field_lines(rest) + "\r\n"@;
        assert(is_on_a_line(field));
        assert forall|i: int| 0 <= i < rest.len() implies is_on_a_line(#[trigger] rest[i]) by {
            assert(is_on_a_line(list[i + 1]));
        }
        lemma_fields_end_as_head(rest);
        lemma_field_lines_first(list);
        lemma_field_makes_a_line(field);
        assert(all =~= line + "\r\n"@ + more);
        lemma_line_in_front_of_head(line, more);
        let n = line.len() as int;
        if rest.len() == 0 {
            assert(more =~= "\r\n"@);
            assert(blank_line_at(all, n));
        } else {
            let i = choose|i: int| #[trigger] blank_line_at(more, i);
            assert(line_end_at(more, i));
            assert(line_end_at(more, i + 2));
            assert(blank_line_at(all, n + 2 + i));
        }
    }
}

/// A character below 128 is its own byte, and no other character has such a byte.
proof fn lemma_scalar_bytes(c: char)
    ensures
        (c as u32) < 128 ==> encode_scalar(c as u32).len() == 1 && encode_scalar(c as u32)[0]
            == c as u32,
        (c as u32) >= 128 ==> forall|i: int|
            0 <= i < encode_scalar(c as u32).len() ==> #[trigger] encode_scalar(c as u32)[i] >= 128,
        encode_scalar(c as u32).len() > 0,
{
    let one = seq![c];
    let bytes = encode_scalar(c as u32);
    let code = c as u32;
    assert(one.drop_first() =~= Seq::empty());
    assert(encode_utf8(one.drop_first()) =~= Seq::empty());
    assert(encode_utf8(one) =~= bytes);
    encode_utf8_first_scalar(one);
    if code < 128 {
        assert(leading_byte_width_1(code) == code) by (bit_vector)
            requires
                code < 128,
        ;
    }
}

proof fn lemma_first_byte(s: Seq<char>)
    requires
        encode_utf8(s).len() > 0,
        encode_utf8(s)[0] < 128,
    ensures
        s.len() > 0,
        s[0] as u32 == encode_utf8(s)[0],
        encode_utf8(s) == seq![encode_utf8(s)[0]] + encode_utf8(s.drop_first()),
{
    lemma_scalar_bytes(s[0]);
    assert(encode_scalar(s[0] as u32) =~= seq![encode_utf8(s)[0]]);
}

proof fn lemma_line_end_bytes(cr: char, lf: char)
    requires
        cr as u32 == 13,
        lf as u32 == 10,
    ensures
        cr == '\r',
        lf == '\n',
{
}

/// An empty line among the bytes of a text is an empty line of the text.
proof fn lemma_mark_is_a_blank_line(s: Seq<char>, n: int) -> (i: int)
    requires
        mark_ends_at(encode_utf8(s), head_mark(), n),
    ensures
        blank_line_at(s, i),
        i + 4 == s.len() ==> n == encode_utf8(s).len(),
    decreases s.len(),
{
    let bytes = encode_utf8(s);
    let start = n - 4;
    let mark = bytes.subrange(start, n);
    assert(mark[0] == 13 && mark[1] == 10 && mark[2] == 13 && mark[3] == 10);
    assert(bytes[start] == 13 && bytes[start + 1] == 10);
    assert(bytes[start + 2] == 13 && bytes[start + 3] == 10);
    if start == 0 {
        let s1 = s.drop_first();
        let s2 = s1.drop_first();
        let s3 = s2.drop_first();
        lemma_first_byte(s);
        assert(encode_utf8(s1)[0] == bytes[1]);
        lemma_first_byte(s1);
        assert(encode_utf8(s2)[0] == bytes[2]);
        lemma_first_byte(s2);
        assert(encode_utf8(s3)[0] == bytes[3]);
        lemma_first_byte(s3);
        assert(s[1] == s1[0] && s[2] == s2[0] && s[3] == s3[0]);
        lemma_line_end_bytes(s[0], s[1]);
        lemma_line_end_bytes(s[2], s[3]);
        if s.len() == 4 {
            assert(encode_utf8(s3.drop_first()).len() == 0);
        }
        0
    } else {
        let rest = s.drop_first();
        let first = encode_scalar(s[0] as u32);
        lemma_scalar_bytes(s[0]);
        let w = first.len() as int;
        assert(bytes == first + encode_utf8(rest));
        if start < w {
            assert(bytes[start] == first[start]);
        }
        assert(encode_utf8(rest).subrange(start - w, n - w) =~= bytes.subrange(start, n));
        let i = lemma_mark_is_a_blank_line(rest, n - w);
        assert(line_end_at(rest, i) && line_end_at(rest, i + 2));
        i + 1
    }
}

/// An empty line of a text is one among its bytes, and at the end if it is at the end there.
proof fn lemma_head_ends_in_mark(s: Seq<char>)
    requires
        s.len() >= 4,
        blank_line_at(s, s.len() - 4),
    ensures
        mark_ends_at(encode_utf8(s), head_mark(), encode_utf8(s).len() as int),
    decreases s.len(),
{
    let bytes = encode_utf8(s);
    let n = bytes.len() as int;
    let rest = s.drop_first();
    if s.len() == 4 {
        reveal_with_fuel(encode_utf8, 5);
        lemma_scalar_bytes(s[0]);
        lemma_scalar_bytes(s[1]);
        lemma_scalar_bytes(s[2]);
        lemma_scalar_bytes(s[3]);
        assert(bytes =~= head_mark());
        assert(bytes.subrange(0, 4) =~= head_mark());
    } else {
        assert(blank_line_at(rest, rest.len() - 4));
        lemma_head_ends_in_mark(rest);
        assert(bytes.subrange(n - 4, n) =~= encode_utf8(rest).subrange(
            encode_utf8(rest).len() - 4,
            encode_utf8(rest).len() as int,
        ));
    }
}

/// Whoever cuts a head off a stream gets the whole head and nothing of what follows it.
proof fn lemma_head_is_cut_off_whole(head: Seq<char>, body: Seq<u8>, i: int)
    requires
        ends_as_head(head),
        blank_line_at(head, i),
    ensures
        cut(encode_utf8(head) + body, head_mark()) == Some((encode_utf8(head), body)),
{
    let bytes = encode_utf8(head);
    let none = Seq::<u8>::empty();
    let n = bytes.len() as int;
    lemma_head_ends_in_mark(head);
    assert forall|k: int| k < n implies !mark_ends_at(bytes, head_mark(), k) by {
        if mark_ends_at(bytes, head_mark(), k) {
            let at = lemma_mark_is_a_blank_line(head, k);
        }
    }
    lemma_mark_end_is(bytes, head_mark(), n);
    assert(bytes.take(n) =~= bytes);
    assert(bytes.skip(n) =~= none);
    law_cut_ignores_what_follows(bytes, body, head_mark());
    assert(none + body =~= body);
}

// ---------------------------------------------------------------------------------------------
// Requests
// ---------------------------------------------------------------------------------------------

proof fn lemma_dialable_has_no_space(host: Seq<char>, port: u16)
    requires
        has_no_space(host),
    ensures
        has_no_space(dialable(host, port)),
{
    lemma_with_port_has_no_space(host, port);
    if host.len() > 0 {
        let shorter = host.drop_last();
        assert forall|i: int| 0 <= i < shorter.len() implies !is_white_space(
            #[trigger] shorter[i],
        ) by {
            assert(shorter[i] == host[i]);
        }
        lemma_with_port_has_no_space(shorter, port);
    }
}

proof fn lemma_with_port_has_no_space(host: Seq<char>, port: u16)
    requires
        has_no_space(host),
    ensures
        has_no_space(with_port(host, port)),
        has_no_space(bracketed_with_port(host, port)),
{
    reveal_strlit(":");
    reveal_strlit("[");
    reveal_strlit("]:");
    let digits = decimal(port as nat);
    lemma_decimal_has_no_space(port as nat);
    let plain = with_port(host, port);
    let bracketed = bracketed_with_port(host, port);
    let n = host.len() as int;
    assert forall|i: int| 0 <= i < plain.len() implies !is_white_space(#[trigger] plain[i]) by {
        if i < n {
            assert(plain[i] == host[i]);
        } else if i > n {
            assert(plain[i] == digits[i - n - 1]);
        }
    }
    assert forall|i: int| 0 <= i < bracketed.len() implies !is_white_space(
        #[trigger] bracketed[i],
    ) by {
        if 0 < i < n + 1 {
            assert(bracketed[i] == host[i - 1]);
        } else if i > n + 2 {
            assert(bracketed[i] == digits[i - n - 3]);
        }
    }
}

/// The host of an authority without white space has none either.
proof fn lemma_host_has_no_space(authority: Seq<char>)
    requires
        has_no_space(authority),
    ensures
        has_no_space(authority_host(authority)),
{
    let host = authority_host(authority);
    let trimmed = trim(authority);
    let start = lemma_trim(authority);
    lemma_after_last(trimmed, '@');
    let skipped = trimmed.len() - host.len();
    assert forall|i: int| 0 <= i < host.len() implies !is_white_space(#[trigger] host[i]) by {
        assert(host[i] == trimmed[skipped + i]);
        assert(trimmed[skipped + i] == authority[start + skipped + i]);
    }
}

/// The path behind the authority of a URL without white space is a word.
proof fn lemma_origin_path_is_a_word(rest: Seq<char>)
    requires
        has_no_space(rest),
    ensures
        is_word(origin_path(rest)),
{
    reveal_strlit("/");
    let n = authority_length(rest) as int;
    lemma_authority_ends(rest);
    let tail = rest.skip(n);
    let path = origin_path(rest);
    assert forall|i: int| 0 <= i < tail.len() implies !is_white_space(#[trigger] tail[i]) by {
        assert(tail[i] == rest[n + i]);
    }
    assert forall|i: int| 0 <= i < path.len() implies !is_white_space(#[trigger] path[i]) by {
        if tail.len() > 0 && tail[0] == '?' && i > 0 {
            assert(path[i] == tail[i - 1]);
        }
    }
}

/// The address that is dialled for an absolute URL, and the path that is asked for, are words.
proof fn lemma_target_of_words(target: Seq<char>, headers: Seq<FieldView>)
    requires
        is_word(target),
        parse_target(target, headers) is Ok,
    ensures
        is_word((parse_target(target, headers)->Ok_0).1),
        found_at(target, "http://"@, 0) ==> has_no_space((parse_target(target, headers)->Ok_0).0),
{
    if found_at(target, "http://"@, 0) {
        let k = "http://"@.len() as int;
        let rest = target.skip(k);
        assert forall|i: int| 0 <= i < rest.len() implies !is_white_space(#[trigger] rest[i]) by {
            assert(rest[i] == target[k + i]);
        }
        lemma_origin_path_is_a_word(rest);
        lemma_authority_ends(rest);
        let authority = rest.take(authority_length(rest) as int);
        assert forall|i: int| 0 <= i < authority.len() implies !is_white_space(
            #[trigger] authority[i],
        ) by {
            assert(authority[i] == rest[i]);
        }
        lemma_host_has_no_space(authority);
        lemma_dialable_has_no_space(authority_host(authority), 80);
    }
}

/// A Host field is never taken away.
proof fn lemma_host_is_kept(headers: Seq<FieldView>)
    requires
        header_value(headers, "host"@) is Some,
    ensures
        names_host(kept_request_fields(headers)),
{
    let kept = kept_request_fields(headers);
    let passes = |f: FieldView| !is_removed_request_header(f.name);
    let i = lemma_header_value_is_somewhere(headers, "host"@);
    reveal_strlit("host");
    reveal_strlit("connection");
    reveal_strlit("proxy-connection");
    reveal_strlit("proxy-authorization");
    reveal_strlit("keep-alive");
    reveal_strlit("upgrade");
    assert(passes(headers[i]));
    headers.lemma_filter_contains(passes, i);
    let j = choose|j: int| 0 <= j < kept.len() && kept[j] == headers[i];
    assert(same_ignoring_case(kept[j].name, "host"@));
}

proof fn lemma_header_value_is_somewhere(headers: Seq<FieldView>, name: Seq<char>) -> (i: int)
    requires
        header_value(headers, name) is Some,
    ensures
        0 <= i < headers.len(),
        same_ignoring_case(headers[i].name, name),
        header_value(headers, name) == Some(headers[i].value),
    decreases headers.len(),
{
    if same_ignoring_case(headers[0].name, name) {
        0
    } else {
        1 + lemma_header_value_is_somewhere(headers.drop_first(), name)
    }
}

proof fn lemma_kept_fields_are_writable(list: Seq<FieldView>, passes: spec_fn(FieldView) -> bool)
    requires
        are_writable(list),
    ensures
        are_writable(list.filter(passes)),
{
    let kept = list.filter(passes);
    assert forall|i: int| 0 <= i < kept.len() implies is_writable(#[trigger] kept[i]) by {
        assert(kept.contains(kept[i]));
        list.lemma_filter_contains_rev(passes, kept[i]);
        let j = choose|j: int| 0 <= j < list.len() && list[j] == kept[i];
        assert(is_writable(list[j]));
    }
}

proof fn lemma_literals_are_writable()
    ensures
        is_writable(FieldView { name: "Connection"@, value: "close"@ }),
        is_writable(FieldView { name: "Connection"@, value: "keep-alive"@ }),
{
    reveal_strlit("Connection");
    reveal_strlit("close");
    reveal_strlit("keep-alive");
}

proof fn lemma_written_head_is_cut_off_whole(
    line: Seq<char>,
    fields: Seq<FieldView>,
    body: Seq<u8>,
)
    requires
        is_line(line),
        line.len() > 0,
        are_on_lines(fields),
        fields.len() > 0,
    ensures
        ({
            let head = line + "\r\n"@ + (field_lines(fields) + "\r\n"@);
            cut(encode_utf8(head) + body, head_mark()) == Some((encode_utf8(head), body))
        }),
{
    reveal_strlit("\r\n");
    let rest = field_lines(fields) + "\r\n"@;
    let head = line + "\r\n"@ + rest;
    lemma_fields_end_as_head(fields);
    lemma_line_in_front_of_head(line, rest);
    let i = choose|i: int| #[trigger] blank_line_at(rest, i);
    assert(line_end_at(rest, i) && line_end_at(rest, i + 2));
    assert(blank_line_at(head, line.len() + 2 + i));
    lemma_head_is_cut_off_whole(head, body, line.len() + 2 + i);
}

proof fn lemma_three_parts_are_a_line(a: Seq<char>, b: Seq<char>, c: Seq<char>)
    requires
        is_line(a),
        is_line(b),
        is_line(c),
    ensures
        is_line(a + " "@ + b + " "@ + c),
{
    reveal_strlit(" ");
    let s = a + " "@ + b + " "@ + c;
    assert forall|i: int| !line_end_at(s, i) by {
        assert(!line_end_at(a, i));
        assert(!line_end_at(b, i - a.len() - 1));
        assert(!line_end_at(c, i - a.len() - b.len() - 2));
    }
}

proof fn lemma_kept_fields_are_on_lines(list: Seq<FieldView>, passes: spec_fn(FieldView) -> bool)
    requires
        are_on_lines(list),
    ensures
        are_on_lines(list.filter(passes)),
{
    let kept = list.filter(passes);
    assert forall|i: int| 0 <= i < kept.len() implies is_on_a_line(#[trigger] kept[i]) by {
        assert(kept.contains(kept[i]));
        list.lemma_filter_contains_rev(passes, kept[i]);
        let j = choose|j: int| 0 <= j < list.len() && list[j] == kept[i];
        assert(is_on_a_line(list[j]));
    }
}

/// The head of a request that is built from parts without line ends holds one empty line, at its
/// very end: whatever follows the head is not taken for a part of it.
pub proof fn law_a_built_request_head_ends_once(
    request: RequestView,
    path: Seq<char>,
    address: Seq<char>,
    body: Seq<u8>,
)
    requires
        is_line(request.method),
        is_line(path),
        is_line(request.version),
        are_on_lines(request.headers),
        is_line(address),
    ensures
        ({
            let head = encode_utf8(forward_request_text(request, path, address));
            &&& mark_end(head, head_mark()) == Some(head.len())
            &&& cut(head + body, head_mark()) == Some((head, body))
        }),
{
    reveal_strlit(" ");
    reveal_strlit("Host");
    let line = request.method + " "@ + path + " "@ + request.version;
    let fields = forward_fields(request.headers, address);
    let passes = |f: FieldView| !is_removed_request_header(f.name);
    lemma_kept_fields_are_on_lines(request.headers, passes);
    lemma_literals_are_writable();
    assert(is_line("Host"@));
    assert(are_on_lines(fields));
    lemma_three_parts_are_a_line(request.method, path, request.version);
    lemma_built_head_ends_once(line, fields, body);
    assert(forward_request_text(request, path, address) =~= line + "\r\n"@ + (field_lines(fields)
        + "\r\n"@));
}

proof fn lemma_built_head_ends_once(line: Seq<char>, fields: Seq<FieldView>, body: Seq<u8>)
    requires
        is_line(line),
        line.len() > 0,
        are_on_lines(fields),
        fields.len() > 0,
    ensures
        ({
            let head = encode_utf8(line + "\r\n"@ + (field_lines(fields) + "\r\n"@));
            &&& mark_end(head, head_mark()) == Some(head.len())
            &&& cut(head + body, head_mark()) == Some((head, body))
        }),
{
    let head = encode_utf8(line + "\r\n"@ + (field_lines(fields) + "\r\n"@));
    let none = Seq::<u8>::empty();
    lemma_written_head_is_cut_off_whole(line, fields, body);
    lemma_written_head_is_cut_off_whole(line, fields, none);
    assert(head + none =~= head);
    lemma_mark_end(head, head_mark());
    let n = mark_end(head, head_mark())->0 as int;
    assert(head.take(n) == head);
    assert(head.take(n).len() == n);
}

/// The head of a request that is built from words and legible fields, read back, has the same
/// method, path and version and the fields that are passed on; of the address the white space
/// round it is lost.
#[verifier::spinoff_prover]
#[verifier::rlimit(40)]
pub proof fn law_a_built_request_head_reads_back(
    request: RequestView,
    path: Seq<char>,
    address: Seq<char>,
)
    requires
        is_word(request.method),
        is_word(path),
        is_word(request.version),
        are_writable(request.headers),
        is_line(address),
    ensures
        parse_request(encode_utf8(forward_request_text(request, path, address))) == Ok::<
            RequestView,
            ErrorView,
        >(
            RequestView {
                target: path,
                headers: forward_fields(request.headers, trim(address)),
                ..request
            },
        ),
{
    let fields = forward_fields(request.headers, address);
    let kept = kept_request_fields(request.headers);
    let passes = |f: FieldView| !is_removed_request_header(f.name);
    lemma_kept_fields_are_writable(request.headers, passes);
    lemma_writable_fields_come_back(kept);
    lemma_literals_are_writable();
    reveal_strlit("Host");
    let host = FieldView { name: "Host"@, value: address };
    let close = FieldView { name: "Connection"@, value: "close"@ };
    assert(is_legible(host));
    assert(are_legible(fields));
    lemma_written_fields_are_read_back(fields);
    lemma_trim_is_done("close"@);
    assert forall|i: int| 0 <= i < kept.len() implies #[trigger] as_read(kept)[i] == kept[i] by {}
    assert(as_read(fields) =~= forward_fields(request.headers, trim(address))) by {
        let read = forward_fields(request.headers, trim(address));
        assert forall|i: int| 0 <= i < fields.len() implies as_read(fields)[i] == read[i] by {
            if i < kept.len() {
                assert(as_read(kept)[i] == kept[i]);
            }
        }
    }
    lemma_three_words(request.method, path, request.version);
    let line = request.method + " "@ + path + " "@ + request.version;
    let rest = field_lines(fields) + "\r\n"@;
    let text = forward_request_text(request, path, address);
    assert(text =~= line + "\r\n"@ + rest);
    lemma_split_first_line(line, rest);
    assert(split_lines(text).drop_first() =~= split_lines(rest));
    encode_utf8_valid_utf8(text);
    encode_utf8_decode_utf8(text);
}

/// What a request that was parsed consists of: words and fields that can be written.
proof fn lemma_parsed_request_is_writable(head: Seq<char>, request: RequestView)
    requires
        parse_request_text(head) == Ok::<RequestView, ErrorView>(request),
    ensures
        is_word(request.method),
        is_word(request.target),
        is_word(request.version),
        are_writable(request.headers),
{
    let lines = split_lines(head);
    let parts = words(lines[0]);
    lemma_split_lines_are_lines(head);
    lemma_words_are_words(lines[0]);
    assert(is_word(parts[0]));
    assert(is_word(parts[1]));
    if parts.len() > 2 {
        assert(is_word(parts[2]));
    }
    reveal_strlit("HTTP/1.1");
    assert(is_word(request.version));
    let field_part = lines.drop_first();
    assert forall|i: int| 0 <= i < field_part.len() implies is_line(#[trigger] field_part[i]) by {
        assert(is_line(lines[i + 1]));
    }
    lemma_parsed_fields_are_writable(field_part);
}

proof fn lemma_no_space_is_a_line(s: Seq<char>)
    requires
        has_no_space(s),
    ensures
        is_line(s),
        is_trimmed(s),
{
    assert forall|i: int| !line_end_at(s, i) by {
        if line_end_at(s, i) {
            assert(is_white_space(s[i]));
        }
    }
}

/// The head that the upstream server gets, read back, is the client's request: the same method
/// and version, the path of the target, and the fields that are passed on, however oddly the
/// client had written them. Whatever follows the head is not taken for a part of it.
pub proof fn law_forwarded_head_reads_back(
    head: Seq<u8>,
    request: RequestView,
    address: Seq<char>,
    path: Seq<char>,
    body: Seq<u8>,
)
    requires
        parse_request(head) == Ok::<RequestView, ErrorView>(request),
        parse_target(request.target, request.headers) == Ok::<(Seq<char>, Seq<char>), ErrorView>(
            (address, path),
        ),
    ensures
        parse_request(encode_utf8(forward_request_text(request, path, address))) == Ok::<
            RequestView,
            ErrorView,
        >(
            RequestView {
                target: path,
                headers: forward_fields(request.headers, address),
                ..request
            },
        ),
        cut(encode_utf8(forward_request_text(request, path, address)) + body, head_mark()) == Some(
            (encode_utf8(forward_request_text(request, path, address)), body),
        ),
{
    lemma_parsed_request_is_writable(decode_utf8(head), request);
    lemma_target_of_words(request.target, request.headers);
    lemma_no_space_is_a_line(request.method);
    lemma_no_space_is_a_line(request.version);
    lemma_no_space_is_a_line(path);
    lemma_writable_fields_come_back(request.headers);
    let kept = kept_request_fields(request.headers);
    if found_at(request.target, "http://"@, 0) {
        lemma_no_space_is_a_line(address);
        lemma_trim_is_done(address);
        law_a_built_request_head_reads_back(request, path, address);
        law_a_built_request_head_ends_once(request, path, address, body);
    } else {
        let none = Seq::<char>::empty();
        lemma_host_is_kept(request.headers);
        lemma_no_space_is_a_line(none);
        law_a_built_request_head_reads_back(request, path, none);
        law_a_built_request_head_ends_once(request, path, none, body);
        assert(forward_fields(request.headers, none) == forward_fields(request.headers, address));
        assert(forward_fields(request.headers, trim(none)) == forward_fields(
            request.headers,
            address,
        ));
    }
}

// ---------------------------------------------------------------------------------------------
// Responses
// ---------------------------------------------------------------------------------------------

proof fn lemma_status_line_is_a_line(response: ResponseView)
    requires
        is_line(response.version),
        is_line(response.reason),
    ensures
        is_line(status_line(response)),
        status_line(response).len() > 0,
{
    reveal_strlit(" ");
    let version = response.version;
    let reason = response.reason;
    let code = decimal(response.status as nat);
    let line = status_line(response);
    let k = version.len() as int;
    let c = code.len() as int;
    lemma_decimal_has_no_space(response.status as nat);
    assert forall|i: int| !line_end_at(line, i) by {
        if line_end_at(line, i) {
            if i < k {
                assert(!line_end_at(version, i));
            } else if k < i < k + 1 + c {
                assert(line[i] == code[i - k - 1]);
                assert(is_white_space(line[i]));
            } else if i > k + 1 + c {
                assert(!line_end_at(reason, i - k - c - 2));
            }
        }
    }
}

/// The head of a response that is built from parts without line ends holds one empty line, at its
/// very end: whatever follows the head is not taken for a part of it.
pub proof fn law_a_built_response_head_ends_once(
    response: ResponseView,
    keep_alive: bool,
    body: Seq<u8>,
)
    requires
        is_line(response.version),
        is_line(response.reason),
        are_on_lines(response.headers),
    ensures
        ({
            let head = encode_utf8(client_response_text(response, keep_alive));
            &&& mark_end(head, head_mark()) == Some(head.len())
            &&& cut(head + body, head_mark()) == Some((head, body))
        }),
{
    let line = status_line(response);
    let fields = client_fields(response.headers, keep_alive);
    let passes = |f: FieldView| !is_removed_response_header(f.name);
    lemma_status_line_is_a_line(response);
    lemma_kept_fields_are_on_lines(response.headers, passes);
    lemma_literals_are_writable();
    assert(are_on_lines(fields));
    lemma_built_head_ends_once(line, fields, body);
    assert(client_response_text(response, keep_alive) =~= line + "\r\n"@ + (field_lines(fields)
        + "\r\n"@));
}

/// What the first line of a response says is what a client reads off it.
proof fn lemma_status_line_is_read_back(response: ResponseView)
    requires
        is_line(response.version),
        !response.version.contains(' '),
        is_line(response.reason),
    ensures
        ({
            let line = status_line(response);
            let n = before(line, ' ') as int;
            let rest = line.skip(n + 1);
            let m = before(rest, ' ') as int;
            &&& n < line.len()
            &&& line.take(n) == response.version
            &&& parse_number(rest.take(m), 10, 0xffff) == Ok::<nat, NumberError>(
                response.status as nat,
            )
            &&& response.reason == if m < rest.len() {
                rest.skip(m + 1)
            } else {
                Seq::empty()
            }
        }),
{
    reveal_strlit(" ");
    let version = response.version;
    let reason = response.reason;
    let code = decimal(response.status as nat);
    let line = status_line(response);
    let k = version.len() as int;
    let c = code.len() as int;
    let tail = line.skip(k + 1);
    lemma_decimal_has_no_space(response.status as nat);
    law_number_round_trip(response.status as nat, 10, 0xffff);
    assert forall|i: int| 0 <= i < k implies line[i] != ' ' by {
        assert(version.contains(version[i]));
    }
    assert(line[k] == ' ');
    assert(line.take(k) =~= version);
    lemma_before_is(line, ' ', k);
    let end = if reason.len() > 0 {
        " "@ + reason
    } else {
        Seq::empty()
    };
    assert(tail =~= code + end);
    assert forall|i: int| 0 <= i < c implies tail[i] != ' ' by {
        assert(code.contains(code[i]));
    }
    lemma_before_is(tail, ' ', c);
    assert(tail.take(c) =~= code);
    if reason.len() > 0 {
        assert(tail.skip(c + 1) =~= reason);
    } else {
        assert(reason =~= Seq::empty());
    }
}

/// A response that was read can be written.
proof fn lemma_parsed_response_is_writable(head: Seq<char>, response: ResponseView)
    requires
        parse_response_text(head) == Ok::<ResponseView, ErrorView>(response),
    ensures
        is_line(response.version),
        !response.version.contains(' '),
        is_line(response.reason),
        are_writable(response.headers),
{
    let lines = split_lines(head);
    let first = lines[0];
    lemma_split_lines_are_lines(head);
    assert(is_line(first));
    let n = before(first, ' ') as int;
    let rest = first.skip(n + 1);
    let m = before(rest, ' ') as int;
    lemma_before(first, ' ');
    lemma_before(rest, ' ');
    assert(response.version =~= first.subrange(0, n));
    lemma_part_of_line(first, 0, n);
    if m < rest.len() {
        assert(response.reason =~= first.subrange(n + m + 2, first.len() as int));
        lemma_part_of_line(first, n + m + 2, first.len() as int);
    }
    let field_part = lines.drop_first();
    assert forall|i: int| 0 <= i < field_part.len() implies is_line(#[trigger] field_part[i]) by {
        assert(is_line(lines[i + 1]));
    }
    lemma_parsed_fields_are_writable(field_part);
}

/// The head that the client gets, read back, is the server's response: the same version, status
/// and reason, and the fields that are passed on. Whatever follows the head is not taken for a
/// part of it.
#[verifier::spinoff_prover]
#[verifier::rlimit(40)]
pub proof fn law_client_head_reads_back(
    head: Seq<u8>,
    response: ResponseView,
    keep_alive: bool,
    body: Seq<u8>,
)
    requires
        parse_response(head) == Ok::<ResponseView, ErrorView>(response),
    ensures
        parse_response(encode_utf8(client_response_text(response, keep_alive))) == Ok::<
            ResponseView,
            ErrorView,
        >(ResponseView { headers: client_fields(response.headers, keep_alive), ..response }),
        cut(encode_utf8(client_response_text(response, keep_alive)) + body, head_mark()) == Some(
            (encode_utf8(client_response_text(response, keep_alive)), body),
        ),
{
    lemma_parsed_response_is_writable(decode_utf8(head), response);
    lemma_status_line_is_read_back(response);
    lemma_status_line_is_a_line(response);
    let line = status_line(response);
    let passes = |f: FieldView| !is_removed_response_header(f.name);
    lemma_kept_fields_are_writable(response.headers, passes);
    lemma_literals_are_writable();
    let fields = client_fields(response.headers, keep_alive);
    assert(are_writable(fields));
    lemma_writable_fields_come_back(fields);
    lemma_written_fields_are_read_back(fields);
    let more = field_lines(fields) + "\r\n"@;
    let text = client_response_text(response, keep_alive);
    assert(text =~= line + "\r\n"@ + more);
    lemma_split_first_line(line, more);
    assert(split_lines(text).drop_first() =~= split_lines(more));
    lemma_writable_fields_come_back(response.headers);
    law_a_built_response_head_ends_once(response, keep_alive, body);
    encode_utf8_valid_utf8(text);
    encode_utf8_decode_utf8(text);
}

// ---------------------------------------------------------------------------------------------
// Fields
// ---------------------------------------------------------------------------------------------

/// Of the fields that concern one hop the upstream server gets none but the proxy's own order to
/// close; all others come first, in their order; and a Host field is always there.
pub proof fn law_request_fields_that_are_passed_on(list: Seq<FieldView>, address: Seq<char>)
    ensures
        ({
            let sent = forward_fields(list, address);
            &&& sent.last() == FieldView { name: "Connection"@, value: "close"@ }
            &&& forall|i: int|
                0 <= i < sent.len() - 1 ==> !is_removed_request_header((#[trigger] sent[i]).name)
            &&& forall|i: int|
                0 <= i < list.len() && !is_removed_request_header(list[i].name) ==> sent.contains(
                    #[trigger] list[i],
                )
            &&& kept_request_fields(list).is_prefix_of(sent)
            &&& names_host(sent)
        }),
{
    reveal_strlit("host");
    reveal_strlit("Host");
    reveal_strlit("connection");
    reveal_strlit("proxy-connection");
    reveal_strlit("proxy-authorization");
    reveal_strlit("keep-alive");
    reveal_strlit("upgrade");
    let sent = forward_fields(list, address);
    let kept = kept_request_fields(list);
    let passes = |f: FieldView| !is_removed_request_header(f.name);
    assert forall|i: int| 0 <= i < sent.len() - 1 implies !is_removed_request_header(
        (#[trigger] sent[i]).name,
    ) by {
        if i < kept.len() {
            list.lemma_filter_pred(passes, i);
            assert(sent[i] == kept[i]);
        }
    }
    assert forall|i: int|
        0 <= i < list.len() && !is_removed_request_header(list[i].name) implies sent.contains(
        #[trigger] list[i],
    ) by {
        list.lemma_filter_contains(passes, i);
        let j = choose|j: int| 0 <= j < kept.len() && kept[j] == list[i];
        assert(sent[j] == list[i]);
    }
    assert(kept =~= sent.subrange(0, kept.len() as int));
    if names_host(kept) {
        let i = choose|i: int|
            0 <= i < kept.len() && same_ignoring_case((#[trigger] kept[i]).name, "host"@);
        assert(same_ignoring_case(sent[i].name, "host"@));
    } else {
        assert(same_ignoring_case(sent[kept.len() as int].name, "host"@));
    }
}

/// Of the fields that concern one hop the client gets none but what the proxy says of the
/// connection; all others come first, in their order.
pub proof fn law_response_fields_that_are_passed_on(list: Seq<FieldView>, keep_alive: bool)
    ensures
        ({
            let sent = client_fields(list, keep_alive);
            &&& sent.last() == FieldView {
                name: "Connection"@,
                value: if keep_alive {
                    "keep-alive"@
                } else {
                    "close"@
                },
            }
            &&& forall|i: int|
                0 <= i < sent.len() - 1 ==> !is_removed_response_header((#[trigger] sent[i]).name)
            &&& forall|i: int|
                0 <= i < list.len() && !is_removed_response_header(list[i].name) ==> sent.contains(
                    #[trigger] list[i],
                )
            &&& kept_response_fields(list).is_prefix_of(sent)
        }),
{
    let sent = client_fields(list, keep_alive);
    let kept = kept_response_fields(list);
    let passes = |f: FieldView| !is_removed_response_header(f.name);
    assert forall|i: int| 0 <= i < sent.len() - 1 implies !is_removed_response_header(
        (#[trigger] sent[i]).name,
    ) by {
        list.lemma_filter_pred(passes, i);
        assert(sent[i] == kept[i]);
    }
    assert forall|i: int|
        0 <= i < list.len() && !is_removed_response_header(list[i].name) implies sent.contains(
        #[trigger] list[i],
    ) by {
        list.lemma_filter_contains(passes, i);
        let j = choose|j: int| 0 <= j < kept.len() && kept[j] == list[i];
        assert(sent[j] == list[i]);
    }
    assert(kept =~= sent.subrange(0, kept.len() as int));
}

} // verus!
