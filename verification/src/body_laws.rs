//! What a body looks like on the wire, and that exactly that is passed on.

use vstd::prelude::*;
use vstd::utf8::{
    encode_utf8, encode_utf8_decode_utf8, encode_utf8_valid_utf8, is_ascii_chars,
    is_ascii_chars_encode_utf8, valid_utf8,
};

use crate::body::{
    body_length, body_start, body_step, chunk_size, chunk_size_text, forward_body, joined,
    law_a_whole_body_gets_through, law_forwarding_keeps_every_byte,
    law_forwarding_stops_at_the_end_of_the_body, lines_fit, plus, BodyPhase, BodyStep,
};
use crate::error::{invalid, ErrorView};
use crate::framing::BodyMode;
use crate::number::{hexadecimal, number_error_text, number_text, parse_number};
use crate::number_laws::{
    are_hexadecimal, is_hexadecimal, law_hexadecimal_digits_are_read,
    law_what_is_not_a_number_is_refused, law_written_numbers_are_worth_themselves, worth,
};
use crate::stream::{crlf_at, cut, law_a_line_ends_at_its_first_cr_lf, line_mark};
use crate::text::{before, is_white_space, lemma_before_is, trim, utf8_error_text};
use crate::text_laws::{is_blank, is_trimmed, law_trimming_takes_white_space_alone};

verus! {

// ---------------------------------------------------------------------------------------------
// Chunk lines
// ---------------------------------------------------------------------------------------------

/// The text of a chunk size stands before the first semicolon, with white space round it or not.
proof fn lemma_size_is_found(left: Seq<char>, size: Seq<char>, right: Seq<char>, more: Seq<char>)
    requires
        is_blank(left),
        is_blank(right),
        is_trimmed(size),
        !size.contains(';'),
        more.len() == 0 || more[0] == ';',
    ensures
        ({
            let text = left + size + right + more;
            trim(text.take(before(text, ';') as int)) == size
        }),
{
    let text = left + size + right + more;
    let front = left + size + right;
    let n = front.len() as int;
    assert forall|i: int| 0 <= i < n implies text[i] != ';' by {
        if i < left.len() {
            assert(is_white_space(left[i]));
            assert(text[i] == left[i]);
        } else if i < left.len() + size.len() {
            assert(text[i] == size[i - left.len()]);
            assert(size.contains(size[i - left.len()]));
        } else {
            assert(is_white_space(right[i - left.len() - size.len()]));
            assert(text[i] == right[i - left.len() - size.len()]);
        }
    }
    lemma_before_is(text, ';', n);
    assert(text.take(n) =~= front);
    law_trimming_takes_white_space_alone(left, size, right);
}

proof fn lemma_digits_are_no_space(digits: Seq<char>)
    requires
        are_hexadecimal(digits),
    ensures
        is_trimmed(digits),
        !digits.contains(';'),
{
    if digits.len() > 0 {
        assert(is_hexadecimal(digits[0]));
        assert(is_hexadecimal(digits[digits.len() - 1]));
    }
    if digits.contains(';') {
        let i = choose|i: int| 0 <= i < digits.len() && digits[i] == ';';
        assert(is_hexadecimal(digits[i]));
    }
}

/// What stands before the first semicolon of a chunk line, without the white space round it, is
/// read in hexadecimal, with a plus sign or without; where it cannot be read, the line is refused
/// for that reason. A line is read as the text that its bytes encode.
pub proof fn law_a_chunk_size_stands_before_the_semicolon(
    left: Seq<char>,
    size: Seq<char>,
    right: Seq<char>,
    more: Seq<char>,
    bytes: Seq<u8>,
)
    requires
        is_blank(left),
        is_blank(right),
        is_trimmed(size),
        !size.contains(';'),
        more.len() == 0 || more[0] == ';',
    ensures
        chunk_size_text(left + size + right + more) == match parse_number(
            size,
            16,
            0xffff_ffff_ffff_ffff,
        ) {
            Ok(n) => Ok::<u64, ErrorView>(n as u64),
            Err(e) => Err(invalid("invalid chunk size: "@ + number_error_text(e))),
        },
        chunk_size(encode_utf8(left + size + right + more)) == chunk_size_text(
            left + size + right + more,
        ),
        !valid_utf8(bytes) ==> chunk_size(bytes) == Err::<u64, ErrorView>(
            invalid("invalid chunk size line: "@ + utf8_error_text(bytes)),
        ),
{
    lemma_size_is_found(left, size, right, more);
    encode_utf8_valid_utf8(left + size + right + more);
    encode_utf8_decode_utf8(left + size + right + more);
}

/// A chunk line is read in hexadecimal: a row of hexadecimal digits in either case, with white
/// space round it or not, and anything behind a semicolon, is worth its size, unless that is more
/// than 64 bits hold.
pub proof fn law_a_chunk_line_is_read_in_hexadecimal(
    left: Seq<char>,
    digits: Seq<char>,
    right: Seq<char>,
    extension: Seq<char>,
)
    requires
        is_blank(left),
        is_blank(right),
        digits.len() > 0,
        are_hexadecimal(digits),
    ensures
        worth(digits, 16) <= u64::MAX ==> {
            &&& chunk_size_text(left + digits + right) == Ok::<u64, ErrorView>(
                worth(digits, 16) as u64,
            )
            &&& chunk_size_text(left + digits + right + seq![';'] + extension) == Ok::<
                u64,
                ErrorView,
            >(worth(digits, 16) as u64)
        },
        worth(digits, 16) > u64::MAX ==> {
            &&& chunk_size_text(left + digits + right) is Err
            &&& chunk_size_text(left + digits + right + seq![';'] + extension) is Err
        },
{
    lemma_digits_are_no_space(digits);
    law_hexadecimal_digits_are_read(digits, u64::MAX as nat);
    lemma_size_is_found(left, digits, right, Seq::empty());
    lemma_size_is_found(left, digits, right, seq![';'] + extension);
    let front = left + digits + right;
    assert(front + Seq::<char>::empty() =~= front);
    assert(front + (seq![';'] + extension) =~= front + seq![';'] + extension);
}

/// A chunk line whose size holds anything but hexadecimal digits, behind a plus sign or none, or
/// that names no size, is refused.
pub proof fn law_a_chunk_line_without_a_size_is_refused(
    left: Seq<char>,
    size: Seq<char>,
    right: Seq<char>,
    extension: Seq<char>,
)
    requires
        is_blank(left),
        is_blank(right),
        is_trimmed(size),
        !size.contains(';'),
        size.len() == 0 || (!is_hexadecimal(size[0]) && size[0] != '+') || exists|i: int|
            0 < i < size.len() && !is_hexadecimal(#[trigger] size[i]),
    ensures
        chunk_size_text(left + size + right) is Err,
        chunk_size_text(left + size + right + seq![';'] + extension) is Err,
{
    law_what_is_not_a_number_is_refused(size, u64::MAX as nat);
    lemma_size_is_found(left, size, right, Seq::empty());
    lemma_size_is_found(left, size, right, seq![';'] + extension);
    let front = left + size + right;
    assert(front + Seq::<char>::empty() =~= front);
    assert(front + (seq![';'] + extension) =~= front + seq![';'] + extension);
}

/// A chunk line made of the hexadecimal digits of a number, with or without an extension behind a
/// semicolon, and CR LF, has that number as its size.
pub proof fn law_a_chunk_line_names_its_size(n: u64, extension: Seq<char>)
    ensures
        chunk_size_text(number_text(n as nat, 16) + "\r\n"@) == Ok::<u64, ErrorView>(n),
        chunk_size_text(number_text(n as nat, 16) + ";"@ + extension + "\r\n"@) == Ok::<
            u64,
            ErrorView,
        >(n),
        chunk_size(encode_utf8(number_text(n as nat, 16) + "\r\n"@)) == Ok::<u64, ErrorView>(n),
        chunk_size(encode_utf8(number_text(n as nat, 16) + ";"@ + extension + "\r\n"@)) == Ok::<
            u64,
            ErrorView,
        >(n),
{
    reveal_strlit("\r\n");
    reveal_strlit(";");
    let digits = number_text(n as nat, 16);
    let none = Seq::<char>::empty();
    law_written_numbers_are_worth_themselves(n as nat);
    law_a_chunk_line_is_read_in_hexadecimal(none, digits, "\r\n"@, none);
    law_a_chunk_line_is_read_in_hexadecimal(none, digits, none, extension + "\r\n"@);
    let plain = digits + "\r\n"@;
    let extended = digits + ";"@ + extension + "\r\n"@;
    assert(none + digits + "\r\n"@ =~= plain);
    assert(none + digits + none + seq![';'] + (extension + "\r\n"@) =~= extended);
    encode_utf8_valid_utf8(plain);
    encode_utf8_decode_utf8(plain);
    encode_utf8_valid_utf8(extended);
    encode_utf8_decode_utf8(extended);
}

// ---------------------------------------------------------------------------------------------
// Chunked bodies
// ---------------------------------------------------------------------------------------------

/// A chunk as it is sent: some bytes, and an extension of its size line.
pub struct SentChunk {
    pub extension: Seq<char>,
    pub data: Seq<u8>,
}

/// Whether a text can stand behind the size on a chunk line: nothing, or ASCII text behind a
/// semicolon that stays on the line.
pub open spec fn is_extension(s: Seq<char>) -> bool {
    &&& is_ascii_chars(s)
    &&& s.len() == 0 || s[0] == ';'
    &&& !s.contains('\r')
}

/// A size line: the size in hexadecimal, the extension, and CR LF.
pub open spec fn size_line(size: nat, extension: Seq<char>) -> Seq<u8> {
    encode_utf8(hexadecimal(size) + extension) + seq![13u8, 10]
}

/// Lines behind the last chunk, each with its CR LF.
pub open spec fn sent_lines(lines: Seq<Seq<u8>>) -> Seq<u8>
    decreases lines.len(),
{
    if lines.len() == 0 {
        Seq::empty()
    } else {
        lines[0] + seq![13u8, 10] + sent_lines(lines.drop_first())
    }
}

/// A chunked body: chunk after chunk, each with its size line in front and CR LF behind it, then
/// an empty chunk, some lines, and an empty line.
pub open spec fn chunked_body(
    chunks: Seq<SentChunk>,
    extension: Seq<char>,
    lines: Seq<Seq<u8>>,
) -> Seq<u8>
    decreases chunks.len(),
{
    if chunks.len() == 0 {
        size_line(0, extension) + (sent_lines(lines) + seq![13u8, 10])
    } else {
        size_line(chunks[0].data.len(), chunks[0].extension) + (chunks[0].data + seq![13u8, 10]
            + chunked_body(chunks.drop_first(), extension, lines))
    }
}

/// Whether chunks can be sent: none is empty, and their sizes fit into 64 bits.
pub open spec fn are_chunks(chunks: Seq<SentChunk>) -> bool {
    forall|i: int|
        0 <= i < chunks.len() ==> 0 < (#[trigger] chunks[i]).data.len() <= u64::MAX
            && is_extension(chunks[i].extension)
}

/// Whether lines can stand behind the last chunk: none is empty, and each is one line.
pub open spec fn are_trailers(lines: Seq<Seq<u8>>) -> bool {
    forall|i: int|
        0 <= i < lines.len() ==> (#[trigger] lines[i]).len() > 0 && forall|j: int|
            !crlf_at(lines[i], j)
}

proof fn lemma_size_line(size: u64, extension: Seq<char>, rest: Seq<u8>)
    requires
        is_extension(extension),
    ensures
        cut(size_line(size as nat, extension) + rest, line_mark()) == Some(
            (size_line(size as nat, extension), rest),
        ),
        chunk_size(size_line(size as nat, extension)) == Ok::<u64, ErrorView>(size),
{
    reveal_strlit("\r\n");
    let digits = hexadecimal(size as nat);
    law_written_numbers_are_worth_themselves(size as nat);
    let text = digits + extension;
    assert forall|i: int| 0 <= i < text.len() implies '\0' <= #[trigger] text[i] <= '\u{7f}'
        && text[i] != '\r' by {
        if i < digits.len() {
            assert(is_hexadecimal(digits[i]));
        } else {
            assert(text[i] == extension[i - digits.len()]);
            assert(extension.contains(extension[i - digits.len()]));
        }
    }
    assert(is_ascii_chars(text));
    let bytes = encode_utf8(text);
    is_ascii_chars_encode_utf8(text);
    assert forall|i: int| !crlf_at(bytes, i) by {
        if 0 <= i < bytes.len() {
            lemma_not_carriage_return(text[i]);
        }
    }
    law_a_line_ends_at_its_first_cr_lf(bytes, rest);
    let ended = text + "\r\n"@;
    assert(is_ascii_chars(ended));
    is_ascii_chars_encode_utf8(ended);
    lemma_line_end_bytes('\r', '\n');
    assert forall|i: int| 0 <= i < ended.len() implies encode_utf8(ended)[i] == size_line(
        size as nat,
        extension,
    )[i] by {
        if i < text.len() {
            assert(ended[i] == text[i]);
        }
    }
    assert(encode_utf8(ended) =~= size_line(size as nat, extension));
    if extension.len() == 0 {
        law_a_chunk_line_names_its_size(size, Seq::empty());
        assert(ended =~= digits + "\r\n"@);
    } else {
        reveal_strlit(";");
        law_a_chunk_line_names_its_size(size, extension.drop_first());
        assert(";"@ + extension.drop_first() =~= extension);
        assert(ended =~= digits + ";"@ + extension.drop_first() + "\r\n"@);
    }
}

proof fn lemma_not_carriage_return(c: char)
    requires
        '\0' <= c <= '\u{7f}',
        c != '\r',
    ensures
        c as u8 != 13,
{
    if c as u8 == 13 {
        assert(c as u32 == 13);
        assert(c == '\r');
    }
}

proof fn lemma_line_end_bytes(cr: char, lf: char)
    requires
        cr == '\r',
        lf == '\n',
    ensures
        cr as u8 == 13,
        lf as u8 == 10,
{
}

proof fn lemma_trailers_end(lines: Seq<Seq<u8>>, after: Seq<u8>)
    requires
        are_trailers(lines),
    ensures
        body_length(BodyPhase::Trailer, sent_lines(lines) + seq![13u8, 10] + after) == Some(
            sent_lines(lines).len() + 2,
        ),
    decreases lines.len(),
{
    let stream = sent_lines(lines) + seq![13u8, 10] + after;
    if lines.len() == 0 {
        let none = Seq::<u8>::empty();
        law_a_line_ends_at_its_first_cr_lf(none, after);
        assert(stream =~= none + seq![13u8, 10] + after);
        assert(none + seq![13u8, 10] =~= line_mark());
    } else {
        let rest = sent_lines(lines.drop_first()) + seq![13u8, 10] + after;
        assert(lines[0].len() > 0);
        law_a_line_ends_at_its_first_cr_lf(lines[0], rest);
        assert(stream =~= lines[0] + seq![13u8, 10] + rest);
        assert((lines[0] + seq![13u8, 10]).len() > line_mark().len());
        assert forall|i: int| 0 <= i < lines.drop_first().len() implies (
            #[trigger] lines.drop_first()[i]).len() > 0 && forall|j: int|
            !crlf_at(lines.drop_first()[i], j) by {
            assert(lines[i + 1].len() > 0);
        }
        lemma_trailers_end(lines.drop_first(), after);
    }
}

/// A chunked body ends where it was meant to end, whatever follows it on the connection.
pub proof fn law_a_chunked_body_ends_behind_its_last_line(
    chunks: Seq<SentChunk>,
    extension: Seq<char>,
    lines: Seq<Seq<u8>>,
    after: Seq<u8>,
)
    requires
        are_chunks(chunks),
        is_extension(extension),
        are_trailers(lines),
    ensures
        body_length(
            body_start(BodyMode::Chunked),
            chunked_body(chunks, extension, lines) + after,
        ) == Some(chunked_body(chunks, extension, lines).len()),
    decreases chunks.len(),
{
    let whole = chunked_body(chunks, extension, lines);
    let stream = whole + after;
    if chunks.len() == 0 {
        let tail = sent_lines(lines) + seq![13u8, 10] + after;
        let line = size_line(0, extension);
        lemma_size_line(0, extension, tail);
        assert(stream =~= line + tail);
        lemma_trailers_end(lines, after);
        assert(body_length(BodyPhase::Size { line }, tail) == body_length(
            BodyPhase::Trailer,
            tail,
        ));
    } else {
        let chunk = chunks[0];
        let size = chunk.data.len();
        let line = size_line(size, chunk.extension);
        let later = chunked_body(chunks.drop_first(), extension, lines);
        let tail = chunk.data + seq![13u8, 10] + (later + after);
        lemma_size_line(size as u64, chunk.extension, tail);
        assert(stream =~= line + tail);
        assert(tail.skip(size as int + 2) =~= later + after);
        assert forall|i: int| 0 <= i < chunks.drop_first().len() implies 0 < (
            #[trigger] chunks.drop_first()[i]).data.len() <= u64::MAX && is_extension(
            chunks.drop_first()[i].extension,
        ) by {
            assert(chunks[i + 1].data.len() > 0);
        }
        law_a_chunked_body_ends_behind_its_last_line(chunks.drop_first(), extension, lines, after);
        assert(body_length(BodyPhase::Chunk { remaining: size + 2 }, tail) == plus(
            size + 2,
            Some(later.len()),
        ));
        assert(body_length(BodyPhase::Size { line }, tail) == Some(size + 2 + later.len()));
    }
}

/// Whether no line of a chunked body, with its CR LF, is longer than 65536 bytes.
pub open spec fn has_short_lines(
    chunks: Seq<SentChunk>,
    extension: Seq<char>,
    lines: Seq<Seq<u8>>,
) -> bool {
    &&& size_line(0, extension).len() <= 65536
    &&& forall|i: int|
        0 <= i < chunks.len() ==> size_line(
            (#[trigger] chunks[i]).data.len(),
            chunks[i].extension,
        ).len() <= 65536
    &&& forall|i: int| 0 <= i < lines.len() ==> (#[trigger] lines[i]).len() + 2 <= 65536
}

proof fn lemma_trailers_fit(lines: Seq<Seq<u8>>, after: Seq<u8>)
    requires
        are_trailers(lines),
        forall|i: int| 0 <= i < lines.len() ==> (#[trigger] lines[i]).len() + 2 <= 65536,
    ensures
        lines_fit(BodyPhase::Trailer, sent_lines(lines) + seq![13u8, 10] + after),
    decreases lines.len(),
{
    let stream = sent_lines(lines) + seq![13u8, 10] + after;
    if lines.len() == 0 {
        let none = Seq::<u8>::empty();
        law_a_line_ends_at_its_first_cr_lf(none, after);
        assert(stream =~= none + seq![13u8, 10] + after);
        assert(none + seq![13u8, 10] =~= line_mark());
    } else {
        let later = lines.drop_first();
        let rest = sent_lines(later) + seq![13u8, 10] + after;
        assert(lines[0].len() + 2 <= 65536);
        law_a_line_ends_at_its_first_cr_lf(lines[0], rest);
        assert(stream =~= lines[0] + seq![13u8, 10] + rest);
        assert forall|i: int| 0 <= i < later.len() implies (#[trigger] later[i]).len() > 0
            && later[i].len() + 2 <= 65536 && forall|j: int| !crlf_at(later[i], j) by {
            assert(lines[i + 1].len() > 0);
        }
        lemma_trailers_fit(later, after);
    }
}

/// Lines of up to 65536 bytes are not too long for a chunked body.
pub proof fn law_short_lines_fit(
    chunks: Seq<SentChunk>,
    extension: Seq<char>,
    lines: Seq<Seq<u8>>,
    after: Seq<u8>,
)
    requires
        are_chunks(chunks),
        is_extension(extension),
        are_trailers(lines),
        has_short_lines(chunks, extension, lines),
    ensures
        lines_fit(
            body_start(BodyMode::Chunked),
            chunked_body(chunks, extension, lines) + after,
        ),
    decreases chunks.len(),
{
    let stream = chunked_body(chunks, extension, lines) + after;
    if chunks.len() == 0 {
        let tail = sent_lines(lines) + seq![13u8, 10] + after;
        let line = size_line(0, extension);
        lemma_size_line(0, extension, tail);
        assert(stream =~= line + tail);
        lemma_trailers_fit(lines, after);
        assert(lines_fit(BodyPhase::Size { line }, tail));
    } else {
        let chunk = chunks[0];
        let size = chunk.data.len();
        let line = size_line(size, chunk.extension);
        let others = chunks.drop_first();
        let later = chunked_body(others, extension, lines);
        let tail = chunk.data + seq![13u8, 10] + (later + after);
        lemma_size_line(size as u64, chunk.extension, tail);
        assert(stream =~= line + tail);
        assert(tail.skip(size as int + 2) =~= later + after);
        assert forall|i: int| 0 <= i < others.len() implies 0 < (#[trigger] others[i]).data.len()
            <= u64::MAX && is_extension(others[i].extension) && size_line(
            others[i].data.len(),
            others[i].extension,
        ).len() <= 65536 by {
            assert(others[i] == chunks[i + 1]);
        }
        law_short_lines_fit(others, extension, lines, after);
        assert(lines_fit(BodyPhase::Chunk { remaining: size + 2 }, tail));
        assert(lines_fit(BodyPhase::Size { line }, tail));
    }
}

/// A body of a known length ends after that many bytes, and a body that is not there before the
/// first.
pub proof fn law_a_counted_body_ends_where_its_length_says(n: u64, body: Seq<u8>, after: Seq<u8>)
    requires
        body.len() == n,
    ensures
        body_length(body_start(BodyMode::ContentLength(n)), body + after) == Some(n as nat),
        body_length(body_start(BodyMode::Empty), body + after) == Some(0nat),
        body_start(BodyMode::UntilClose) == BodyPhase::UntilClose,
{
}

/// A chunk line that names no size ends the body there: nothing behind it is passed on.
pub proof fn law_nothing_follows_a_bad_chunk_line(line: Seq<u8>, buffer: Seq<u8>)
    requires
        chunk_size(line) is Err,
    ensures
        body_step(BodyPhase::Size { line }, buffer) == Err::<
            (BodyPhase, Seq<u8>, BodyStep),
            ErrorView,
        >(chunk_size(line)->Err_0),
        body_length(BodyPhase::Size { line }, buffer) is None,
{
}

/// Whatever is sent as the body of a message is passed on byte for byte, however the connection
/// cuts it up; what follows it on the connection is left for later.
pub proof fn law_a_body_is_passed_on_as_it_was_sent(
    mode: BodyMode,
    body: Seq<u8>,
    after: Seq<u8>,
    buffer: Seq<u8>,
    reads: Seq<Seq<u8>>,
    steps: nat,
)
    requires
        !(mode is UntilClose),
        body_length(body_start(mode), body + after) == Some(body.len()),
        buffer + joined(reads) == body + after,
        lines_fit(body_start(mode), body + after),
        forall|i: int| 0 <= i < reads.len() ==> (#[trigger] reads[i]).len() > 0,
        steps > buffer.len() + joined(reads).len() + reads.len(),
    ensures
        forward_body(body_start(mode), buffer, reads, steps) matches Some(f) && f.written == body
            && f.left + joined(f.unread) == after,
{
    let phase = body_start(mode);
    law_a_whole_body_gets_through(phase, buffer, reads, steps);
    law_forwarding_stops_at_the_end_of_the_body(phase, buffer, reads, steps);
    law_forwarding_keeps_every_byte(phase, buffer, reads, steps);
    let f = forward_body(phase, buffer, reads, steps)->0;
    let stream = body + after;
    assert(stream.take(body.len() as int) =~= body);
    let rest = f.left + joined(f.unread);
    assert(f.written + f.left + joined(f.unread) =~= body + rest);
    assert(rest =~= (body + rest).skip(body.len() as int));
    assert(after =~= stream.skip(body.len() as int));
}

/// A chunked body is passed on byte for byte from its first size line to its last empty line,
/// however the connection cuts it up; what follows it on the connection is left for later.
pub proof fn law_a_chunked_body_is_passed_on(
    chunks: Seq<SentChunk>,
    extension: Seq<char>,
    lines: Seq<Seq<u8>>,
    after: Seq<u8>,
    buffer: Seq<u8>,
    reads: Seq<Seq<u8>>,
    steps: nat,
)
    requires
        are_chunks(chunks),
        is_extension(extension),
        are_trailers(lines),
        has_short_lines(chunks, extension, lines),
        buffer + joined(reads) == chunked_body(chunks, extension, lines) + after,
        forall|i: int| 0 <= i < reads.len() ==> (#[trigger] reads[i]).len() > 0,
        steps > buffer.len() + joined(reads).len() + reads.len(),
    ensures
        forward_body(body_start(BodyMode::Chunked), buffer, reads, steps) matches Some(f)
            && f.written == chunked_body(chunks, extension, lines) && f.left + joined(f.unread)
            == after,
{
    law_a_chunked_body_ends_behind_its_last_line(chunks, extension, lines, after);
    law_short_lines_fit(chunks, extension, lines, after);
    law_a_body_is_passed_on_as_it_was_sent(
        BodyMode::Chunked,
        chunked_body(chunks, extension, lines),
        after,
        buffer,
        reads,
        steps,
    );
}

} // verus!
