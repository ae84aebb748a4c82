//! Text as a sequence of characters: white space, letter case, trimming and splitting.
//!
//! Strings are scanned as vectors of characters, so that a position is a character's index.

use vstd::prelude::*;
use vstd::slice::slice_subrange;
use vstd::utf8::{decode_utf8, valid_utf8};

verus! {

// ---------------------------------------------------------------------------------------------
// Characters
// ---------------------------------------------------------------------------------------------

/// The characters with the Unicode property White_Space.
pub open spec fn is_white_space(c: char) -> bool {
    ||| '\u{9}' <= c && c <= '\u{d}'
    ||| c == ' '
    ||| c == '\u{85}'
    ||| c == '\u{a0}'
    ||| c == '\u{1680}'
    ||| '\u{2000}' <= c && c <= '\u{200a}'
    ||| c == '\u{2028}'
    ||| c == '\u{2029}'
    ||| c == '\u{202f}'
    ||| c == '\u{205f}'
    ||| c == '\u{3000}'
}

/// The lower-case form of an ASCII letter; every other character is left alone.
pub open spec fn ascii_lower(c: char) -> char {
    if 'A' <= c && c <= 'Z' {
        (c as u32 + 32) as char
    } else {
        c
    }
}

/// Two texts that differ at most in the case of ASCII letters.
pub open spec fn same_ignoring_case(a: Seq<char>, b: Seq<char>) -> bool {
    &&& a.len() == b.len()
    &&& forall|i: int| 0 <= i < a.len() ==> ascii_lower(#[trigger] a[i]) == ascii_lower(b[i])
}

/// Tells whether a character has the Unicode property White_Space.
pub fn isWhiteSpace(c: char) -> (r: bool)
    ensures
        r == is_white_space(c),
{
    ('\u{9}' <= c && c <= '\u{d}') || c == ' ' || c == '\u{85}' || c == '\u{a0}' || c == '\u{1680}'
        || ('\u{2000}' <= c && c <= '\u{200a}') || c == '\u{2028}' || c == '\u{2029}'
        || c == '\u{202f}' || c == '\u{205f}' || c == '\u{3000}'
}

fn toLower(c: char) -> (r: char)
    ensures
        r == ascii_lower(c),
{
    if 'A' <= c && c <= 'Z' {
        ((c as u8) + 32u8) as char
    } else {
        c
    }
}

// ---------------------------------------------------------------------------------------------
// Strings and character vectors
// ---------------------------------------------------------------------------------------------

/// `String::push` adds one character at the end.
pub assume_specification[ String::push ](s: &mut String, c: char)
    ensures
        final(s)@ == old(s)@.push(c),
;

/// The text that describes why some bytes are not UTF-8, as the standard library words it.
pub uninterp spec fn utf8_error_text(bytes: Seq<u8>) -> Seq<char>;

/// `std::str::from_utf8` accepts exactly the valid UTF-8 sequences and yields the characters that
/// they encode. A refusal depends on the bytes alone; it is handed on in the words of the
/// returned `Utf8Error`.
#[verifier::external_body]
pub(crate) fn textFromUtf8(bytes: &[u8]) -> (r: Result<String, String>)
    ensures
        r is Ok <==> valid_utf8(bytes@),
        r matches Ok(text) ==> text@ == decode_utf8(bytes@),
        r matches Err(reason) ==> reason@ == utf8_error_text(bytes@),
{
    match std::str::from_utf8(bytes) {
        Ok(text) => Ok(text.to_owned()),
        Err(error) => Err(error.to_string()),
    }
}

/// The characters of a string.
pub fn charsOf(s: &str) -> (r: Vec<char>)
    ensures
        r@ == s@,
{
    let mut out: Vec<char> = Vec::new();
    for c in it: s.chars()
        invariant
            out@ == it.seq().take(it.index()),
            it.seq() == s@,
    {
        out.push(c);
    }
    out
}

/// The string made of some characters.
pub fn stringOf(s: &[char]) -> (r: String)
    ensures
        r@ == s@,
{
    let mut out = String::new();
    for i in 0..s.len()
        invariant
            out@ == s@.take(i as int),
    {
        out.push(s[i]);
    }
    out
}

// ---------------------------------------------------------------------------------------------
// Comparison
// ---------------------------------------------------------------------------------------------

/// Compares two character sequences, letting ASCII letters match in either case.
pub fn sameIgnoringCase(a: &[char], b: &[char]) -> (r: bool)
    ensures
        r == same_ignoring_case(a@, b@),
{
    if a.len() != b.len() {
        return false;
    }
    for i in 0..a.len()
        invariant
            a.len() == b.len(),
            forall|j: int| 0 <= j < i ==> ascii_lower(#[trigger] a@[j]) == ascii_lower(b@[j]),
    {
        if toLower(a[i]) != toLower(b[i]) {
            assert(ascii_lower(a@[i as int]) != ascii_lower(b@[i as int]));
            return false;
        }
    }
    true
}

/// Compares two strings, letting ASCII letters match in either case.
pub fn eqIgnoreAsciiCase(a: &str, b: &str) -> (r: bool)
    ensures
        r == same_ignoring_case(a@, b@),
{
    let x = charsOf(a);
    let y = charsOf(b);
    sameIgnoringCase(&x, &y)
}

// ---------------------------------------------------------------------------------------------
// Trimming
// ---------------------------------------------------------------------------------------------

/// The text without the white space that it starts with.
pub open spec fn trim_start(s: Seq<char>) -> Seq<char>
    decreases s.len(),
{
    if s.len() > 0 && is_white_space(s[0]) {
        trim_start(s.drop_first())
    } else {
        s
    }
}

/// The text without the white space that it ends with.
pub open spec fn trim_end(s: Seq<char>) -> Seq<char>
    decreases s.len(),
{
    if s.len() > 0 && is_white_space(s.last()) {
        trim_end(s.drop_last())
    } else {
        s
    }
}

/// The text without the white space around it.
pub open spec fn trim(s: Seq<char>) -> Seq<char> {
    trim_end(trim_start(s))
}

/// The part of the text that is left when the white space around it is taken away.
pub fn trimmed<'a>(s: &'a [char]) -> (r: &'a [char])
    ensures
        r@ == trim(s@),
{
    let mut start: usize = 0;
    assert(s@.subrange(0, s@.len() as int) =~= s@);
    while start < s.len() && isWhiteSpace(s[start])
        invariant
            start <= s.len(),
            trim_start(s@) == trim_start(s@.subrange(start as int, s@.len() as int)),
        decreases s.len() - start,
    {
        assert(s@.subrange(start as int, s@.len() as int).drop_first() =~= s@.subrange(
            start + 1,
            s@.len() as int,
        ));
        start = start + 1;
    }
    let ghost tail = s@.subrange(start as int, s@.len() as int);
    assert(trim_start(s@) == tail);
    let mut end: usize = s.len();
    while start < end && isWhiteSpace(s[end - 1])
        invariant
            start <= end <= s.len(),
            trim_end(tail) == trim_end(s@.subrange(start as int, end as int)),
        decreases end,
    {
        assert(s@.subrange(start as int, end as int).drop_last() =~= s@.subrange(
            start as int,
            end - 1,
        ));
        end = end - 1;
    }
    slice_subrange(s, start, end)
}

// ---------------------------------------------------------------------------------------------
// Searching
// ---------------------------------------------------------------------------------------------

/// How many characters come before the first `c`; all of them where there is none.
pub open spec fn before(s: Seq<char>, c: char) -> nat
    decreases s.len(),
{
    if s.len() == 0 || s[0] == c {
        0
    } else {
        1 + before(s.drop_first(), c)
    }
}

/// Whether `part` stands in `s` from position `at` on.
pub open spec fn found_at(s: Seq<char>, part: Seq<char>, at: int) -> bool {
    &&& 0 <= at <= s.len() - part.len()
    &&& s.subrange(at, at + part.len()) == part
}

/// Whether `part` stands anywhere in `s`.
pub open spec fn holds_text(s: Seq<char>, part: Seq<char>) -> bool {
    exists|at: int| found_at(s, part, at)
}

/// How often `c` occurs.
pub open spec fn occurrences(s: Seq<char>, c: char) -> nat
    decreases s.len(),
{
    if s.len() == 0 {
        0
    } else {
        occurrences(s.drop_last(), c) + if s.last() == c {
            1nat
        } else {
            0nat
        }
    }
}

/// What follows the last `c`; the whole text where there is none.
pub open spec fn after_last(s: Seq<char>, c: char) -> Seq<char>
    decreases s.len(),
{
    if s.len() == 0 || s.last() == c {
        Seq::empty()
    } else {
        after_last(s.drop_last(), c).push(s.last())
    }
}

/// What [`before`] counts: the characters up to there differ from `c`, and the next one is `c`.
pub proof fn lemma_before(s: Seq<char>, c: char)
    ensures
        before(s, c) <= s.len(),
        forall|i: int| 0 <= i < before(s, c) ==> s[i] != c,
        before(s, c) < s.len() ==> s[before(s, c) as int] == c,
    decreases s.len(),
{
    if s.len() > 0 && s[0] != c {
        let rest = s.drop_first();
        lemma_before(rest, c);
        assert forall|i: int| 0 <= i < before(s, c) implies s[i] != c by {
            if i > 0 {
                assert(rest[i - 1] == s[i]);
            }
        }
    }
}

/// The one number with the properties of [`lemma_before`] is what [`before`] counts.
pub proof fn lemma_before_is(s: Seq<char>, c: char, n: int)
    requires
        0 <= n <= s.len(),
        forall|i: int| 0 <= i < n ==> s[i] != c,
        n < s.len() ==> s[n] == c,
    ensures
        before(s, c) == n,
{
    lemma_before(s, c);
    if before(s, c) < n {
        assert(s[before(s, c) as int] != c);
    }
}

/// The position of the first `c`, or the length of the text where there is none.
pub fn positionOf(s: &[char], c: char) -> (r: usize)
    ensures
        r == before(s@, c),
        r <= s.len(),
{
    let mut i: usize = 0;
    while i < s.len() && s[i] != c
        invariant
            i <= s.len(),
            forall|j: int| 0 <= j < i ==> s@[j] != c,
        decreases s.len() - i,
    {
        i = i + 1;
    }
    proof {
        lemma_before_is(s@, c, i as int);
    }
    i
}

/// Tells whether a prefix starts the text.
pub fn startsWith(s: &[char], prefix: &[char]) -> (r: bool)
    ensures
        r == found_at(s@, prefix@, 0),
{
    if s.len() < prefix.len() {
        return false;
    }
    for i in 0..prefix.len()
        invariant
            prefix.len() <= s.len(),
            forall|j: int| 0 <= j < i ==> s@[j] == prefix@[j],
    {
        if s[i] != prefix[i] {
            assert(s@.subrange(0, prefix@.len() as int)[i as int] != prefix@[i as int]);
            return false;
        }
    }
    assert(s@.subrange(0, 0 + prefix@.len() as int) =~= prefix@);
    true
}

/// Tells whether a text stands anywhere in another one.
pub fn holdsText(s: &[char], part: &[char]) -> (r: bool)
    ensures
        r == holds_text(s@, part@),
{
    if part.len() == 0 {
        assert(s@.subrange(0, 0) =~= part@);
        assert(found_at(s@, part@, 0));
        return true;
    }
    let mut at: usize = 0;
    while at < s.len()
        invariant
            0 < part.len(),
            at <= s.len(),
            forall|j: int| 0 <= j < at ==> !found_at(s@, part@, j),
        decreases s.len() - at,
    {
        let tail = slice_subrange(s, at, s.len());
        proof {
            if at + part@.len() <= s@.len() {
                assert(tail@.subrange(0, 0 + part@.len() as int) =~= s@.subrange(
                    at as int,
                    at + part@.len() as int,
                ));
            }
        }
        if startsWith(tail, part) {
            assert(found_at(s@, part@, at as int));
            return true;
        }
        at = at + 1;
    }
    false
}

/// Counts a character.
pub fn countOf(s: &[char], c: char) -> (r: usize)
    ensures
        r == occurrences(s@, c),
{
    let mut n: usize = 0;
    for i in 0..s.len()
        invariant
            n == occurrences(s@.take(i as int), c),
            n <= i,
    {
        assert(s@.take(i + 1).drop_last() =~= s@.take(i as int));
        if s[i] == c {
            n = n + 1;
        }
    }
    assert(s@.take(s@.len() as int) =~= s@);
    n
}

/// The part of the text behind the last `c`, or all of it where there is none.
pub fn afterLast<'a>(s: &'a [char], c: char) -> (r: &'a [char])
    ensures
        r@ == after_last(s@, c),
{
    let mut start: usize = 0;
    for i in 0..s.len()
        invariant
            start <= i,
            after_last(s@.take(i as int), c) == s@.subrange(start as int, i as int),
    {
        assert(s@.take(i + 1).drop_last() =~= s@.take(i as int));
        if s[i] == c {
            start = i + 1;
        }
    }
    assert(s@.take(s@.len() as int) =~= s@);
    slice_subrange(s, start, s.len())
}

// ---------------------------------------------------------------------------------------------
// Splitting
// ---------------------------------------------------------------------------------------------

/// The pieces between the separators: always one more than there are separators.
pub open spec fn split(s: Seq<char>, c: char) -> Seq<Seq<char>>
    decreases s.len(),
    via split_shrinks
{
    let n = before(s, c) as int;
    if n >= s.len() {
        seq![s]
    } else {
        seq![s.take(n)] + split(s.skip(n + 1), c)
    }
}

#[via_fn]
proof fn split_shrinks(s: Seq<char>, c: char) {
    lemma_before(s, c);
}

/// How many characters come before the first CR LF pair; all of them where there is none.
pub open spec fn before_line_end(s: Seq<char>) -> nat
    decreases s.len(),
{
    if s.len() == 0 || (s.len() >= 2 && s[0] == '\r' && s[1] == '\n') {
        0
    } else {
        1 + before_line_end(s.drop_first())
    }
}

/// The lines of a text whose lines are separated by CR LF.
pub open spec fn split_lines(s: Seq<char>) -> Seq<Seq<char>>
    decreases s.len(),
    via split_lines_shrinks
{
    let n = before_line_end(s) as int;
    if n >= s.len() {
        seq![s]
    } else {
        seq![s.take(n)] + split_lines(s.skip(n + 2))
    }
}

#[via_fn]
proof fn split_lines_shrinks(s: Seq<char>) {
    lemma_before_line_end(s);
}

/// Whether a CR LF pair stands at position `i`.
pub open spec fn line_end_at(s: Seq<char>, i: int) -> bool {
    0 <= i && i + 1 < s.len() && s[i] == '\r' && s[i + 1] == '\n'
}

/// What [`before_line_end`] counts.
pub proof fn lemma_before_line_end(s: Seq<char>)
    ensures
        before_line_end(s) <= s.len(),
        forall|i: int| 0 <= i < before_line_end(s) ==> !line_end_at(s, i),
        before_line_end(s) < s.len() ==> line_end_at(s, before_line_end(s) as int),
    decreases s.len(),
{
    if s.len() > 0 && !line_end_at(s, 0) {
        let rest = s.drop_first();
        lemma_before_line_end(rest);
        assert forall|i: int| 0 <= i < before_line_end(s) implies !line_end_at(s, i) by {
            if i > 0 {
                assert(!line_end_at(rest, i - 1));
            }
        }
        if before_line_end(s) < s.len() {
            assert(line_end_at(rest, before_line_end(rest) as int));
        }
    }
}

/// The one number with the properties of [`lemma_before_line_end`] is the count.
pub proof fn lemma_before_line_end_is(s: Seq<char>, n: int)
    requires
        0 <= n <= s.len(),
        forall|i: int| 0 <= i < n ==> !line_end_at(s, i),
        n < s.len() ==> line_end_at(s, n),
    ensures
        before_line_end(s) == n,
{
    lemma_before_line_end(s);
    if before_line_end(s) < n {
        assert(!line_end_at(s, before_line_end(s) as int));
    }
}

/// The words of a text: its maximal runs of characters that are not white space.
pub open spec fn words(s: Seq<char>) -> Seq<Seq<char>>
    decreases s.len(),
    via words_shrinks
{
    let t = trim_start(s);
    if t.len() == 0 {
        Seq::empty()
    } else {
        let n = word_length(t) as int;
        seq![t.take(n)] + words(t.skip(n))
    }
}

/// How many characters come before the first white space.
pub open spec fn word_length(s: Seq<char>) -> nat
    decreases s.len(),
{
    if s.len() == 0 || is_white_space(s[0]) {
        0
    } else {
        1 + word_length(s.drop_first())
    }
}

#[via_fn]
proof fn words_shrinks(s: Seq<char>) {
    lemma_trim_start(s);
    lemma_word_length(trim_start(s));
}

/// What [`trim_start`] leaves: a suffix that does not start with white space.
pub proof fn lemma_trim_start(s: Seq<char>)
    ensures
        trim_start(s).len() <= s.len(),
        trim_start(s) == s.skip(s.len() - trim_start(s).len()),
        forall|i: int| 0 <= i < s.len() - trim_start(s).len() ==> is_white_space(s[i]),
        trim_start(s).len() > 0 ==> !is_white_space(trim_start(s)[0]),
    decreases s.len(),
{
    if s.len() > 0 && is_white_space(s[0]) {
        let rest = s.drop_first();
        lemma_trim_start(rest);
        assert(rest.skip(rest.len() - trim_start(s).len()) =~= s.skip(
            s.len() - trim_start(s).len(),
        ));
        assert forall|i: int| 0 <= i < s.len() - trim_start(s).len() implies is_white_space(
            s[i],
        ) by {
            if i > 0 {
                assert(is_white_space(rest[i - 1]));
            }
        }
    } else {
        assert(s.skip(0) =~= s);
    }
}

/// What [`word_length`] counts.
pub proof fn lemma_word_length(s: Seq<char>)
    ensures
        word_length(s) <= s.len(),
        forall|i: int| 0 <= i < word_length(s) ==> !is_white_space(s[i]),
        word_length(s) < s.len() ==> is_white_space(s[word_length(s) as int]),
    decreases s.len(),
{
    if s.len() > 0 && !is_white_space(s[0]) {
        let rest = s.drop_first();
        lemma_word_length(rest);
        assert forall|i: int| 0 <= i < word_length(s) implies !is_white_space(s[i]) by {
            if i > 0 {
                assert(!is_white_space(rest[i - 1]));
            }
        }
    }
}

/// Some strings as contracts see them.
pub open spec fn texts(list: Seq<String>) -> Seq<Seq<char>> {
    list.map_values(|s: String| s@)
}

/// Cuts a text at every separator.
pub fn splitAt(s: &[char], c: char) -> (r: Vec<String>)
    ensures
        texts(r@) == split(s@, c),
{
    let mut out: Vec<String> = Vec::new();
    let mut rest = s;
    proof {
        assert(texts(out@) + split(rest@, c) =~= split(s@, c));
    }
    loop
        invariant
            texts(out@) + split(rest@, c) == split(s@, c),
        decreases rest.len(),
    {
        let n = positionOf(rest, c);
        let piece = stringOf(slice_subrange(rest, 0, n));
        let ghost taken = texts(out@);
        if n >= rest.len() {
            assert(piece@ =~= rest@);
            out.push(piece);
            assert(texts(out@) =~= taken + seq![rest@]);
            return out;
        }
        let next = slice_subrange(rest, n + 1, rest.len());
        assert(piece@ =~= rest@.take(n as int));
        assert(next@ =~= rest@.skip(n + 1));
        out.push(piece);
        assert(texts(out@) + split(next@, c) =~= taken + (seq![rest@.take(n as int)] + split(
            next@,
            c,
        )));
        rest = next;
    }
}

/// Cuts a text into lines at every CR LF.
pub fn splitLines(text: &str) -> (r: Vec<String>)
    ensures
        texts(r@) == split_lines(text@),
        r@.len() > 0,
{
    let s = charsOf(text);
    let mut out: Vec<String> = Vec::new();
    let mut start: usize = 0;
    proof {
        assert(s@.skip(0) =~= s@);
        assert(texts(out@) + split_lines(s@) =~= split_lines(s@));
    }
    loop
        invariant
            s@ == text@,
            start <= s.len(),
            texts(out@) + split_lines(s@.skip(start as int)) == split_lines(s@),
        decreases s.len() - start,
    {
        let ghost rest = s@.skip(start as int);
        let ghost taken = texts(out@);
        let mut end: usize = start;
        while end < s.len() && !(end + 1 < s.len() && s[end] == '\r' && s[end + 1] == '\n')
            invariant
                start <= end <= s.len(),
                rest == s@.skip(start as int),
                forall|i: int| 0 <= i < end - start ==> !line_end_at(rest, i),
            decreases s.len() - end,
        {
            assert(!line_end_at(rest, end - start));
            end = end + 1;
        }
        proof {
            lemma_before_line_end_is(rest, end - start);
        }
        let line = stringOf(slice_subrange(&s, start, end));
        if end >= s.len() {
            assert(line@ =~= rest);
            out.push(line);
            assert(texts(out@) =~= taken + seq![rest]);
            return out;
        }
        assert(line@ =~= rest.take(end - start));
        assert(rest.skip(end - start + 2) =~= s@.skip(end + 2));
        out.push(line);
        assert(texts(out@) + split_lines(s@.skip(end + 2)) =~= taken + (seq![rest.take(end - start)]
            + split_lines(s@.skip(end + 2))));
        start = end + 2;
    }
}

/// Cuts a text into words.
pub fn splitWords(text: &str) -> (r: Vec<String>)
    ensures
        texts(r@) == words(text@),
{
    let s = charsOf(text);
    let mut out: Vec<String> = Vec::new();
    let mut start: usize = 0;
    proof {
        assert(s@.skip(0) =~= s@);
        assert(texts(out@) + words(s@) =~= words(s@));
    }
    loop
        invariant
            s@ == text@,
            start <= s.len(),
            texts(out@) + words(s@.skip(start as int)) == words(s@),
        decreases s.len() - start,
    {
        let ghost rest = s@.skip(start as int);
        let ghost taken = texts(out@);
        let mut begin: usize = start;
        while begin < s.len() && isWhiteSpace(s[begin])
            invariant
                start <= begin <= s.len(),
                rest == s@.skip(start as int),
                trim_start(rest) == trim_start(s@.skip(begin as int)),
            decreases s.len() - begin,
        {
            assert(s@.skip(begin as int).drop_first() =~= s@.skip(begin + 1));
            begin = begin + 1;
        }
        let ghost t = s@.skip(begin as int);
        assert(trim_start(rest) == t);
        if begin >= s.len() {
            assert(words(rest) =~= Seq::empty());
            assert(texts(out@) + words(rest) =~= texts(out@));
            return out;
        }
        let mut end: usize = begin;
        while end < s.len() && !isWhiteSpace(s[end])
            invariant
                begin <= end <= s.len(),
                t == s@.skip(begin as int),
                forall|i: int| begin <= i < end ==> !is_white_space(s@[i]),
            decreases s.len() - end,
        {
            end = end + 1;
        }
        proof {
            lemma_word_length(t);
            let n = word_length(t) as int;
            if n < end - begin {
                assert(is_white_space(t[n]));
                assert(!is_white_space(s@[begin + n]));
            } else if n > end - begin {
                assert(!is_white_space(t[end - begin]));
            }
        }
        let word = stringOf(slice_subrange(&s, begin, end));
        assert(word@ =~= t.take(end - begin));
        assert(t.skip(end - begin) =~= s@.skip(end as int));
        out.push(word);
        assert(texts(out@) + words(s@.skip(end as int)) =~= taken + (seq![t.take(end - begin)]
            + words(s@.skip(end as int))));
        start = end;
    }
}

} // verus!
