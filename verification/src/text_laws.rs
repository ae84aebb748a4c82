//! What holds of trimming, lines, words and searching.

use vstd::prelude::*;

use crate::number::{decimal, is_digit, lemma_number_text};
use crate::text::{
    after_last, ascii_lower, before, before_line_end, is_white_space, lemma_before,
    lemma_before_is, lemma_before_line_end, lemma_before_line_end_is, lemma_trim_start,
    lemma_word_length, line_end_at, occurrences, same_ignoring_case, split, split_lines, trim,
    trim_end, trim_start, word_length, words,
};

verus! {

// ---------------------------------------------------------------------------------------------
// Trimming
// ---------------------------------------------------------------------------------------------

/// Whether a text neither starts nor ends with white space.
pub open spec fn is_trimmed(s: Seq<char>) -> bool {
    s.len() > 0 ==> !is_white_space(s[0]) && !is_white_space(s.last())
}

/// What trimming leaves: a part of the text that is trimmed.
pub proof fn lemma_trim(s: Seq<char>) -> (start: int)
    ensures
        0 <= start <= start + trim(s).len() <= s.len(),
        trim(s) == s.subrange(start, start + trim(s).len()),
        is_trimmed(trim(s)),
{
    let t = trim_start(s);
    lemma_trim_start(s);
    lemma_trim_end(t);
    let start = s.len() - t.len();
    assert(trim(s) =~= s.subrange(start, start + trim(s).len()));
    start
}

proof fn lemma_trim_end(s: Seq<char>)
    ensures
        trim_end(s).len() <= s.len(),
        trim_end(s) == s.take(trim_end(s).len() as int),
        trim_end(s).len() > 0 ==> !is_white_space(trim_end(s).last()),
    decreases s.len(),
{
    if s.len() > 0 && is_white_space(s.last()) {
        lemma_trim_end(s.drop_last());
        assert(s.drop_last().take(trim_end(s).len() as int) =~= s.take(trim_end(s).len() as int));
    } else {
        assert(s.take(s.len() as int) =~= s);
    }
}

/// Trimming leaves a trimmed text alone.
pub proof fn lemma_trim_is_done(s: Seq<char>)
    requires
        is_trimmed(s),
    ensures
        trim(s) == s,
{
}

/// Trimming takes away a space in front.
pub proof fn lemma_trim_takes_a_space(s: Seq<char>)
    ensures
        trim(seq![' '] + s) == trim(s),
{
    let spaced = seq![' '] + s;
    assert(spaced.drop_first() =~= s);
}

// ---------------------------------------------------------------------------------------------
// Lines
// ---------------------------------------------------------------------------------------------

/// Whether a text is a single line.
pub open spec fn is_line(s: Seq<char>) -> bool {
    forall|i: int| !line_end_at(s, i)
}

/// A part of a line is a line.
pub proof fn lemma_part_of_line(s: Seq<char>, from: int, to: int)
    requires
        is_line(s),
        0 <= from <= to <= s.len(),
    ensures
        is_line(s.subrange(from, to)),
{
    let part = s.subrange(from, to);
    assert forall|i: int| !line_end_at(part, i) by {
        assert(!line_end_at(s, from + i));
    }
}

/// Every piece between line ends is a line.
pub proof fn lemma_split_lines_are_lines(s: Seq<char>)
    ensures
        split_lines(s).len() > 0,
        forall|i: int| 0 <= i < split_lines(s).len() ==> is_line(#[trigger] split_lines(s)[i]),
    decreases s.len(),
{
    let n = before_line_end(s) as int;
    lemma_before_line_end(s);
    if n >= s.len() {
        assert forall|i: int| !line_end_at(s, i) by {}
    } else {
        let line = s.take(n);
        let rest = split_lines(s.skip(n + 2));
        lemma_split_lines_are_lines(s.skip(n + 2));
        assert forall|i: int| !line_end_at(line, i) by {
            if 0 <= i < n {
                assert(!line_end_at(s, i));
            }
        }
        assert forall|i: int| 0 <= i < split_lines(s).len() implies is_line(
            #[trigger] split_lines(s)[i],
        ) by {
            if i > 0 {
                assert(split_lines(s)[i] == rest[i - 1]);
            }
        }
    }
}

/// A line with its line end is the first piece.
pub proof fn lemma_split_first_line(line: Seq<char>, rest: Seq<char>)
    requires
        is_line(line),
    ensures
        split_lines(line + "\r\n"@ + rest) == seq![line] + split_lines(rest),
{
    reveal_strlit("\r\n");
    let s = line + "\r\n"@ + rest;
    let n = line.len() as int;
    assert forall|i: int| 0 <= i < n implies !line_end_at(s, i) by {
        assert(!line_end_at(line, i));
    }
    assert(line_end_at(s, n));
    lemma_before_line_end_is(s, n);
    assert(s.take(n) =~= line);
    assert(s.skip(n + 2) =~= rest);
}

// ---------------------------------------------------------------------------------------------
// Words
// ---------------------------------------------------------------------------------------------

/// Whether a text is a single word.
pub open spec fn is_word(s: Seq<char>) -> bool {
    &&& s.len() > 0
    &&& forall|i: int| 0 <= i < s.len() ==> !is_white_space(#[trigger] s[i])
}

/// Every piece between white space is a word.
pub proof fn lemma_words_are_words(s: Seq<char>)
    ensures
        forall|i: int| 0 <= i < words(s).len() ==> is_word(#[trigger] words(s)[i]),
    decreases s.len(),
{
    let t = trim_start(s);
    lemma_trim_start(s);
    lemma_word_length(t);
    if t.len() > 0 {
        let n = word_length(t) as int;
        let rest = words(t.skip(n));
        lemma_words_are_words(t.skip(n));
        assert(is_word(t.take(n)));
        assert forall|i: int| 0 <= i < words(s).len() implies is_word(#[trigger] words(s)[i]) by {
            if i > 0 {
                assert(words(s)[i] == rest[i - 1]);
            }
        }
    }
}

proof fn lemma_first_word(word: Seq<char>, rest: Seq<char>)
    requires
        is_word(word),
        rest.len() == 0 || rest[0] == ' ',
    ensures
        words(word + rest) == seq![word] + words(rest),
{
    let s = word + rest;
    let n = word.len() as int;
    assert(!is_white_space(word[0]));
    assert(s[0] == word[0]);
    assert(trim_start(s) == s);
    lemma_word_length(s);
    let m = word_length(s) as int;
    if m < n {
        assert(is_white_space(s[m]));
        assert(!is_white_space(word[m]));
    } else if m > n {
        assert(!is_white_space(s[n]));
    }
    assert(s.take(n) =~= word);
    assert(s.skip(n) =~= rest);
}

proof fn lemma_words_skip_a_space(s: Seq<char>)
    ensures
        words(seq![' '] + s) == words(s),
{
    let spaced = seq![' '] + s;
    assert(spaced.drop_first() =~= s);
    assert(trim_start(spaced) == trim_start(s));
}

/// Three words with spaces between them are read back.
pub proof fn lemma_three_words(a: Seq<char>, b: Seq<char>, c: Seq<char>)
    requires
        is_word(a),
        is_word(b),
        is_word(c),
    ensures
        words(a + " "@ + b + " "@ + c) == seq![a, b, c],
        is_line(a + " "@ + b + " "@ + c),
{
    reveal_strlit(" ");
    let none = Seq::<char>::empty();
    let s = a + " "@ + b + " "@ + c;
    let from_b = b + (seq![' '] + c);
    assert(c + none =~= c);
    lemma_first_word(c, none);
    assert(words(none) =~= Seq::empty());
    lemma_words_skip_a_space(c);
    lemma_first_word(b, seq![' '] + c);
    lemma_words_skip_a_space(from_b);
    lemma_first_word(a, seq![' '] + from_b);
    assert(s =~= a + (seq![' '] + from_b));
    assert(words(s) =~= seq![a, b, c]);
    assert forall|i: int| !line_end_at(s, i) by {
        if line_end_at(s, i) {
            assert(is_white_space(s[i]));
            if i < a.len() {
                assert(s[i] == a[i]);
            } else if a.len() < i < a.len() + 1 + b.len() {
                assert(s[i] == b[i - a.len() - 1]);
            } else if i > a.len() + 1 + b.len() {
                assert(s[i] == c[i - a.len() - b.len() - 2]);
            }
        }
    }
}

/// Whether a text holds no white space.
pub open spec fn has_no_space(s: Seq<char>) -> bool {
    forall|i: int| 0 <= i < s.len() ==> !is_white_space(#[trigger] s[i])
}

/// A number in decimal consists of digits.
pub proof fn lemma_decimal_digits(n: nat)
    ensures
        decimal(n).len() > 0,
        forall|i: int| 0 <= i < decimal(n).len() ==> '0' <= #[trigger] decimal(n)[i] <= '9',
{
    lemma_number_text(n, 10);
    assert forall|i: int| 0 <= i < decimal(n).len() implies '0' <= #[trigger] decimal(n)[i]
        <= '9' by {
        assert(is_digit(decimal(n)[i], 10));
    }
}

/// A number in decimal holds no white space.
pub proof fn lemma_decimal_has_no_space(n: nat)
    ensures
        has_no_space(decimal(n)),
        decimal(n).len() > 0,
        !decimal(n).contains(' '),
{
    lemma_decimal_digits(n);
}

// ---------------------------------------------------------------------------------------------
// Searching
// ---------------------------------------------------------------------------------------------

/// What follows the last `c` is a rear part of the text without one.
pub proof fn lemma_after_last(s: Seq<char>, c: char)
    ensures
        after_last(s, c).len() <= s.len(),
        after_last(s, c) == s.skip(s.len() - after_last(s, c).len()),
        !after_last(s, c).contains(c),
    decreases s.len(),
{
    let t = after_last(s, c);
    if s.len() > 0 && s.last() != c {
        let shorter = after_last(s.drop_last(), c);
        lemma_after_last(s.drop_last(), c);
        assert(t =~= s.skip(s.len() - t.len()));
        if t.contains(c) {
            let i = choose|i: int| 0 <= i < t.len() && t[i] == c;
            assert(shorter[i] == c);
        }
    } else {
        assert(s.skip(s.len() as int) =~= t);
    }
}

/// Occurrences add up.
pub proof fn lemma_occurrences_concat(a: Seq<char>, b: Seq<char>, c: char)
    ensures
        occurrences(a + b, c) == occurrences(a, c) + occurrences(b, c),
    decreases b.len(),
{
    if b.len() == 0 {
        assert(a + b =~= a);
    } else {
        lemma_occurrences_concat(a, b.drop_last(), c);
        assert((a + b).drop_last() =~= a + b.drop_last());
    }
}

/// What a text does not hold does not occur in it.
pub proof fn lemma_no_occurrence(s: Seq<char>, c: char)
    requires
        !s.contains(c),
    ensures
        occurrences(s, c) == 0,
        after_last(s, c) == s,
    decreases s.len(),
{
    if s.len() > 0 {
        assert(s.contains(s.last()));
        let shorter = s.drop_last();
        if shorter.contains(c) {
            let i = choose|i: int| 0 <= i < shorter.len() && shorter[i] == c;
            assert(s[i] == c);
        }
        lemma_no_occurrence(shorter, c);
        assert(shorter.push(s.last()) =~= s);
    } else {
        assert(after_last(s, c) =~= s);
    }
}

/// What follows the last `c` is what was put behind it.
pub proof fn lemma_after_last_concat(a: Seq<char>, b: Seq<char>, c: char)
    requires
        !b.contains(c),
    ensures
        after_last(a.push(c) + b, c) == b,
    decreases b.len(),
{
    let s = a.push(c) + b;
    if b.len() == 0 {
        assert(s =~= a.push(c));
        assert(after_last(s, c) =~= b);
    } else {
        assert(b.contains(b.last()));
        let shorter = b.drop_last();
        if shorter.contains(c) {
            let i = choose|i: int| 0 <= i < shorter.len() && shorter[i] == c;
            assert(b[i] == c);
        }
        lemma_after_last_concat(a, shorter, c);
        assert(s.drop_last() =~= a.push(c) + shorter);
        assert(shorter.push(b.last()) =~= b);
    }
}

// ---------------------------------------------------------------------------------------------
// Laws
// ---------------------------------------------------------------------------------------------

/// Two letters that are the same but for their case.
pub open spec fn same_letter(a: char, b: char) -> bool {
    ||| a == b
    ||| 'A' <= a <= 'Z' && b as u32 == a as u32 + 32
    ||| 'A' <= b <= 'Z' && a as u32 == b as u32 + 32
}

/// Two texts match in either case exactly if they have the same letters in the same places.
pub proof fn law_case_is_all_that_is_ignored(a: Seq<char>, b: Seq<char>)
    ensures
        same_ignoring_case(a, b) <==> a.len() == b.len() && forall|i: int|
            0 <= i < a.len() ==> same_letter(#[trigger] a[i], b[i]),
{
    if same_ignoring_case(a, b) {
        assert forall|i: int| 0 <= i < a.len() implies same_letter(#[trigger] a[i], b[i]) by {
            assert(ascii_lower(a[i]) == ascii_lower(b[i]));
            lemma_same_lower(a[i], b[i]);
        }
    }
    if a.len() == b.len() && forall|i: int| 0 <= i < a.len() ==> same_letter(#[trigger] a[i], b[i])
    {
        assert forall|i: int| 0 <= i < a.len() implies ascii_lower(#[trigger] a[i]) == ascii_lower(
            b[i],
        ) by {
            assert(same_letter(a[i], b[i]));
            lemma_same_lower(a[i], b[i]);
        }
    }
}

proof fn lemma_same_lower(a: char, b: char)
    ensures
        ascii_lower(a) == ascii_lower(b) <==> same_letter(a, b),
{
}

/// A text with its ASCII letters in lower case.
pub open spec fn lower_case(s: Seq<char>) -> Seq<char> {
    Seq::new(
        s.len(),
        |i: int|
            if 'A' <= s[i] <= 'Z' {
                (s[i] as u32 + 32) as char
            } else {
                s[i]
            },
    )
}

/// A text matches one without upper-case letters exactly if it is that text in lower case.
pub proof fn law_matching_is_by_lower_case(s: Seq<char>, expected: Seq<char>)
    requires
        forall|i: int| 0 <= i < expected.len() ==> !('A' <= #[trigger] expected[i] <= 'Z'),
    ensures
        same_ignoring_case(s, expected) <==> lower_case(s) == expected,
{
    let lower = lower_case(s);
    assert forall|i: int| 0 <= i < s.len() implies lower[i] == ascii_lower(s[i]) by {}
    if same_ignoring_case(s, expected) {
        assert forall|i: int| 0 <= i < s.len() implies lower[i] == expected[i] by {
            assert(ascii_lower(s[i]) == ascii_lower(expected[i]));
        }
        assert(lower =~= expected);
    }
    if lower == expected {
        assert forall|i: int| 0 <= i < s.len() implies ascii_lower(s[i]) == ascii_lower(
            expected[i],
        ) by {
            assert(lower[i] == expected[i]);
        }
    }
}

/// The white space characters: tab to carriage return, space, and those that Unicode adds.
pub proof fn law_white_space(c: char)
    ensures
        is_white_space(c) <==> {
            let n = c as u32;
            ||| 9 <= n <= 13
            ||| n == 0x20
            ||| n == 0x85
            ||| n == 0xa0
            ||| n == 0x1680
            ||| 0x2000 <= n <= 0x200a
            ||| n == 0x2028
            ||| n == 0x2029
            ||| n == 0x202f
            ||| n == 0x205f
            ||| n == 0x3000
        },
{
}

/// Whether a text is nothing but white space.
pub open spec fn is_blank(s: Seq<char>) -> bool {
    forall|i: int| 0 <= i < s.len() ==> is_white_space(#[trigger] s[i])
}

/// Trimming takes away the white space round a text and nothing else.
pub proof fn law_trimming_takes_white_space_alone(left: Seq<char>, s: Seq<char>, right: Seq<char>)
    requires
        is_blank(left),
        is_blank(right),
        is_trimmed(s),
    ensures
        trim(left + s + right) == s,
    decreases left.len(), right.len(),
{
    let all = left + s + right;
    if left.len() > 0 {
        assert(is_white_space(left[0]));
        assert(all.drop_first() =~= left.drop_first() + s + right);
        law_trimming_takes_white_space_alone(left.drop_first(), s, right);
    } else if s.len() > 0 {
        assert(all[0] == s[0]);
        assert(trim_start(all) == all);
        assert(all =~= s + right);
        lemma_trim_end_drops(s, right);
    } else if right.len() > 0 {
        assert(is_white_space(right[0]));
        assert(all.drop_first() =~= left + s + right.drop_first());
        law_trimming_takes_white_space_alone(left, s, right.drop_first());
    } else {
        assert(all =~= s);
        lemma_trim_is_done(s);
    }
}

proof fn lemma_trim_end_drops(s: Seq<char>, right: Seq<char>)
    requires
        is_blank(right),
        is_trimmed(s),
    ensures
        trim_end(s + right) == s,
    decreases right.len(),
{
    let all = s + right;
    if right.len() > 0 {
        assert(is_white_space(right[right.len() - 1]));
        assert(all.drop_last() =~= s + right.drop_last());
        lemma_trim_end_drops(s, right.drop_last());
    } else {
        assert(all =~= s);
    }
}

/// The pieces of a text, with the separator between them.
pub open spec fn rejoined(pieces: Seq<Seq<char>>, c: char) -> Seq<char>
    decreases pieces.len(),
{
    if pieces.len() == 0 {
        Seq::empty()
    } else if pieces.len() == 1 {
        pieces[0]
    } else {
        pieces[0] + seq![c] + rejoined(pieces.drop_first(), c)
    }
}

/// A text is cut at every separator and nowhere else: its pieces hold none, and with separators
/// between them they are the text again.
pub proof fn law_pieces_rejoin(s: Seq<char>, c: char)
    ensures
        split(s, c).len() > 0,
        rejoined(split(s, c), c) == s,
        forall|i: int| 0 <= i < split(s, c).len() ==> !(#[trigger] split(s, c)[i]).contains(c),
    decreases s.len(),
{
    let n = before(s, c) as int;
    lemma_before(s, c);
    let pieces = split(s, c);
    if n >= s.len() {
        assert(!s.contains(c));
    } else {
        let rest = s.skip(n + 1);
        law_pieces_rejoin(rest, c);
        assert(pieces.drop_first() =~= split(rest, c));
        assert(s.take(n) + seq![c] + rest =~= s);
        assert forall|i: int| 0 <= i < pieces.len() implies !(#[trigger] pieces[i]).contains(c) by {
            if i > 0 {
                assert(pieces[i] == split(rest, c)[i - 1]);
            }
        }
    }
}

/// Cutting two texts with a separator between them is cutting each of them.
pub proof fn law_cutting_a_joined_text(a: Seq<char>, b: Seq<char>, c: char)
    ensures
        split(a + seq![c] + b, c) == split(a, c) + split(b, c),
        !a.contains(c) ==> split(a, c) == seq![a],
    decreases a.len(),
{
    let s = a + seq![c] + b;
    let n = before(a, c) as int;
    lemma_before(a, c);
    if n >= a.len() {
        assert(s[n] == c);
        lemma_before_is(s, c, n);
        assert(s.take(n) =~= a);
        assert(s.skip(n + 1) =~= b);
    } else {
        assert(a[n] == c);
        lemma_before_is(s, c, n);
        assert(s.take(n) =~= a.take(n));
        assert(s.skip(n + 1) =~= a.skip(n + 1) + seq![c] + b);
        law_cutting_a_joined_text(a.skip(n + 1), b, c);
        assert(split(s, c) =~= split(a, c) + split(b, c));
    }
}

/// A line ends at CR LF and at nothing else: a text is one line exactly if it holds no CR that LF
/// follows.
pub proof fn law_only_cr_lf_ends_a_line(s: Seq<char>, i: int)
    ensures
        line_end_at(s, i) <==> 0 <= i && i + 1 < s.len() && s[i] == '\r' && s[i + 1] == '\n',
        is_line(s) <==> forall|j: int|
            0 <= j && j + 1 < s.len() ==> !(#[trigger] s[j] == '\r' && s[j + 1] == '\n'),
{
    if is_line(s) {
        assert forall|j: int| 0 <= j && j + 1 < s.len() implies !(#[trigger] s[j] == '\r' && s[j
            + 1] == '\n') by {
            assert(!line_end_at(s, j));
        }
    }
}

/// A text is cut into lines at every line end and nowhere else.
pub proof fn law_lines_are_cut_at_line_ends(line: Seq<char>, rest: Seq<char>)
    requires
        is_line(line),
    ensures
        split_lines(line) == seq![line],
        split_lines(line + "\r\n"@ + rest) == seq![line] + split_lines(rest),
{
    lemma_split_first_line(line, rest);
    lemma_before_line_end(line);
    let n = before_line_end(line) as int;
    if n < line.len() {
        assert(!line_end_at(line, n));
    }
}

/// Words are what stands between white space: white space in front is skipped, and a word ends at
/// the next white space or at the end.
pub proof fn law_words_stand_between_white_space(
    blank: Seq<char>,
    word: Seq<char>,
    rest: Seq<char>,
)
    requires
        is_blank(blank),
        is_word(word),
        rest.len() == 0 || is_white_space(rest[0]),
    ensures
        words(blank) == Seq::<Seq<char>>::empty(),
        words(blank + word + rest) == seq![word] + words(rest),
    decreases blank.len(),
{
    if blank.len() > 0 {
        assert(is_white_space(blank[0]));
        let shorter = blank.drop_first();
        assert(blank.drop_first() + word + rest =~= (blank + word + rest).drop_first());
        law_words_stand_between_white_space(shorter, word, rest);
        assert(trim_start(blank) == trim_start(shorter));
        assert(trim_start(blank + word + rest) == trim_start(shorter + word + rest));
        lemma_words_of_trimmed(blank);
        lemma_words_of_trimmed(shorter);
    } else {
        let s = word + rest;
        let n = word.len() as int;
        assert(blank + word + rest =~= s);
        assert(!is_white_space(word[0]));
        assert(trim_start(s) == s);
        lemma_word_length(s);
        let m = word_length(s) as int;
        if m < n {
            assert(!is_white_space(word[m]));
        } else if m > n {
            assert(!is_white_space(s[n]));
        }
        assert(s.take(n) =~= word);
        assert(s.skip(n) =~= rest);
    }
}

proof fn lemma_words_of_trimmed(s: Seq<char>)
    ensures
        trim_start(s).len() == 0 ==> words(s) == Seq::<Seq<char>>::empty(),
{
}

/// What follows the last `c` is what was put behind it; without a `c` it is the whole text.
pub proof fn law_what_follows_the_last(a: Seq<char>, b: Seq<char>, c: char)
    requires
        !b.contains(c),
    ensures
        after_last(a + seq![c] + b, c) == b,
        after_last(b, c) == b,
{
    lemma_after_last_concat(a, b, c);
    lemma_no_occurrence(b, c);
    assert(a + seq![c] =~= a.push(c));
}

} // verus!
