//! What numbers in text mean: the value of their digits, place by place.

use vstd::prelude::*;

use crate::number::{
    decimal, digit_value, digits_value, hexadecimal, is_digit, leading_digits,
    lemma_leading_digits, lemma_leading_digits_is, lemma_number_text, number_text, parse_number,
    without_sign, NumberError,
};

verus! {

/// Whether a character is one of the ten decimal digits.
pub open spec fn is_decimal(c: char) -> bool {
    '0' <= c <= '9'
}

/// Whether a character is one of the sixteen hexadecimal digits, in either case.
pub open spec fn is_hexadecimal(c: char) -> bool {
    is_decimal(c) || 'a' <= c <= 'f' || 'A' <= c <= 'F'
}

/// Whether a text is a row of decimal digits.
pub open spec fn are_decimal(s: Seq<char>) -> bool {
    forall|i: int| 0 <= i < s.len() ==> is_decimal(#[trigger] s[i])
}

/// Whether a text is a row of hexadecimal digits.
pub open spec fn are_hexadecimal(s: Seq<char>) -> bool {
    forall|i: int| 0 <= i < s.len() ==> is_hexadecimal(#[trigger] s[i])
}

/// The place of a hexadecimal digit in `0123456789abcdef`.
pub open spec fn digit_place(c: char) -> int {
    if c <= '9' {
        c as u32 - 48
    } else if c <= 'F' {
        c as u32 - 55
    } else {
        c as u32 - 87
    }
}

/// What a row of digits is worth: each digit counts `base` times as much as the one behind it.
pub open spec fn worth(s: Seq<char>, base: int) -> int
    decreases s.len(),
{
    if s.len() == 0 {
        0
    } else {
        worth(s.drop_last(), base) * base + digit_place(s.last())
    }
}

proof fn lemma_worth_is_digits_value(s: Seq<char>, base: nat)
    requires
        are_hexadecimal(s),
    ensures
        digits_value(s, base) == worth(s, base as int),
    decreases s.len(),
{
    if s.len() > 0 {
        assert(is_hexadecimal(s[s.len() - 1]));
        assert(digit_value(s.last()) == digit_place(s.last()));
        let shorter = s.drop_last();
        assert forall|i: int| 0 <= i < shorter.len() implies is_hexadecimal(
            #[trigger] shorter[i],
        ) by {
            assert(is_hexadecimal(s[i]));
        }
        lemma_worth_is_digits_value(shorter, base);
    }
}

/// A row of decimal digits, with a plus sign in front or without, is read as what it is worth, or
/// refused if that is too much.
pub proof fn law_decimal_digits_are_read(s: Seq<char>, max: nat)
    requires
        s.len() > 0,
        are_decimal(s),
    ensures
        worth(s, 10) >= 0,
        parse_number(s, 10, max) == if worth(s, 10) <= max {
            Ok::<nat, NumberError>(worth(s, 10) as nat)
        } else {
            Err(NumberError::Overflow)
        },
        parse_number(seq!['+'] + s, 10, max) == parse_number(s, 10, max),
{
    assert forall|i: int| 0 <= i < s.len() implies is_hexadecimal(#[trigger] s[i]) by {
        assert(is_decimal(s[i]));
    }
    lemma_worth_is_digits_value(s, 10);
    assert(is_decimal(s[0]));
    assert forall|i: int| 0 <= i < s.len() implies is_digit(s[i], 10) by {
        assert(is_decimal(s[i]));
    }
    lemma_leading_digits_is(s, 10, s.len() as int);
    assert(s.take(s.len() as int) =~= s);
    assert((seq!['+'] + s).drop_first() =~= s);
}

/// A row of hexadecimal digits, in either case and with a plus sign in front or without, is read
/// as what it is worth, or refused if that is too much.
pub proof fn law_hexadecimal_digits_are_read(s: Seq<char>, max: nat)
    requires
        s.len() > 0,
        are_hexadecimal(s),
    ensures
        worth(s, 16) >= 0,
        parse_number(s, 16, max) == if worth(s, 16) <= max {
            Ok::<nat, NumberError>(worth(s, 16) as nat)
        } else {
            Err(NumberError::Overflow)
        },
        parse_number(seq!['+'] + s, 16, max) == parse_number(s, 16, max),
{
    assert((seq!['+'] + s).drop_first() =~= s);
    lemma_worth_is_digits_value(s, 16);
    assert(is_hexadecimal(s[0]));
    assert forall|i: int| 0 <= i < s.len() implies is_digit(s[i], 16) by {
        assert(is_hexadecimal(s[i]));
    }
    lemma_leading_digits_is(s, 16, s.len() as int);
    assert(s.take(s.len() as int) =~= s);
}

/// Nothing but digits, behind a plus sign or none, is read as a number; no digits at all are
/// refused as such, and anything else as a bad digit unless the number before it is too large.
pub proof fn law_what_is_not_a_number_is_refused(s: Seq<char>, max: nat)
    ensures
        s.len() == 0 ==> parse_number(s, 10, max) == Err::<nat, NumberError>(NumberError::Empty)
            && parse_number(s, 16, max) == Err::<nat, NumberError>(NumberError::Empty),
        parse_number(s, 10, max) is Ok ==> {
            &&& forall|i: int| 0 < i < s.len() ==> is_decimal(#[trigger] s[i])
            &&& is_decimal(s[0]) || (s[0] == '+' && s.len() > 1)
        },
        parse_number(s, 16, max) is Ok ==> {
            &&& forall|i: int| 0 < i < s.len() ==> is_hexadecimal(#[trigger] s[i])
            &&& is_hexadecimal(s[0]) || (s[0] == '+' && s.len() > 1)
        },
        s.len() > 0 && !is_decimal(s[0]) && s[0] != '+' ==> parse_number(s, 10, max) == Err::<
            nat,
            NumberError,
        >(NumberError::InvalidDigit),
        s.len() > 0 && !is_hexadecimal(s[0]) && s[0] != '+' ==> parse_number(s, 16, max) == Err::<
            nat,
            NumberError,
        >(NumberError::InvalidDigit),
{
    let digits = without_sign(s);
    if s.len() > 0 {
        lemma_leading_digits(digits, 10);
        lemma_leading_digits(digits, 16);
        assert(digits.take(0) =~= Seq::empty());
        assert(digits_value(Seq::<char>::empty(), 10) == 0);
        assert(digits_value(Seq::<char>::empty(), 16) == 0);
        if parse_number(s, 10, max) is Ok {
            lemma_digits_behind_sign(s, 10);
        }
        if parse_number(s, 16, max) is Ok {
            lemma_digits_behind_sign(s, 16);
        }
    }
}

/// The first fault in a text counts: digits that are worth too much are too large whatever
/// follows, and digits that are not are spoilt by what follows if that is no digit.
pub proof fn law_the_first_fault_counts(digits: Seq<char>, c: char, rest: Seq<char>, max: nat)
    requires
        digits.len() > 0,
        are_decimal(digits),
        !is_decimal(c),
    ensures
        parse_number(digits + seq![c] + rest, 10, max) == Err::<nat, NumberError>(
            if worth(digits, 10) > max {
                NumberError::Overflow
            } else {
                NumberError::InvalidDigit
            },
        ),
{
    let s = digits + seq![c] + rest;
    assert forall|i: int| 0 <= i < digits.len() implies is_hexadecimal(#[trigger] digits[i]) by {
        assert(is_decimal(digits[i]));
    }
    lemma_worth_is_digits_value(digits, 10);
    assert(is_decimal(digits[0]));
    assert(s[0] == digits[0]);
    assert(without_sign(s) == s);
    assert forall|i: int| 0 <= i < digits.len() implies is_digit(s[i], 10) by {
        assert(is_decimal(digits[i]));
        assert(s[i] == digits[i]);
    }
    assert(s[digits.len() as int] == c);
    lemma_leading_digits_is(s, 10, digits.len() as int);
    assert(s.take(digits.len() as int) =~= digits);
}

/// A number that was read is not more than was allowed.
pub proof fn law_what_was_read_fits(s: Seq<char>, radix: nat, max: nat)
    ensures
        parse_number(s, radix, max) matches Ok(n) ==> n <= max,
{
    let digits = without_sign(s);
    lemma_leading_digits(digits, radix);
    assert(digits.take(digits.len() as int) =~= digits);
}

proof fn lemma_digits_behind_sign(s: Seq<char>, radix: nat)
    requires
        s.len() > 0,
        radix == 10 || radix == 16,
        leading_digits(without_sign(s), radix) >= without_sign(s).len(),
    ensures
        forall|i: int| 0 < i < s.len() ==> is_digit(#[trigger] s[i], radix),
        is_digit(s[0], radix) || (s[0] == '+' && s.len() > 1),
{
    let digits = without_sign(s);
    lemma_leading_digits(digits, radix);
    assert forall|i: int| 0 < i < s.len() implies is_digit(#[trigger] s[i], radix) by {
        if digits.len() < s.len() {
            assert(digits[i - 1] == s[i]);
            assert(is_digit(digits[i - 1], radix));
        } else {
            assert(is_digit(digits[i], radix));
        }
    }
    if digits.len() == s.len() {
        assert(is_digit(digits[0], radix));
    }
}

/// A number in decimal is the one row of decimal digits without a needless zero in front that is
/// worth it; a number in hexadecimal likewise, in lower case.
pub proof fn law_written_numbers_are_worth_themselves(n: nat)
    ensures
        decimal(n).len() > 0,
        are_decimal(decimal(n)),
        worth(decimal(n), 10) == n,
        n > 0 ==> decimal(n)[0] != '0',
        n == 0 ==> decimal(n).len() == 1,
        hexadecimal(n).len() > 0,
        are_hexadecimal(hexadecimal(n)),
        worth(hexadecimal(n), 16) == n,
        n > 0 ==> hexadecimal(n)[0] != '0',
        n == 0 ==> hexadecimal(n).len() == 1,
        forall|i: int|
            0 <= i < hexadecimal(n).len() ==> !('A' <= #[trigger] hexadecimal(n)[i] <= 'F'),
{
    lemma_number_text(n, 10);
    lemma_number_text(n, 16);
    lemma_front_digit(n, 10);
    lemma_front_digit(n, 16);
    let d = decimal(n);
    let h = hexadecimal(n);
    assert forall|i: int| 0 <= i < d.len() implies is_decimal(#[trigger] d[i]) by {
        assert(is_digit(d[i], 10));
    }
    assert forall|i: int| 0 <= i < d.len() implies is_hexadecimal(#[trigger] d[i]) by {
        assert(is_decimal(d[i]));
    }
    assert forall|i: int| 0 <= i < h.len() implies is_hexadecimal(#[trigger] h[i]) by {
        assert(is_digit(h[i], 16));
    }
    lemma_worth_is_digits_value(d, 10);
    lemma_worth_is_digits_value(h, 16);
}

proof fn lemma_front_digit(n: nat, radix: nat)
    requires
        radix == 10 || radix == 16,
    ensures
        number_text(n, radix).len() > 0,
        n > 0 ==> number_text(n, radix)[0] != '0',
        n == 0 ==> number_text(n, radix).len() == 1,
        forall|i: int|
            0 <= i < number_text(n, radix).len() ==> !('A' <= #[trigger] number_text(n, radix)[i]
                <= 'Z'),
    decreases n,
{
    if n >= radix {
        let front = number_text(n / radix, radix);
        lemma_front_digit(n / radix, radix);
        assert(n / radix > 0);
        let s = number_text(n, radix);
        assert forall|i: int| 0 <= i < s.len() implies !('A' <= #[trigger] s[i] <= 'Z') by {
            if i < front.len() {
                assert(s[i] == front[i]);
            }
        }
    }
}

} // verus!
