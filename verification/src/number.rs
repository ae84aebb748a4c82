//! Unsigned numbers as text: reading decimal and hexadecimal, and writing both.

use vstd::prelude::*;

verus! {

/// Why a text is not a number that fits.
#[derive(Clone, Copy, Debug, PartialEq, Eq, Structural)]
pub enum NumberError {
    Empty,
    InvalidDigit,
    Overflow,
}

// ---------------------------------------------------------------------------------------------
// Digits
// ---------------------------------------------------------------------------------------------

/// The value of a character as a digit; letters count on from ten in either case.
pub open spec fn digit_value(c: char) -> nat {
    if '0' <= c && c <= '9' {
        (c as u32 - '0' as u32) as nat
    } else if 'a' <= c && c <= 'z' {
        (c as u32 - 'a' as u32 + 10) as nat
    } else if 'A' <= c && c <= 'Z' {
        (c as u32 - 'A' as u32 + 10) as nat
    } else {
        36
    }
}

/// Whether a character is a digit of the given radix.
pub open spec fn is_digit(c: char, radix: nat) -> bool {
    digit_value(c) < radix
}

/// The digit with the given value, in lower case.
pub open spec fn digit_char(d: nat) -> char {
    if d < 10 {
        ('0' as u32 + d) as char
    } else {
        ('a' as u32 + (d - 10)) as char
    }
}

/// The number that a row of digits denotes, the most significant digit first.
pub open spec fn digits_value(s: Seq<char>, radix: nat) -> nat
    decreases s.len(),
{
    if s.len() == 0 {
        0
    } else {
        digits_value(s.drop_last(), radix) * radix + digit_value(s.last())
    }
}

/// How many digits come before the first character that is none.
pub open spec fn leading_digits(s: Seq<char>, radix: nat) -> nat
    decreases s.len(),
{
    if s.len() == 0 || !is_digit(s[0], radix) {
        0
    } else {
        1 + leading_digits(s.drop_first(), radix)
    }
}

fn digitValue(c: char) -> (r: u32)
    ensures
        r == digit_value(c),
{
    if '0' <= c && c <= '9' {
        c as u32 - '0' as u32
    } else if 'a' <= c && c <= 'z' {
        c as u32 - 'a' as u32 + 10
    } else if 'A' <= c && c <= 'Z' {
        c as u32 - 'A' as u32 + 10
    } else {
        36
    }
}

fn digitChar(d: u8) -> (r: char)
    requires
        d < 36,
    ensures
        r == digit_char(d as nat),
{
    if d < 10 {
        (48u8 + d) as char
    } else {
        (87u8 + d) as char
    }
}

// ---------------------------------------------------------------------------------------------
// Reading
// ---------------------------------------------------------------------------------------------

/// The digits of a number: the text without a leading plus sign. A lone plus sign is no number.
pub open spec fn without_sign(s: Seq<char>) -> Seq<char> {
    if s.len() > 1 && s[0] == '+' {
        s.drop_first()
    } else {
        s
    }
}

/// The number that a text denotes, where it fits under `max`. Digits are read from the left, so
/// a number that grows too large is reported before a bad character behind it.
pub open spec fn parse_number(s: Seq<char>, radix: nat, max: nat) -> Result<nat, NumberError> {
    let digits = without_sign(s);
    let n = leading_digits(digits, radix) as int;
    if s.len() == 0 {
        Err(NumberError::Empty)
    } else if digits_value(digits.take(n), radix) > max {
        Err(NumberError::Overflow)
    } else if n < digits.len() {
        Err(NumberError::InvalidDigit)
    } else {
        Ok(digits_value(digits, radix))
    }
}

/// What [`leading_digits`] counts.
pub proof fn lemma_leading_digits(s: Seq<char>, radix: nat)
    ensures
        leading_digits(s, radix) <= s.len(),
        forall|i: int| 0 <= i < leading_digits(s, radix) ==> is_digit(s[i], radix),
        leading_digits(s, radix) < s.len() ==> !is_digit(s[leading_digits(s, radix) as int], radix),
    decreases s.len(),
{
    if s.len() > 0 && is_digit(s[0], radix) {
        let rest = s.drop_first();
        lemma_leading_digits(rest, radix);
        assert forall|i: int| 0 <= i < leading_digits(s, radix) implies is_digit(s[i], radix) by {
            if i > 0 {
                assert(is_digit(rest[i - 1], radix));
            }
        }
    }
}

/// The one number with the properties of [`lemma_leading_digits`] is the count.
pub proof fn lemma_leading_digits_is(s: Seq<char>, radix: nat, n: int)
    requires
        0 <= n <= s.len(),
        forall|i: int| 0 <= i < n ==> is_digit(s[i], radix),
        n < s.len() ==> !is_digit(s[n], radix),
    ensures
        leading_digits(s, radix) == n,
{
    lemma_leading_digits(s, radix);
    if leading_digits(s, radix) < n {
        assert(is_digit(s[leading_digits(s, radix) as int], radix));
    }
}

/// More digits never make a number smaller.
proof fn lemma_digits_grow(s: Seq<char>, radix: nat, short: int, long: int)
    requires
        1 <= radix,
        0 <= short <= long <= s.len(),
    ensures
        digits_value(s.take(short), radix) <= digits_value(s.take(long), radix),
    decreases long - short,
{
    if short < long {
        lemma_digits_grow(s, radix, short, long - 1);
        let before = digits_value(s.take(long - 1), radix);
        assert(s.take(long).drop_last() =~= s.take(long - 1));
        assert(before * radix >= before) by (nonlinear_arith)
            requires
                1 <= radix,
                0 <= before,
        ;
    }
}

/// Reads an unsigned number of the given radix that is at most `max`.
pub fn parseNumber(s: &[char], radix: u32, max: u64) -> (r: Result<u64, NumberError>)
    requires
        2 <= radix <= 36,
    ensures
        match r {
            Ok(n) => parse_number(s@, radix as nat, max as nat) == Ok::<nat, NumberError>(n as nat),
            Err(e) => parse_number(s@, radix as nat, max as nat) == Err::<nat, NumberError>(e),
        },
        r matches Ok(n) ==> n <= max,
{
    if s.len() == 0 {
        return Err(NumberError::Empty);
    }
    let start: usize = if s.len() > 1 && s[0] == '+' {
        1
    } else {
        0
    };
    let ghost digits = without_sign(s@);
    assert(digits =~= s@.skip(start as int));
    let mut value: u64 = 0;
    let mut i: usize = start;
    assert(digits.take(0) =~= Seq::empty());
    while i < s.len()
        invariant
            2 <= radix <= 36,
            start <= i <= s.len(),
            s.len() > 0,
            digits == without_sign(s@),
            digits == s@.skip(start as int),
            value == digits_value(digits.take(i - start), radix as nat),
            value <= max,
            forall|j: int| 0 <= j < i - start ==> is_digit(digits[j], radix as nat),
        decreases s.len() - i,
    {
        let ghost at = i - start;
        let d = digitValue(s[i]);
        assert(digits[at] == s@[i as int]);
        if d >= radix {
            proof {
                lemma_leading_digits_is(digits, radix as nat, at);
            }
            return Err(NumberError::InvalidDigit);
        }
        assert(digits.take(at + 1).drop_last() =~= digits.take(at));
        assert(value * radix <= 0xffff_ffff_ffff_ffff * 36) by (nonlinear_arith)
            requires
                0 <= value <= 0xffff_ffff_ffff_ffff,
                0 <= radix <= 36,
        ;
        let next: u128 = (value as u128) * (radix as u128) + (d as u128);
        if next > max as u128 {
            proof {
                lemma_leading_digits(digits, radix as nat);
                let n = leading_digits(digits, radix as nat) as int;
                assert(is_digit(digits[at], radix as nat));
                assert(at < n);
                lemma_digits_grow(digits, radix as nat, at + 1, n);
            }
            return Err(NumberError::Overflow);
        }
        value = next as u64;
        i = i + 1;
    }
    proof {
        lemma_leading_digits_is(digits, radix as nat, digits.len() as int);
        assert(digits.take(digits.len() as int) =~= digits);
    }
    Ok(value)
}

/// How an unreadable number is worded.
pub open spec fn number_error_text(e: NumberError) -> Seq<char> {
    match e {
        NumberError::Empty => "cannot parse integer from empty string"@,
        NumberError::InvalidDigit => "invalid digit found in string"@,
        NumberError::Overflow => "number too large to fit in target type"@,
    }
}

/// Words an unreadable number.
pub fn numberErrorText(e: NumberError) -> (r: &'static str)
    ensures
        r@ == number_error_text(e),
{
    match e {
        NumberError::Empty => "cannot parse integer from empty string",
        NumberError::InvalidDigit => "invalid digit found in string",
        NumberError::Overflow => "number too large to fit in target type",
    }
}

// ---------------------------------------------------------------------------------------------
// Writing
// ---------------------------------------------------------------------------------------------

/// The digits of a number, without leading zeros.
pub open spec fn number_text(n: nat, radix: nat) -> Seq<char>
    decreases n,
    via number_text_shrinks
{
    if n < radix || radix < 2 {
        seq![digit_char(n)]
    } else {
        number_text(n / radix, radix).push(digit_char(n % radix))
    }
}

#[via_fn]
proof fn number_text_shrinks(n: nat, radix: nat) {
    if n >= radix && radix >= 2 {
        assert(n / radix < n) by (nonlinear_arith)
            requires
                2 <= radix <= n,
        ;
    }
}

/// The decimal digits of a number.
pub open spec fn decimal(n: nat) -> Seq<char> {
    number_text(n, 10)
}

/// The hexadecimal digits of a number, in lower case.
pub open spec fn hexadecimal(n: nat) -> Seq<char> {
    number_text(n, 16)
}

/// Appends the digits of a number.
pub fn pushNumber(out: &mut String, n: u64, radix: u64)
    requires
        2 <= radix <= 36,
    ensures
        final(out)@ == old(out)@ + number_text(n as nat, radix as nat),
    decreases n,
{
    let ghost start = out@;
    if n >= radix {
        assert(n / radix < n) by (nonlinear_arith)
            requires
                2 <= radix <= n,
        ;
        pushNumber(out, n / radix, radix);
        assert(n % radix < radix) by (nonlinear_arith)
            requires
                2 <= radix,
        ;
        out.push(digitChar((n % radix) as u8));
    } else {
        out.push(digitChar(n as u8));
    }
    assert(out@ =~= start + number_text(n as nat, radix as nat));
}

/// Appends a number in decimal.
pub fn pushDecimal(out: &mut String, n: u64)
    ensures
        final(out)@ == old(out)@ + decimal(n as nat),
{
    pushNumber(out, n, 10);
}

// ---------------------------------------------------------------------------------------------
// Laws
// ---------------------------------------------------------------------------------------------

/// A written number consists of digits alone, and they denote it.
pub proof fn lemma_number_text(n: nat, radix: nat)
    requires
        2 <= radix <= 36,
    ensures
        number_text(n, radix).len() > 0,
        forall|i: int|
            0 <= i < number_text(n, radix).len() ==> is_digit(
                #[trigger] number_text(n, radix)[i],
                radix,
            ),
        digits_value(number_text(n, radix), radix) == n,
    decreases n,
{
    let s = number_text(n, radix);
    if n < radix {
        assert(digit_value(digit_char(n)) == n);
        assert(s.drop_last() =~= Seq::empty());
        assert(digits_value(s.drop_last(), radix) == 0);
        assert(digits_value(s, radix) == 0 * radix + n);
        assert(0 * radix == 0) by (nonlinear_arith);
    } else {
        assert(n / radix < n && n % radix < radix && (n / radix) * radix + n % radix == n)
            by (nonlinear_arith)
            requires
                2 <= radix <= n,
        ;
        lemma_number_text(n / radix, radix);
        assert(digit_value(digit_char(n % radix)) == n % radix);
        assert(s.drop_last() =~= number_text(n / radix, radix));
        assert forall|i: int| 0 <= i < s.len() implies is_digit(#[trigger] s[i], radix) by {
            if i < s.len() - 1 {
                assert(s[i] == number_text(n / radix, radix)[i]);
            }
        }
    }
}

/// Reading a written number gives it back, as long as it fits.
pub proof fn law_number_round_trip(n: nat, radix: nat, max: nat)
    requires
        2 <= radix <= 36,
        n <= max,
    ensures
        parse_number(number_text(n, radix), radix, max) == Ok::<nat, NumberError>(n),
{
    let s = number_text(n, radix);
    lemma_number_text(n, radix);
    assert(is_digit(s[0], radix));
    assert(s[0] != '+');
    lemma_leading_digits_is(s, radix, s.len() as int);
    assert(s.take(s.len() as int) =~= s);
}

} // verus!
