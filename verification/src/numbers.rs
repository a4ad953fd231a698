//! Whole numbers as decimal text, and back.
use vstd::prelude::*;

use crate::text::chars_of;

verus! {

/// The character of a decimal digit.
pub open spec fn digit_char(digit: int) -> char {
    ('0' as int + digit) as char
}

/// A number in decimal, without leading zeros.
pub open spec fn decimal(n: nat) -> Seq<char>
    decreases n,
{
    if n < 10 {
        seq![digit_char(n as int)]
    } else {
        decimal(n / 10).push(digit_char((n % 10) as int))
    }
}

/// A number in decimal, with a minus sign where it is negative.
pub open spec fn signed_decimal(n: int) -> Seq<char> {
    if n < 0 {
        seq!['-'] + decimal((-n) as nat)
    } else {
        decimal(n as nat)
    }
}

/// `text` with zeros put before it until it is `width` characters long.
pub open spec fn zero_padded(text: Seq<char>, width: nat) -> Seq<char> {
    if text.len() >= width {
        text
    } else {
        Seq::new((width - text.len()) as nat, |i: int| '0') + text
    }
}

/// The character of a decimal digit.
fn char_of_digit(digit: u64) -> (c: char)
    requires
        digit < 10,
    ensures
        c == digit_char(digit as int),
{
    match digit {
        0 => '0',
        1 => '1',
        2 => '2',
        3 => '3',
        4 => '4',
        5 => '5',
        6 => '6',
        7 => '7',
        8 => '8',
        _ => '9',
    }
}

/// Writes a number in decimal.
pub fn decimal_text(n: u64) -> (text: String)
    ensures
        text@ == decimal(n as nat),
    decreases n,
{
    let mut text = if n < 10 { String::new() } else { decimal_text(n / 10) };
    text.push(char_of_digit(n % 10));
    assert(n < 10 ==> text@ =~= seq![digit_char(n as int)]);
    text
}

/// Writes a year in decimal.
pub fn signed_decimal_text(n: i32) -> (text: String)
    ensures
        text@ == signed_decimal(n as int),
{
    if n < 0 {
        let mut text = String::new();
        text.push('-');
        let magnitude: u64 = (-(n as i64)) as u64;
        text.append(decimal_text(magnitude).as_str());
        assert(text@ =~= seq!['-'] + decimal(magnitude as nat));
        text
    } else {
        decimal_text(n as u64)
    }
}

/// Writes a number in decimal, with a zero before it where it has one digit only.
pub fn two_digit_text(n: u64) -> (text: String)
    ensures
        text@ == zero_padded(decimal(n as nat), 2),
{
    let digits = decimal_text(n);
    proof {
        lemma_decimal_length(n as nat);
    }
    if n < 10 {
        let mut text = String::new();
        text.push('0');
        text.append(digits.as_str());
        assert(text@ =~= zero_padded(decimal(n as nat), 2));
        text
    } else {
        digits
    }
}

/// A number below ten has one digit, any other at least two.
proof fn lemma_decimal_length(n: nat)
    ensures
        n < 10 ==> decimal(n).len() == 1,
        n >= 10 ==> decimal(n).len() >= 2,
    decreases n,
{
    if n >= 10 {
        lemma_decimal_length(n / 10);
    }
}

/// Why a text is not a number.
#[derive(Clone, Copy, Debug, PartialEq, Eq, Structural)]
pub enum NumberError {
    /// There is no text.
    Empty,
    /// A character is no digit, or there is no digit at all.
    InvalidDigit,
    /// The number needs more than 32 bits.
    TooLarge,
}

impl NumberError {
    /// What the error says.
    pub open spec fn message_spec(self) -> Seq<char> {
        match self {
            NumberError::Empty => "cannot parse integer from empty string"@,
            NumberError::InvalidDigit => "invalid digit found in string"@,
            NumberError::TooLarge => "number too large to fit in target type"@,
        }
    }

    /// What the error says.
    pub fn message(&self) -> (text: String)
        ensures
            text@ == self.message_spec(),
    {
        match self {
            NumberError::Empty => "cannot parse integer from empty string".to_owned(),
            NumberError::InvalidDigit => "invalid digit found in string".to_owned(),
            NumberError::TooLarge => "number too large to fit in target type".to_owned(),
        }
    }
}

/// Whether `c` is one of the ten decimal digits.
pub open spec fn is_digit(c: char) -> bool {
    '0' <= c <= '9'
}

/// The digits that `text` starts with.
pub open spec fn leading_digits(text: Seq<char>) -> Seq<char>
    decreases text.len(),
{
    if text.len() > 0 && is_digit(text[0]) {
        seq![text[0]] + leading_digits(text.skip(1))
    } else {
        Seq::empty()
    }
}

/// The number that a run of digits stands for.
pub open spec fn digits_value(digits: Seq<char>) -> nat
    decreases digits.len(),
{
    if digits.len() == 0 {
        0
    } else {
        (digits_value(digits.drop_last()) * 10 + (digits.last() as int - '0' as int)) as nat
    }
}

/// What a text holds behind the plus sign that it may start with.
pub open spec fn unsigned_part(text: Seq<char>) -> Seq<char> {
    if text.len() > 0 && text[0] == '+' {
        text.skip(1)
    } else {
        text
    }
}

/// Reading a text as a number of 32 bits: digits, with or without a plus sign before them. The
/// text is read from its start, so digits that are too large come before a later character that
/// is no digit.
pub open spec fn number_in(text: Seq<char>) -> Result<u32, NumberError> {
    let body = unsigned_part(text);
    let digits = leading_digits(body);
    if text.len() == 0 {
        Err(NumberError::Empty)
    } else if digits_value(digits) > u32::MAX {
        Err(NumberError::TooLarge)
    } else if digits.len() == 0 || digits.len() < body.len() {
        Err(NumberError::InvalidDigit)
    } else {
        Ok(digits_value(digits) as u32)
    }
}

/// The number of a decimal digit.
fn digit_of_char(c: char) -> (digit: Option<u32>)
    ensures
        digit is Some <==> is_digit(c),
        digit matches Some(d) ==> d == c as int - '0' as int && d < 10,
{
    if '0' <= c && c <= '9' {
        Some(c as u32 - 48)
    } else {
        None
    }
}

/// More digits behind a run of digits make its number no smaller.
proof fn lemma_longer_run(head: Seq<char>, tail: Seq<char>)
    requires
        forall|i: int| 0 <= i < tail.len() ==> is_digit(#[trigger] tail[i]),
    ensures
        digits_value(head + tail) >= digits_value(head),
    decreases tail.len(),
{
    if tail.len() == 0 {
        assert(head + tail =~= head);
    } else {
        lemma_longer_run(head, tail.drop_last());
        assert((head + tail).drop_last() =~= head + tail.drop_last());
        assert(is_digit(tail[tail.len() - 1]));
    }
}

/// The digits that a text starts with are digits.
proof fn lemma_leading_digits(text: Seq<char>)
    ensures
        leading_digits(text).len() <= text.len(),
        forall|i: int| 0 <= i < leading_digits(text).len() ==> is_digit(#[trigger] leading_digits(text)[i]),
    decreases text.len(),
{
    if text.len() > 0 && is_digit(text[0]) {
        lemma_leading_digits(text.skip(1));
    }
}

/// A text of digits alone starts with all of itself.
proof fn lemma_all_digits(text: Seq<char>)
    requires
        forall|i: int| 0 <= i < text.len() ==> is_digit(#[trigger] text[i]),
    ensures
        leading_digits(text) == text,
    decreases text.len(),
{
    if text.len() > 0 {
        assert(is_digit(text[0]));
        assert forall|i: int| 0 <= i < text.skip(1).len() implies is_digit(#[trigger] text.skip(1)[i]) by {
            assert(is_digit(text[i + 1]));
        }
        lemma_all_digits(text.skip(1));
        assert(seq![text[0]] + text.skip(1) =~= text);
    }
}

/// A number in decimal is made of digits, and stands for itself.
proof fn lemma_decimal_value(n: nat)
    ensures
        decimal(n).len() > 0,
        forall|i: int| 0 <= i < decimal(n).len() ==> is_digit(#[trigger] decimal(n)[i]),
        digits_value(decimal(n)) == n,
    decreases n,
{
    if n < 10 {
        reveal_with_fuel(digits_value, 2);
        assert(decimal(n).drop_last() =~= Seq::<char>::empty());
    } else {
        lemma_decimal_value(n / 10);
        assert(decimal(n).drop_last() =~= decimal(n / 10));
    }
}

/// Zeros before a run of digits do not change its number.
proof fn lemma_leading_zeros(zeros: nat, digits: Seq<char>)
    ensures
        digits_value(Seq::new(zeros, |i: int| '0') + digits) == digits_value(digits),
    decreases digits.len(), zeros,
{
    let padding = Seq::new(zeros, |i: int| '0');
    if digits.len() > 0 {
        lemma_leading_zeros(zeros, digits.drop_last());
        assert((padding + digits).drop_last() =~= padding + digits.drop_last());
    } else if zeros > 0 {
        let fewer = Seq::new((zeros - 1) as nat, |i: int| '0');
        lemma_leading_zeros((zeros - 1) as nat, digits);
        assert(padding + digits =~= padding);
        assert(fewer + digits =~= fewer);
        assert(padding.drop_last() =~= fewer);
    } else {
        assert(padding + digits =~= digits);
    }
}

/// A number that is written in decimal, with or without zeros before it, reads back as itself.
pub proof fn law_written_numbers_read_back(n: u32, width: nat)
    ensures
        number_in(zero_padded(decimal(n as nat), width)) == Ok::<u32, NumberError>(n),
        forall|i: int|
            0 <= i < zero_padded(decimal(n as nat), width).len() ==> is_digit(
                #[trigger] zero_padded(decimal(n as nat), width)[i],
            ),
{
    let digits = decimal(n as nat);
    let text = zero_padded(digits, width);
    lemma_decimal_value(n as nat);
    if digits.len() < width {
        lemma_leading_zeros((width - digits.len()) as nat, digits);
    }
    assert forall|i: int| 0 <= i < text.len() implies is_digit(#[trigger] text[i]) by {
        if digits.len() < width && i >= width - digits.len() {
            assert(text[i] == digits[i - (width - digits.len())]);
        }
    }
    assert(is_digit(text[0]));
    lemma_all_digits(text);
}

/// Reads a text as a number of 32 bits.
pub fn parse_number(text: &str) -> (r: Result<u32, NumberError>)
    ensures
        r == number_in(text@),
{
    let chars = chars_of(text);
    if chars.len() == 0 {
        return Err(NumberError::Empty);
    }
    let start: usize = if chars[0] == '+' { 1 } else { 0 };
    let ghost body = unsigned_part(text@);
    let mut value: u32 = 0;
    let mut i: usize = start;
    assert(chars@.subrange(start as int, start as int) =~= Seq::empty());
    assert(chars@.skip(start as int) =~= body);
    assert(Seq::<char>::empty() + leading_digits(body) =~= leading_digits(body));
    while i < chars.len()
        invariant
            chars@ == text@,
            chars@.len() > 0,
            start <= i <= chars@.len(),
            body == unsigned_part(text@),
            body == chars@.skip(start as int),
            value == digits_value(chars@.subrange(start as int, i as int)),
            leading_digits(body) == chars@.subrange(start as int, i as int) + leading_digits(chars@.skip(i as int)),
        decreases chars@.len() - i,
    {
        let ghost run = chars@.subrange(start as int, i as int);
        let ghost rest = chars@.skip(i as int);
        match digit_of_char(chars[i]) {
            None => {
                assert(leading_digits(rest) =~= Seq::empty());
                assert(leading_digits(body) =~= run);
                return Err(NumberError::InvalidDigit);
            },
            Some(digit) => {
                let ghost longer = chars@.subrange(start as int, i + 1);
                let ghost tail = leading_digits(chars@.skip(i + 1));
                proof {
                    assert(rest.skip(1) =~= chars@.skip(i + 1));
                    assert(longer.drop_last() =~= run);
                    assert(digits_value(longer) == value * 10 + digit);
                    assert(leading_digits(body) =~= longer + tail);
                    lemma_leading_digits(chars@.skip(i + 1));
                    lemma_longer_run(longer, tail);
                }
                let next: u64 = value as u64 * 10 + digit as u64;
                if next > u32::MAX as u64 {
                    return Err(NumberError::TooLarge);
                }
                value = next as u32;
            },
        }
        i += 1;
    }
    assert(leading_digits(chars@.skip(i as int)) =~= Seq::empty());
    assert(chars@.subrange(start as int, i as int) =~= body);
    assert(leading_digits(body) =~= body);
    if start == chars.len() {
        return Err(NumberError::InvalidDigit);
    }
    Ok(value)
}

/// A number of one digit is written as that digit; one more digit behind a number makes it ten times
/// as large, and more by the digit.
pub proof fn law_a_number_is_written_digit_by_digit(n: nat, digit: nat)
    requires
        digit < 10,
    ensures
        n == 0 ==> decimal(digit) == seq![(48 + digit) as char],
        n > 0 ==> decimal(n * 10 + digit) == decimal(n).push((48 + digit) as char),
{
    assert((n * 10 + digit) / 10 == n);
    assert((n * 10 + digit) % 10 == digit);
}

/// A number below zero is written with a minus sign before the digits of what it is below zero by; any
/// other without a sign.
pub proof fn law_a_minus_sign_is_for_numbers_below_zero(n: nat)
    ensures
        signed_decimal(n as int) == decimal(n),
        n > 0 ==> signed_decimal(-(n as int)) == seq!['-'] + decimal(n),
{
}

/// Padding puts zeros before a text until it has the width, and leaves a text that has it alone.
pub proof fn law_padding_is_zeros_up_to_the_width(text: Seq<char>, width: nat)
    ensures
        ({
            let padded = zero_padded(text, width);
            let zeros = padded.len() - text.len();
            &&& padded.len() == if text.len() < width { width } else { text.len() }
            &&& padded.skip(zeros) == text
            &&& forall|i: int| 0 <= i < zeros ==> #[trigger] padded[i] == '0'
        }),
{
    let padded = zero_padded(text, width);
    assert(padded.skip(padded.len() - text.len()) =~= text);
}

/// No digits stand for zero; one more digit makes the number ten times as large, and more by the
/// digit.
pub proof fn law_digits_are_worth_their_place(digits: Seq<char>, digit: nat)
    requires
        digit < 10,
    ensures
        digits_value(Seq::<char>::empty()) == 0,
        digits_value(digits.push((48 + digit) as char)) == digits_value(digits) * 10 + digit,
{
    assert(digits.push((48 + digit) as char).drop_last() =~= digits);
}

/// The digits that a text starts with are all of them up to the first character that is no digit.
proof fn lemma_leading_digits_end(text: Seq<char>) -> (to: int)
    ensures
        0 <= to <= text.len(),
        leading_digits(text) == text.take(to),
        forall|i: int| 0 <= i < to ==> is_digit(#[trigger] text[i]),
        to < text.len() ==> !is_digit(text[to]),
    decreases text.len(),
{
    if text.len() > 0 && is_digit(text[0]) {
        let rest = text.skip(1);
        let to = lemma_leading_digits_end(rest);
        assert(seq![text[0]] + rest.take(to) =~= text.take(to + 1));
        assert forall|i: int| 0 <= i < to + 1 implies is_digit(#[trigger] text[i]) by {
            if i > 0 {
                assert(is_digit(rest[i - 1]));
            }
        }
        if to < rest.len() {
            assert(rest[to] == text[to + 1]);
        }
        to + 1
    } else {
        assert(text.take(0) =~= Seq::<char>::empty());
        0
    }
}

/// A text, and what it holds behind a plus sign at its start, or all of it where there is none: it is
/// read as a number exactly when that is digits, at least one, and their number has 32 bits; the
/// result is that number. Otherwise an empty text is called empty, one whose digits up to some place
/// are too large is called too large, and any other is called no number.
pub proof fn law_a_number_is_read_exactly(text: Seq<char>, body: Seq<char>)
    requires
        text.len() > 0 && text[0] == '+' ==> body == text.skip(1),
        text.len() == 0 || text[0] != '+' ==> body == text,
    ensures
        number_in(text) is Ok <==> body.len() > 0 && digits_value(body) <= 4294967295 && forall|i: int|
            0 <= i < body.len() ==> 48 <= (#[trigger] body[i]) as int <= 57,
        number_in(text) matches Ok(n) ==> n == digits_value(body),
        number_in(text) == Err::<u32, NumberError>(NumberError::Empty) <==> text.len() == 0,
        number_in(text) == Err::<u32, NumberError>(NumberError::TooLarge) <==> exists|n: int|
            0 <= n <= body.len() && #[trigger] digits_value(body.take(n)) > 4294967295 && (forall|i: int|
                0 <= i < n ==> 48 <= (#[trigger] body[i]) as int <= 57),
{
    let to = lemma_leading_digits_end(body);
    let run = leading_digits(body);
    assert forall|n: int|
        0 <= n <= body.len() && #[trigger] digits_value(body.take(n)) > 4294967295 && (forall|i: int|
            0 <= i < n ==> 48 <= (#[trigger] body[i]) as int <= 57) implies digits_value(run) > 4294967295 by {
        if to < n {
            assert(48 <= body[to] as int <= 57);
        }
        let tail = body.subrange(n, to);
        assert(run =~= body.take(n) + tail);
        assert forall|i: int| 0 <= i < tail.len() implies is_digit(#[trigger] tail[i]) by {
            assert(is_digit(body[n + i]));
        }
        lemma_longer_run(body.take(n), tail);
    }
    assert forall|i: int| 0 <= i < to implies 48 <= (#[trigger] body[i]) as int <= 57 by {
        assert(is_digit(body[i]));
    }
    assert(digits_value(body.take(to)) == digits_value(run));
    assert(body.take(body.len() as int) =~= body);
    if to < body.len() {
        assert(!(48 <= body[to] as int <= 57));
    }
    if text.len() == 0 {
        assert(digits_value(run) == 0);
    }
}

} // verus!
