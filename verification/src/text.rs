//! Text as the tool reads and writes it: decimal numbers, and blank space
//! at the ends of a line.

use vstd::prelude::*;
use vstd::string::*;

verus! {

/// The character that writes the digit `d`.
pub open spec fn digit_char(d: nat) -> char {
    if d == 0 {
        '0'
    } else if d == 1 {
        '1'
    } else if d == 2 {
        '2'
    } else if d == 3 {
        '3'
    } else if d == 4 {
        '4'
    } else if d == 5 {
        '5'
    } else if d == 6 {
        '6'
    } else if d == 7 {
        '7'
    } else if d == 8 {
        '8'
    } else {
        '9'
    }
}

/// `n` in decimal, without sign or leading zeros.
pub open spec fn decimal(n: nat) -> Seq<char>
    decreases n,
{
    if n < 10 {
        seq![digit_char(n)]
    } else {
        decimal(n / 10).push(digit_char(n % 10))
    }
}

/// Appends one decimal digit to `out`.
pub fn push_digit(out: &mut String, d: u8)
    requires
        d < 10,
    ensures
        final(out)@ == old(out)@.push(digit_char(d as nat)),
{
    proof {
        reveal_strlit("0");
        reveal_strlit("1");
        reveal_strlit("2");
        reveal_strlit("3");
        reveal_strlit("4");
        reveal_strlit("5");
        reveal_strlit("6");
        reveal_strlit("7");
        reveal_strlit("8");
        reveal_strlit("9");
    }
    let ghost before = out@;
    if d == 0 {
        out.append("0");
    } else if d == 1 {
        out.append("1");
    } else if d == 2 {
        out.append("2");
    } else if d == 3 {
        out.append("3");
    } else if d == 4 {
        out.append("4");
    } else if d == 5 {
        out.append("5");
    } else if d == 6 {
        out.append("6");
    } else if d == 7 {
        out.append("7");
    } else if d == 8 {
        out.append("8");
    } else {
        out.append("9");
    }
    assert(out@ =~= before.push(digit_char(d as nat)));
}

/// Appends `n` in decimal to `out`.
pub fn push_decimal(out: &mut String, n: u64)
    ensures
        final(out)@ == old(out)@ + decimal(n as nat),
    decreases n,
{
    let ghost before = out@;
    if n >= 10 {
        push_decimal(out, n / 10);
    }
    push_digit(out, (n % 10) as u8);
    assert(out@ =~= before + decimal(n as nat));
}

/// Whether `c` is blank space: a character with the Unicode property
/// `White_Space`.
pub open spec fn is_whitespace(c: char) -> bool {
    let code = c as u32;
    ||| 0x09 <= code <= 0x0D
    ||| code == 0x20
    ||| code == 0x85
    ||| code == 0xA0
    ||| code == 0x1680
    ||| 0x2000 <= code <= 0x200A
    ||| code == 0x2028
    ||| code == 0x2029
    ||| code == 0x202F
    ||| code == 0x205F
    ||| code == 0x3000
}

/// The number of blank characters at the start of `text`.
pub open spec fn leading_blank(text: Seq<char>) -> nat
    decreases text.len(),
{
    if text.len() > 0 && is_whitespace(text.first()) {
        1 + leading_blank(text.drop_first())
    } else {
        0
    }
}

/// The number of blank characters at the end of `text`.
pub open spec fn trailing_blank(text: Seq<char>) -> nat
    decreases text.len(),
{
    if text.len() > 0 && is_whitespace(text.last()) {
        1 + trailing_blank(text.drop_last())
    } else {
        0
    }
}

/// `text` without the blank space at its start and at its end.
pub open spec fn trimmed(text: Seq<char>) -> Seq<char> {
    if leading_blank(text) == text.len() {
        Seq::empty()
    } else {
        text.subrange(leading_blank(text) as int, text.len() - trailing_blank(text))
    }
}

/// Tells whether `c` is blank space.
pub fn char_is_whitespace(c: char) -> (blank: bool)
    ensures
        blank == is_whitespace(c),
{
    let code: u32 = c as u32;
    (0x09 <= code && code <= 0x0D) || code == 0x20 || code == 0x85 || code == 0xA0 || code
        == 0x1680 || (0x2000 <= code && code <= 0x200A) || code == 0x2028 || code == 0x2029 || code
        == 0x202F || code == 0x205F || code == 0x3000
}

/// The blank space at the start of `text` is the characters before the first
/// one that is not blank.
proof fn lemma_leading_blank(text: Seq<char>, start: int)
    requires
        0 <= start <= text.len(),
        forall|i: int| 0 <= i < start ==> is_whitespace(#[trigger] text[i]),
        start == text.len() || !is_whitespace(text[start]),
    ensures
        leading_blank(text) == start,
    decreases start,
{
    if start > 0 {
        assert(is_whitespace(text[0]));
        let rest = text.drop_first();
        assert forall|i: int| 0 <= i < start - 1 implies is_whitespace(#[trigger] rest[i]) by {
            assert(rest[i] == text[i + 1]);
        }
        lemma_leading_blank(rest, start - 1);
    }
}

/// The blank space at the end of `text` is the characters after the last one
/// that is not blank.
proof fn lemma_trailing_blank(text: Seq<char>, end: int)
    requires
        0 <= end <= text.len(),
        forall|i: int| end <= i < text.len() ==> is_whitespace(#[trigger] text[i]),
        end == 0 || !is_whitespace(text[end - 1]),
    ensures
        trailing_blank(text) == text.len() - end,
    decreases text.len() - end,
{
    if end < text.len() {
        assert(is_whitespace(text[text.len() - 1]));
        let rest = text.drop_last();
        assert forall|i: int| end <= i < rest.len() implies is_whitespace(#[trigger] rest[i]) by {
            assert(rest[i] == text[i]);
        }
        lemma_trailing_blank(rest, end);
    }
}

/// The characters of `text`.
pub fn chars_of(text: &str) -> (chars: Vec<char>)
    ensures
        chars@ == text@,
{
    let mut chars: Vec<char> = Vec::new();
    for c in it: text.chars()
        invariant
            it.seq() == text@,
            chars@ == it.seq().take(it.index() as int),
    {
        chars.push(c);
    }
    chars
}

/// The characters of `text` without the blank space at its start and at its
/// end.
pub fn trimmed_chars(text: &str) -> (kept: Vec<char>)
    ensures
        kept@ == trimmed(text@),
{
    let chars = chars_of(text);
    let mut start: usize = 0;
    while start < chars.len() && char_is_whitespace(chars[start])
        invariant
            start <= chars.len(),
            forall|i: int| 0 <= i < start ==> is_whitespace(#[trigger] chars@[i]),
        decreases chars.len() - start,
    {
        start = start + 1;
    }
    let mut end: usize = chars.len();
    while end > start && char_is_whitespace(chars[end - 1])
        invariant
            start <= end <= chars.len(),
            forall|i: int| end <= i < chars.len() ==> is_whitespace(#[trigger] chars@[i]),
        decreases end,
    {
        end = end - 1;
    }
    proof {
        lemma_leading_blank(chars@, start as int);
        if start < chars.len() {
            lemma_trailing_blank(chars@, end as int);
        }
    }
    let mut kept: Vec<char> = Vec::new();
    let mut at: usize = start;
    while at < end
        invariant
            start <= at <= end <= chars.len(),
            kept@ == chars@.subrange(start as int, at as int),
        decreases end - at,
    {
        kept.push(chars[at]);
        at = at + 1;
        assert(kept@ =~= chars@.subrange(start as int, at as int));
    }
    assert(kept@ =~= trimmed(text@));
    kept
}

/// Whether `c` is one of the ten digits.
pub open spec fn is_digit(c: char) -> bool {
    0x30 <= c as u32 <= 0x39
}

/// The number that the digit `c` stands for.
pub open spec fn digit_value(c: char) -> nat {
    (c as u32 - 0x30) as nat
}

/// Whether `text` holds digits and nothing else.
pub open spec fn all_digits(text: Seq<char>) -> bool {
    forall|i: int| 0 <= i < text.len() ==> is_digit(#[trigger] text[i])
}

/// The number that the digits `digits` write.
pub open spec fn digits_value(digits: Seq<char>) -> nat
    decreases digits.len(),
{
    if digits.len() == 0 {
        0
    } else {
        digits_value(digits.drop_last()) * 10 + digit_value(digits.last())
    }
}

/// Why a text is not a number that can be used.
#[derive(Clone, Copy, Debug, PartialEq, Eq)]
pub enum NumberError {
    /// The text is empty.
    Empty,
    /// The text holds something other than digits after an optional `+`, or
    /// no digit at all.
    InvalidDigit,
    /// The number is larger than the largest one that is accepted.
    TooLarge,
}

/// The digits of `text`: all of it, or what follows a `+` at its start.
pub open spec fn digits_of(text: Seq<char>) -> Seq<char> {
    if text.len() > 0 && text[0] == '+' {
        text.drop_first()
    } else {
        text
    }
}

/// The number that `text` writes, where it is one of at most `max`: one or
/// more digits, which a `+` may precede. Zeros at the start do not count.
pub open spec fn parsed_number(text: Seq<char>, max: nat) -> Result<nat, NumberError> {
    let digits = digits_of(text);
    if text.len() == 0 {
        Err(NumberError::Empty)
    } else if digits.len() == 0 || !all_digits(digits) {
        Err(NumberError::InvalidDigit)
    } else if digits_value(digits) > max {
        Err(NumberError::TooLarge)
    } else {
        Ok(digits_value(digits))
    }
}

/// The number that the first digits write is no larger than the number that
/// all of them write.
proof fn lemma_digits_value_grows(digits: Seq<char>, first: int)
    requires
        0 <= first <= digits.len(),
    ensures
        digits_value(digits.take(first)) <= digits_value(digits),
    decreases digits.len() - first,
{
    if first < digits.len() {
        lemma_digits_value_grows(digits, first + 1);
        assert(digits.take(first + 1).drop_last() =~= digits.take(first));
    } else {
        assert(digits.take(first) =~= digits);
    }
}

/// Reads the number that `text` writes, where it is one of at most `max`.
pub fn parse_number(text: &Vec<char>, max: u64) -> (number: Result<u64, NumberError>)
    ensures
        number matches Ok(value) ==> parsed_number(text@, max as nat) == Ok::<nat, NumberError>(
            value as nat,
        ),
        number matches Err(error) ==> parsed_number(text@, max as nat) == Err::<nat, NumberError>(
            error,
        ),
{
    if text.len() == 0 {
        return Err(NumberError::Empty);
    }
    let start: usize = if text[0] == '+' {
        1
    } else {
        0
    };
    let ghost digits = digits_of(text@);
    assert(digits =~= text@.subrange(start as int, text.len() as int));
    if start == text.len() {
        return Err(NumberError::InvalidDigit);
    }
    let mut at: usize = start;
    while at < text.len()
        invariant
            start <= at <= text.len(),
            start < text.len(),
            digits == digits_of(text@),
            digits == text@.subrange(start as int, text.len() as int),
            forall|i: int| 0 <= i < at - start ==> is_digit(#[trigger] digits[i]),
        decreases text.len() - at,
    {
        let c: char = text[at];
        assert(c == digits[at - start]);
        let code: u32 = c as u32;
        if code < 0x30 || code > 0x39 {
            return Err(NumberError::InvalidDigit);
        }
        at = at + 1;
    }
    assert(all_digits(digits));
    let mut value: u64 = 0;
    let mut at: usize = start;
    assert(digits.take(0) =~= Seq::<char>::empty());
    while at < text.len()
        invariant
            start <= at <= text.len(),
            start < text.len(),
            digits == digits_of(text@),
            digits == text@.subrange(start as int, text.len() as int),
            all_digits(digits),
            value == digits_value(digits.take(at - start)),
            value <= max,
        decreases text.len() - at,
    {
        let c: char = text[at];
        assert(c == digits[at - start]);
        assert(is_digit(digits[at - start]));
        let digit: u32 = c as u32 - 0x30;
        let next: u128 = value as u128 * 10 + digit as u128;
        proof {
            assert(digits.take(at - start + 1).drop_last() =~= digits.take(at - start));
            assert(digits.take(at - start + 1).last() == c);
            lemma_digits_value_grows(digits, at - start + 1);
        }
        if next > max as u128 {
            return Err(NumberError::TooLarge);
        }
        value = next as u64;
        at = at + 1;
    }
    assert(digits.take(digits.len() as int) =~= digits);
    Ok(value)
}

} // verus!
