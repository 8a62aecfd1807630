//! Strings as sequences of characters: joining, order, decimal numbers.

use vstd::prelude::*;
use vstd::string::*;

verus! {

/// A string of the given characters, joined from two parts.
pub fn text2(a: &str, b: &str) -> (joined: String)
    ensures
        joined@ == a@ + b@,
{
    let mut joined: String = a.to_owned();
    joined.append(b);
    joined
}

/// Three parts, one after another.
pub fn text3(a: &str, b: &str, c: &str) -> (joined: String)
    ensures
        joined@ == a@ + b@ + c@,
{
    let mut joined: String = text2(a, b);
    joined.append(c);
    joined
}

/// Four parts, one after another.
pub fn text4(a: &str, b: &str, c: &str, d: &str) -> (joined: String)
    ensures
        joined@ == a@ + b@ + c@ + d@,
{
    let mut joined: String = text3(a, b, c);
    joined.append(d);
    joined
}

/// Five parts, one after another.
pub fn text5(a: &str, b: &str, c: &str, d: &str, e: &str) -> (joined: String)
    ensures
        joined@ == a@ + b@ + c@ + d@ + e@,
{
    let mut joined: String = text4(a, b, c, d);
    joined.append(e);
    joined
}

/// Seven parts, one after another.
pub fn text7(a: &str, b: &str, c: &str, d: &str, e: &str, f: &str, g: &str) -> (joined: String)
    ensures
        joined@ == a@ + b@ + c@ + d@ + e@ + f@ + g@,
{
    let mut joined: String = text5(a, b, c, d, e);
    joined.append(f);
    joined.append(g);
    joined
}

/// The rest of a text after a prefix, if it begins with it.
pub open spec fn after_prefix(text: Seq<char>, prefix: Seq<char>) -> Option<Seq<char>> {
    if prefix.len() <= text.len() && text.take(prefix.len() as int) == prefix {
        Some(text.skip(prefix.len() as int))
    } else {
        None
    }
}

/// The rest of a text after a prefix, if it begins with it.
pub fn strip_prefix(text: &str, prefix: &str) -> (rest: Option<String>)
    ensures
        rest.deep_view() == after_prefix(text@, prefix@),
{
    let length: usize = text.unicode_len();
    let skipped: usize = prefix.unicode_len();
    if skipped > length {
        return None;
    }
    let head: String = text.substring_char(0, skipped).to_owned();
    if head == prefix.to_owned() {
        let rest: String = text.substring_char(skipped, length).to_owned();
        assert(text@.subrange(skipped as int, length as int) =~= text@.skip(skipped as int));
        Some(rest)
    } else {
        None
    }
}

/// The characters of a string.
pub fn chars_of(text: &str) -> (chars: Vec<char>)
    ensures
        chars@ == text@,
{
    let mut chars: Vec<char> = Vec::new();
    for c in iter: text.chars()
        invariant
            chars@ == text@.take(iter.index() as int),
            iter.seq() == text@,
    {
        chars.push(c);
        assert(text@.take(iter.index() as int + 1) =~= text@.take(iter.index() as int).push(c));
    }
    assert(text@.take(text@.len() as int) =~= text@);
    chars
}

/// Alphabetical order by character code, a prefix before what it begins.
pub open spec fn text_before(a: Seq<char>, b: Seq<char>) -> bool
    decreases a.len(),
{
    if b.len() == 0 {
        false
    } else if a.len() == 0 {
        true
    } else if a[0] != b[0] {
        a[0] < b[0]
    } else {
        text_before(a.drop_first(), b.drop_first())
    }
}

/// Whether `a` comes before `b` in alphabetical order.
pub fn is_text_before(a: &str, b: &str) -> (before: bool)
    ensures
        before == text_before(a@, b@),
{
    let left: Vec<char> = chars_of(a);
    let right: Vec<char> = chars_of(b);
    let mut i: usize = 0;
    assert(a@.skip(0) =~= a@ && b@.skip(0) =~= b@);
    while i < left.len() && i < right.len()
        invariant
            i <= left@.len(),
            i <= right@.len(),
            left@ == a@,
            right@ == b@,
            text_before(a@, b@) == text_before(a@.skip(i as int), b@.skip(i as int)),
        decreases left@.len() - i,
    {
        assert(a@.skip(i as int)[0] == left@[i as int]);
        assert(b@.skip(i as int)[0] == right@[i as int]);
        if left[i] != right[i] {
            return left[i] < right[i];
        }
        assert(a@.skip(i as int).drop_first() =~= a@.skip(i + 1));
        assert(b@.skip(i as int).drop_first() =~= b@.skip(i + 1));
        i += 1;
    }
    i < right.len()
}

/// Exactly one of two texts comes before the other, unless they are equal.
pub proof fn text_order_is_total(a: Seq<char>, b: Seq<char>)
    ensures
        text_before(a, b) || text_before(b, a) || a == b,
        !(text_before(a, b) && text_before(b, a)),
        a == b ==> !text_before(a, b),
    decreases a.len(),
{
    if a.len() == 0 || b.len() == 0 {
        if a.len() == 0 && b.len() == 0 {
            assert(a =~= b);
        }
    } else if a[0] == b[0] {
        text_order_is_total(a.drop_first(), b.drop_first());
        if a.drop_first() == b.drop_first() {
            assert(a =~= seq![a[0]] + a.drop_first());
            assert(b =~= seq![b[0]] + b.drop_first());
        }
    } else {
        assert(a != b);
    }
}

/// What comes before a text that comes before a third, comes before the third.
pub proof fn text_order_is_transitive(a: Seq<char>, b: Seq<char>, c: Seq<char>)
    requires
        text_before(a, b),
        text_before(b, c),
    ensures
        text_before(a, c),
    decreases a.len(),
{
    if a.len() > 0 && b.len() > 0 && c.len() > 0 && a[0] == b[0] && b[0] == c[0] {
        text_order_is_transitive(a.drop_first(), b.drop_first(), c.drop_first());
    }
}

/// The decimal digit of a number below ten.
pub open spec fn digit_char(digit: nat) -> char {
    if digit == 0 { '0' } else if digit == 1 { '1' } else if digit == 2 { '2' } else if digit == 3 { '3' }
    else if digit == 4 { '4' } else if digit == 5 { '5' } else if digit == 6 { '6' }
    else if digit == 7 { '7' } else if digit == 8 { '8' } else { '9' }
}

/// A number in decimal, without leading zeros.
pub open spec fn decimal(n: nat) -> Seq<char>
    decreases n,
{
    if n < 10 {
        seq![digit_char(n)]
    } else {
        decimal(n / 10).push(digit_char(n % 10))
    }
}

fn digit_text(digit: u64) -> (text: &'static str)
    requires
        digit < 10,
    ensures
        text@ == seq![digit_char(digit as nat)],
{
    proof {
        reveal_strlit("0");
        reveal_strlit("1");
        reveal_strlit("2");
        reveal_strlit("3");
        reveal_strlit("4");
        reveal_strlit("5");
        reveal_strlit("6");
        reveal_strlit("7");
        reveal_strlit("8");
        reveal_strlit("9");
    }
    let text: &'static str = match digit {
        0 => "0",
        1 => "1",
        2 => "2",
        3 => "3",
        4 => "4",
        5 => "5",
        6 => "6",
        7 => "7",
        8 => "8",
        _ => "9",
    };
    assert(text@ =~= seq![digit_char(digit as nat)]);
    text
}

/// The decimal text of a number.
pub fn decimal_text(n: u64) -> (text: String)
    ensures
        text@ == decimal(n as nat),
    decreases n,
{
    if n < 10 {
        digit_text(n).to_owned()
    } else {
        let mut text: String = decimal_text(n / 10);
        text.append(digit_text(n % 10));
        assert(text@ =~= decimal((n / 10) as nat).push(digit_char((n % 10) as nat)));
        text
    }
}

/// Why a text is no decimal number of 64 bits.
#[derive(Clone, Copy, Debug, PartialEq, Eq, Structural)]
pub enum DecimalError {
    /// There is no character at all.
    Empty,
    /// A character is no decimal digit.
    InvalidDigit,
    /// The number does not fit into 64 bits.
    TooLarge,
}

impl DeepView for DecimalError {
    type V = DecimalError;

    open spec fn deep_view(&self) -> DecimalError {
        *self
    }
}

impl DecimalError {
    /// The text that names the fault.
    pub open spec fn chars(self) -> Seq<char> {
        match self {
            DecimalError::Empty => "cannot parse integer from empty string"@,
            DecimalError::InvalidDigit => "invalid digit found in string"@,
            DecimalError::TooLarge => "number too large to fit in target type"@,
        }
    }

    /// The text that names the fault.
    pub fn as_str(self) -> (text: &'static str)
        ensures
            text@ == self.chars(),
    {
        match self {
            DecimalError::Empty => "cannot parse integer from empty string",
            DecimalError::InvalidDigit => "invalid digit found in string",
            DecimalError::TooLarge => "number too large to fit in target type",
        }
    }
}

/// The value of a decimal digit.
pub open spec fn digit_value(c: char) -> Option<nat> {
    if c == '0' { Some(0) } else if c == '1' { Some(1) } else if c == '2' { Some(2) } else if c == '3' { Some(3) }
    else if c == '4' { Some(4) } else if c == '5' { Some(5) } else if c == '6' { Some(6) }
    else if c == '7' { Some(7) } else if c == '8' { Some(8) } else if c == '9' { Some(9) } else { None }
}

fn digit_of(c: char) -> (digit: Option<u64>)
    ensures
        digit is Some == digit_value(c) is Some,
        digit is Some ==> digit->0 == digit_value(c)->0 && digit->0 < 10,
{
    match c {
        '0' => Some(0),
        '1' => Some(1),
        '2' => Some(2),
        '3' => Some(3),
        '4' => Some(4),
        '5' => Some(5),
        '6' => Some(6),
        '7' => Some(7),
        '8' => Some(8),
        '9' => Some(9),
        _ => None,
    }
}

/// The number that digits give when they follow those of `n`.
pub open spec fn number_after(n: nat, digits: Seq<char>) -> Result<u64, DecimalError>
    decreases digits.len(),
{
    if digits.len() == 0 {
        Ok(n as u64)
    } else {
        match digit_value(digits[0]) {
            None => Err(DecimalError::InvalidDigit),
            Some(digit) => if n * 10 + digit > u64::MAX {
                Err(DecimalError::TooLarge)
            } else {
                number_after(n * 10 + digit, digits.drop_first())
            },
        }
    }
}

/// The number that a text stands for: decimal digits, after an optional plus sign.
pub open spec fn number(text: Seq<char>) -> Result<u64, DecimalError> {
    if text.len() == 0 {
        Err(DecimalError::Empty)
    } else if text.len() > 1 && text[0] == '+' {
        number_after(0, text.drop_first())
    } else {
        number_after(0, text)
    }
}

/// Reads a decimal number.
pub fn parse_number(text: &str) -> (result: Result<u64, DecimalError>)
    ensures
        result == number(text@),
{
    let chars: Vec<char> = chars_of(text);
    if chars.len() == 0 {
        return Err(DecimalError::Empty);
    }
    let mut i: usize = if chars.len() > 1 && chars[0] == '+' { 1 } else { 0 };
    let mut n: u64 = 0;
    proof {
        assert(text@.skip(1) =~= text@.drop_first());
        assert(text@.skip(0) =~= text@);
    }
    while i < chars.len()
        invariant
            i <= chars@.len(),
            chars@ == text@,
            number(text@) == number_after(n as nat, text@.skip(i as int)),
        decreases chars@.len() - i,
    {
        assert(text@.skip(i as int)[0] == chars@[i as int]);
        assert(text@.skip(i as int).drop_first() =~= text@.skip(i + 1));
        match digit_of(chars[i]) {
            None => {
                return Err(DecimalError::InvalidDigit);
            },
            Some(digit) => {
                if n > (u64::MAX - digit) / 10 {
                    return Err(DecimalError::TooLarge);
                }
                n = n * 10 + digit;
            },
        }
        i += 1;
    }
    Ok(n)
}

proof fn number_after_decimal(n: nat, rest: Seq<char>)
    requires
        n <= u64::MAX,
    ensures
        number_after(0, decimal(n) + rest) == number_after(n, rest),
    decreases n,
{
    if n < 10 {
        assert((decimal(n) + rest).drop_first() =~= rest);
        assert((decimal(n) + rest)[0] == digit_char(n));
    } else {
        let tail = seq![digit_char(n % 10)] + rest;
        number_after_decimal(n / 10, tail);
        assert(decimal(n) + rest =~= decimal(n / 10) + tail);
        assert(tail.drop_first() =~= rest);
        assert(tail[0] == digit_char(n % 10));
        assert((n / 10) * 10 + n % 10 == n);
    }
}

/// A decimal text has at least one character, and the first is a digit.
pub proof fn decimal_starts_with_digit(n: nat)
    ensures
        decimal(n).len() > 0,
        digit_value(decimal(n)[0]) is Some,
    decreases n,
{
    if n >= 10 {
        decimal_starts_with_digit(n / 10);
    }
}

/// The text of a number stands for that number.
pub proof fn decimal_round_trip(n: nat)
    requires
        n <= u64::MAX,
    ensures
        number(decimal(n)) == Ok::<u64, DecimalError>(n as u64),
{
    decimal_starts_with_digit(n);
    number_after_decimal(n, Seq::empty());
    assert(decimal(n) + Seq::<char>::empty() =~= decimal(n));
}

/// Every character of a decimal text is a digit.
pub proof fn decimal_has_only_digits(n: nat, i: int)
    requires
        0 <= i < decimal(n).len(),
    ensures
        digit_value(decimal(n)[i]) is Some,
    decreases n,
{
    if n >= 10 && i < decimal(n / 10).len() {
        decimal_has_only_digits(n / 10, i);
    }
}

/// `true` or `false` as text.
pub open spec fn bool_chars(value: bool) -> Seq<char> {
    if value { "true"@ } else { "false"@ }
}

/// The text of a truth value.
pub fn bool_text(value: bool) -> (text: &'static str)
    ensures
        text@ == bool_chars(value),
{
    if value { "true" } else { "false" }
}

} // verus!
