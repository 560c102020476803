//! The text form of a timestamp: its decimal digits.

use vstd::prelude::*;
use vstd::string::*;
use vstd::utf8::is_ascii_chars;

verus! {

/// The longest text that `timestamp_text` produces: the digits of
/// `u128::MAX`.
pub const TEXT_LIMIT: usize = 39;

/// The character of a decimal digit.
pub open spec fn digit_char(digit: nat) -> char {
    if digit == 0 {
        '0'
    } else if digit == 1 {
        '1'
    } else if digit == 2 {
        '2'
    } else if digit == 3 {
        '3'
    } else if digit == 4 {
        '4'
    } else if digit == 5 {
        '5'
    } else if digit == 6 {
        '6'
    } else if digit == 7 {
        '7'
    } else if digit == 8 {
        '8'
    } else {
        '9'
    }
}

pub open spec fn is_digit(c: char) -> bool {
    '0' <= c <= '9'
}

/// The number a decimal digit stands for.
pub open spec fn digit_value(c: char) -> nat {
    (c as nat - '0' as nat) as nat
}

/// The decimal rendering of `n`, without sign or leading zeros.
pub open spec fn decimal_text(n: nat) -> Seq<char>
    decreases n,
{
    if n < 10 {
        seq![digit_char(n)]
    } else {
        decimal_text(n / 10).push(digit_char(n % 10))
    }
}

pub open spec fn all_digits(text: Seq<char>) -> bool {
    forall|i: int| 0 <= i < text.len() ==> is_digit(#[trigger] text[i])
}

/// The number that a run of decimal digits denotes, read as base ten.
pub open spec fn digits_value(text: Seq<char>) -> nat
    decreases text.len(),
{
    if text.len() == 0 {
        0
    } else {
        digits_value(text.drop_last()) * 10 + digit_value(text.last())
    }
}

/// The text without the plus sign that may lead it.
pub open spec fn unsigned_part(text: Seq<char>) -> Seq<char> {
    if text.len() > 0 && text[0] == '+' {
        text.subrange(1, text.len() as int)
    } else {
        text
    }
}

/// The timestamp that a text denotes: an optional plus sign, then one or
/// more decimal digits whose value fits in 128 bits.  Anything else
/// denotes none.
pub open spec fn parse_text(text: Seq<char>) -> Option<u128> {
    let digits = unsigned_part(text);
    if digits.len() > 0 && all_digits(digits) && digits_value(digits) <= u128::MAX {
        Some(digits_value(digits) as u128)
    } else {
        None
    }
}

fn digit_str(digit: u8) -> (s: &'static str)
    requires
        digit < 10,
    ensures
        s@ == seq![digit_char(digit as nat)],
{
    proof {
        reveal_strlit("0");
        reveal_strlit("1");
        reveal_strlit("2");
        reveal_strlit("3");
        reveal_strlit("4");
        reveal_strlit("5");
        reveal_strlit("6");
        reveal_strlit("7");
        reveal_strlit("8");
        reveal_strlit("9");
    }
    let s = if digit == 0 {
        "0"
    } else if digit == 1 {
        "1"
    } else if digit == 2 {
        "2"
    } else if digit == 3 {
        "3"
    } else if digit == 4 {
        "4"
    } else if digit == 5 {
        "5"
    } else if digit == 6 {
        "6"
    } else if digit == 7 {
        "7"
    } else if digit == 8 {
        "8"
    } else {
        "9"
    };
    assert(s@ =~= seq![digit_char(digit as nat)]);
    s
}

fn append_decimal(out: &mut String, n: u128)
    ensures
        final(out)@ == old(out)@ + decimal_text(n as nat),
    decreases n,
{
    if n >= 10 {
        append_decimal(out, n / 10);
    }
    let digit: u8 = (n % 10) as u8;
    out.append(digit_str(digit));
    proof {
        let before = old(out)@;
        if n >= 10 {
            assert(final(out)@ =~= before + decimal_text((n / 10) as nat).push(
                digit_char((n % 10) as nat),
            ));
        } else {
            assert(final(out)@ =~= before + seq![digit_char(n as nat)]);
        }
    }
}

/// Renders a timestamp as text.
pub fn timestamp_text(timestamp: u128) -> (text: String)
    ensures
        text@ == decimal_text(timestamp as nat),
        text@.len() <= TEXT_LIMIT,
{
    let mut text = String::new();
    append_decimal(&mut text, timestamp);
    proof {
        assert(text@ =~= decimal_text(timestamp as nat));
        lemma_pow10_39();
        lemma_decimal_text_len(timestamp as nat, 39);
    }
    text
}

/// Reads a timestamp from text.
///
/// The text may start with a plus sign; after that it must consist of
/// decimal digits, at least one, whose value fits in 128 bits.
pub fn parse_timestamp(text: &str) -> (r: Option<u128>)
    ensures
        r == parse_text(text@),
{
    if !text.is_ascii() {
        proof {
            lemma_digits_are_ascii(text@);
        }
        return None;
    }
    let bytes = text.as_bytes();
    proof {
        is_ascii_spec_bytes(text);
    }
    let n: usize = bytes.len();
    let start: usize = if n > 0 && bytes[0] == 43 {
        1
    } else {
        0
    };
    let ghost digits = unsigned_part(text@);
    assert(digits =~= text@.subrange(start as int, n as int));
    if start == n {
        return None;
    }
    let mut value: u128 = 0;
    let mut i: usize = start;
    while i < n
        invariant
            start <= i <= n,
            n == text@.len(),
            n == bytes@.len(),
            digits == unsigned_part(text@),
            digits == text@.subrange(start as int, n as int),
            forall|k: int| 0 <= k < n ==> bytes@[k] == #[trigger] text@[k] as u8,
            forall|k: int| 0 <= k < n ==> '\0' <= #[trigger] text@[k] <= '\u{7f}',
            all_digits(digits.subrange(0, i - start)),
            value == digits_value(digits.subrange(0, i - start)),
        decreases n - i,
    {
        let byte: u8 = bytes[i];
        let ghost c = text@[i as int];
        assert(c == digits[i - start]);
        if byte < 48 || byte > 57 {
            assert(!is_digit(c));
            return None;
        }
        let digit: u128 = (byte - 48) as u128;
        assert(is_digit(c) && digit_value(c) == digit);
        let ghost longer = digits.subrange(0, i - start + 1);
        assert(longer.drop_last() =~= digits.subrange(0, i - start));
        assert(longer.last() == c);
        assert(digits_value(longer) == value * 10 + digit);
        if value > (u128::MAX - digit) / 10 {
            proof {
                lemma_digits_value_prefix(digits, i - start + 1);
            }
            return None;
        }
        value = value * 10 + digit;
        i += 1;
    }
    assert(digits.subrange(0, n - start) =~= digits);
    Some(value)
}

/// Text that denotes a timestamp is made of ASCII characters.
proof fn lemma_digits_are_ascii(text: Seq<char>)
    ensures
        parse_text(text) is Some ==> is_ascii_chars(text),
{
    if parse_text(text) is Some {
        let digits = unsigned_part(text);
        assert forall|i: int| 0 <= i < text.len() implies '\0' <= #[trigger] text[i]
            <= '\u{7f}' by {
            if text[0] == '+' {
                if i > 0 {
                    assert(is_digit(digits[i - 1]));
                }
            } else {
                assert(is_digit(digits[i]));
            }
        }
    }
}

/// Reading more digits never gives a smaller number.
proof fn lemma_digits_value_prefix(text: Seq<char>, len: int)
    requires
        0 <= len <= text.len(),
    ensures
        digits_value(text.subrange(0, len)) <= digits_value(text),
    decreases text.len() - len,
{
    if len == text.len() {
        assert(text.subrange(0, len) =~= text);
    } else {
        assert(text.drop_last().subrange(0, len) =~= text.subrange(0, len));
        lemma_digits_value_prefix(text.drop_last(), len);
    }
}

/// The digits written for a number are digits, and denote that number.
pub proof fn lemma_decimal_text_value(n: nat)
    ensures
        decimal_text(n).len() >= 1,
        all_digits(decimal_text(n)),
        digits_value(decimal_text(n)) == n,
    decreases n,
{
    let text = decimal_text(n);
    if n < 10 {
        assert(text.drop_last() =~= Seq::<char>::empty());
        assert(digits_value(text.drop_last()) == 0);
    } else {
        lemma_decimal_text_value(n / 10);
        assert(text.drop_last() =~= decimal_text(n / 10));
        assert(text.last() == digit_char(n % 10));
    }
}

/// Reading back what was written gives the timestamp that was written.
pub proof fn lemma_text_round_trip(timestamp: u128)
    ensures
        parse_text(decimal_text(timestamp as nat)) == Some(timestamp),
{
    let text = decimal_text(timestamp as nat);
    lemma_decimal_text_value(timestamp as nat);
    assert(is_digit(text[0]));
    assert(unsigned_part(text) == text);
}

/// Ten to the power `exponent`.
pub open spec fn pow10(exponent: nat) -> nat
    decreases exponent,
{
    if exponent == 0 {
        1
    } else {
        10 * pow10((exponent - 1) as nat)
    }
}

proof fn lemma_pow10_39()
    ensures
        pow10(39) == 1_000_000_000_000_000_000_000_000_000_000_000_000_000,
        pow10(39) > u128::MAX,
{
    reveal_with_fuel(pow10, 14);
    assert(pow10(13) == 10_000_000_000_000);
    assert(pow10(26) == 100_000_000_000_000_000_000_000_000);
}

/// A number below `10^width` has at most `width` digits.
pub proof fn lemma_decimal_text_len(n: nat, width: nat)
    requires
        width >= 1,
        n < pow10(width),
    ensures
        1 <= decimal_text(n).len() <= width,
    decreases n,
{
    reveal_with_fuel(pow10, 2);
    if n >= 10 {
        if width == 1 {
            assert(pow10(1) == 10);
        } else {
            assert(pow10(width) == 10 * pow10((width - 1) as nat));
            lemma_decimal_text_len(n / 10, (width - 1) as nat);
        }
    }
}

} // verus!
