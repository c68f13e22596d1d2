use crate::text::chars_of;
use vstd::prelude::*;

verus! {

/// Whether a character is one of the ten decimal digits.
pub open spec fn is_digit(c: char) -> bool {
    '0' <= c && c <= '9'
}

/// The number that a decimal digit stands for.
pub open spec fn digit_value(c: char) -> int {
    c as int - '0' as int
}

/// The decimal digit that stands for a number below ten.
pub open spec fn digit_char(d: int) -> char {
    (d + '0' as int) as char
}

/// Whether every character of a text is a decimal digit.
pub open spec fn all_digits(text: Seq<char>) -> bool {
    forall|i: int| 0 <= i < text.len() ==> is_digit(#[trigger] text[i])
}

/// The number that a text of decimal digits stands for.
pub open spec fn decimal_value(digits: Seq<char>) -> int
    decreases digits.len(),
{
    if digits.len() == 0 {
        0
    } else {
        decimal_value(digits.drop_last()) * 10 + digit_value(digits.last())
    }
}

/// The digits of a text: what follows its sign, if it has one.
pub open spec fn unsigned_part(text: Seq<char>) -> Seq<char> {
    if text.len() > 0 && (text[0] == '-' || text[0] == '+') {
        text.drop_first()
    } else {
        text
    }
}

/// The 32-bit number that a text stands for: an optional sign, then one or
/// more decimal digits. `None` where the text has another form or the number
/// does not fit.
pub open spec fn parse_number(text: Seq<char>) -> Option<i32> {
    let digits = unsigned_part(text);
    let magnitude = decimal_value(digits);
    let value = if text.len() > 0 && text[0] == '-' {
        -magnitude
    } else {
        magnitude
    };
    if digits.len() == 0 || !all_digits(digits) || value < i32::MIN || value > i32::MAX {
        None
    } else {
        Some(value as i32)
    }
}

/// The decimal digits of a natural number, without leading zeros.
pub open spec fn decimal_digits(n: nat) -> Seq<char>
    decreases n,
{
    if n < 10 {
        seq![digit_char(n as int)]
    } else {
        decimal_digits(n / 10).push(digit_char((n % 10) as int))
    }
}

/// The decimal text of an integer: a minus sign for a negative one, then the
/// digits of its magnitude.
pub open spec fn number_text(n: int) -> Seq<char> {
    if n < 0 {
        seq!['-'] + decimal_digits((-n) as nat)
    } else {
        decimal_digits(n as nat)
    }
}

/// The digits of a number are digits, and stand for the number.
pub proof fn lemma_decimal_digits(n: nat)
    ensures
        decimal_digits(n).len() > 0,
        all_digits(decimal_digits(n)),
        decimal_value(decimal_digits(n)) == n,
    decreases n,
{
    if n < 10 {
        let s = decimal_digits(n);
        assert(s.drop_last() =~= Seq::<char>::empty());
        assert(decimal_value(s.drop_last()) == 0);
    } else {
        lemma_decimal_digits(n / 10);
        let s = decimal_digits(n);
        assert(s.drop_last() =~= decimal_digits(n / 10));
    }
}

/// Reading the decimal text of a 32-bit number gives the number back.
pub proof fn lemma_number_text_parses(n: i32)
    ensures
        parse_number(number_text(n as int)) == Some(n),
{
    let text = number_text(n as int);
    if n < 0 {
        let digits = decimal_digits((-n) as nat);
        lemma_decimal_digits((-n) as nat);
        assert(text.drop_first() =~= digits);
    } else {
        lemma_decimal_digits(n as nat);
    }
}

/// More digits do not make a number smaller.
proof fn lemma_decimal_value_grows(digits: Seq<char>, i: int)
    requires
        all_digits(digits),
        0 <= i <= digits.len(),
    ensures
        0 <= decimal_value(digits.take(i)) <= decimal_value(digits),
    decreases digits.len() - i,
{
    lemma_decimal_value_nonnegative(digits.take(i));
    if i == digits.len() {
        assert(digits.take(i) =~= digits);
    } else {
        assert(digits.take(i + 1).drop_last() =~= digits.take(i));
        lemma_decimal_value_grows(digits, i + 1);
    }
}

/// A text of digits stands for a natural number.
proof fn lemma_decimal_value_nonnegative(digits: Seq<char>)
    requires
        all_digits(digits),
    ensures
        0 <= decimal_value(digits),
    decreases digits.len(),
{
    if digits.len() > 0 {
        lemma_decimal_value_nonnegative(digits.drop_last());
    }
}

/// The 32-bit number that a text stands for, if it stands for one.
pub fn parse_i32(text: &str) -> (r: Option<i32>)
    ensures
        r == parse_number(text@),
{
    let chars = chars_of(text);
    let n = chars.len();
    let negative = n > 0 && chars[0] == '-';
    let start: usize = if n > 0 && (chars[0] == '-' || chars[0] == '+') {
        1
    } else {
        0
    };
    let ghost digits = unsigned_part(text@);
    assert(digits =~= chars@.skip(start as int));
    if start == n {
        return None;
    }
    let mut value: i64 = 0;
    let mut i: usize = start;
    assert(digits.take(0) =~= Seq::<char>::empty());
    while i < n
        invariant
            start <= i <= n,
            n == chars.len(),
            digits == chars@.skip(start as int),
            digits == unsigned_part(text@),
            all_digits(digits.take(i - start)),
            value == decimal_value(digits.take(i - start)),
            0 <= value <= 0x8000_0000,
        decreases n - i,
    {
        let c = chars[i];
        proof {
            assert(digits.take(i - start + 1).drop_last() =~= digits.take(i - start));
            assert(digits.take(i - start + 1).last() == c);
        }
        if !(c >= '0' && c <= '9') {
            assert(!is_digit(digits[i - start]));
            return None;
        }
        let d: i64 = (c as u32 - '0' as u32) as i64;
        value = value * 10 + d;
        if value > 0x8000_0000 {
            proof {
                if all_digits(digits) {
                    lemma_decimal_value_grows(digits, i - start + 1);
                }
            }
            return None;
        }
        i += 1;
    }
    assert(digits.take(i - start) =~= digits);
    if negative {
        Some((-value) as i32)
    } else if value > 0x7fff_ffff {
        None
    } else {
        Some(value as i32)
    }
}

/// Appends the decimal digits of a number to a text.
fn push_digits(n: u32, out: &mut String)
    ensures
        final(out)@ == old(out)@ + decimal_digits(n as nat),
    decreases n,
{
    if n >= 10 {
        push_digits(n / 10, out);
    }
    let digit = ((n % 10) as u8 + 48u8) as char;
    assert(digit == digit_char((n % 10) as int));
    out.push(digit);
    assert(out@ =~= old(out)@ + decimal_digits(n as nat));
}

/// Appends the decimal text of a number to a text.
pub fn push_number(n: i32, out: &mut String)
    ensures
        final(out)@ == old(out)@ + number_text(n as int),
{
    if n < 0 {
        out.push('-');
        let magnitude: u32 = (-(n as i64)) as u32;
        push_digits(magnitude, out);
        assert(out@ =~= old(out)@ + number_text(n as int));
    } else {
        push_digits(n as u32, out);
    }
}

/// The decimal text of a number.
pub fn number_string(n: i32) -> (s: String)
    ensures
        s@ == number_text(n as int),
{
    let mut s = String::new();
    push_number(n, &mut s);
    assert(s@ =~= number_text(n as int));
    s
}

} // verus!
