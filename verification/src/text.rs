//! Numbers as text.

use vstd::prelude::*;
use vstd::string::StrSliceExecFns;

verus! {

/// Calls `String::push`: appends one character.
#[verifier::external_body]
pub(crate) fn push_char(text: &mut String, c: char)
    ensures
        final(text)@ == old(text)@.push(c),
{
    text.push(c)
}

/// The decimal digit for a value below ten.
pub open spec fn digit(v: nat) -> char {
    (48 + v) as char
}

/// A number in decimal digits, without leading zeros.
pub open spec fn decimal(n: nat) -> Seq<char>
    decreases n,
{
    if n < 10 {
        seq![digit(n)]
    } else {
        decimal(n / 10).push(digit(n % 10))
    }
}

/// A number as text: its decimal digits, behind a minus sign where it is
/// negative.
pub open spec fn decimal_signed(n: int) -> Seq<char> {
    if n < 0 {
        seq!['-'] + decimal((-n) as nat)
    } else {
        decimal(n as nat)
    }
}

/// The character of a decimal digit.
pub fn digit_char(v: u8) -> (c: char)
    requires
        v < 10,
    ensures
        c == digit(v as nat),
{
    (48 + v) as char
}

/// Appends the decimal digits of `n` to `text`.
pub fn push_decimal(text: &mut String, n: u64)
    ensures
        final(text)@ == old(text)@ + decimal(n as nat),
    decreases n,
{
    if n < 10 {
        push_char(text, digit_char(n as u8));
        proof {
            assert(old(text)@.push(digit(n as nat)) =~= old(text)@ + decimal(n as nat));
        }
    } else {
        push_decimal(text, n / 10);
        push_char(text, digit_char((n % 10) as u8));
        proof {
            assert((old(text)@ + decimal((n / 10) as nat)).push(digit((n % 10) as nat)) =~= old(
                text,
            )@ + decimal(n as nat));
        }
    }
}

/// The value of a decimal digit, if the character is one.
pub open spec fn digit_value(c: char) -> Option<nat> {
    if '0' <= c <= '9' {
        Some((c as nat - 48) as nat)
    } else {
        None
    }
}

/// Whether every character of the text is a decimal digit.
pub open spec fn all_digits(text: Seq<char>) -> bool {
    forall|i: int| 0 <= i < text.len() ==> digit_value(#[trigger] text[i]) is Some
}

/// The number that decimal digits stand for.
pub open spec fn digits_number(text: Seq<char>) -> nat
    decreases text.len(),
{
    if text.len() == 0 {
        0
    } else {
        10 * digits_number(text.drop_last()) + digit_value(text.last())->0
    }
}

/// The digits of a number text: the text without a plus sign in front.
pub open spec fn unsigned_part(text: Seq<char>) -> Seq<char> {
    if text.len() > 0 && text[0] == '+' {
        text.skip(1)
    } else {
        text
    }
}

/// The number that a text stands for: decimal digits, at least one,
/// behind a plus sign or none, that give a number of 64 bits.
pub open spec fn unsigned_number(text: Seq<char>) -> Option<u64> {
    let digits = unsigned_part(text);
    if digits.len() >= 1 && all_digits(digits) && digits_number(digits) <= u64::MAX {
        Some(digits_number(digits) as u64)
    } else {
        None
    }
}

/// The number of more digits is no smaller.
pub proof fn lemma_digits_number_grows(text: Seq<char>, n: int)
    requires
        0 <= n <= text.len(),
        all_digits(text),
    ensures
        digits_number(text.take(n)) <= digits_number(text),
    decreases text.len() - n,
{
    if n < text.len() {
        lemma_digits_number_grows(text, n + 1);
        assert(text.take(n + 1).drop_last() =~= text.take(n));
    } else {
        assert(text.take(n) =~= text);
    }
}

/// Reads a number of 64 bits from its decimal digits, with a plus sign in
/// front or none.
pub fn parse_u64(text: &str) -> (r: Option<u64>)
    ensures
        r == unsigned_number(text@),
{
    let n = text.unicode_len();
    let start: usize = if n > 0 && text.get_char(0) == '+' {
        1
    } else {
        0
    };
    let ghost digits = unsigned_part(text@);
    if start == n {
        return None;
    }
    let mut value: u64 = 0;
    let mut i: usize = start;
    proof {
        assert(digits.take(0) =~= Seq::empty());
    }
    while i < n
        invariant
            n == text@.len(),
            start <= i <= n,
            start <= 1,
            digits == unsigned_part(text@),
            digits == text@.skip(start as int),
            all_digits(digits.take(i - start)),
            value == digits_number(digits.take(i - start)),
        decreases n - i,
    {
        let c = text.get_char(i);
        if c < '0' || c > '9' {
            proof {
                assert(digits[i - start] == c);
            }
            return None;
        }
        let d = (c as u8 - 48) as u64;
        proof {
            let next = digits.take(i - start + 1);
            assert(next.drop_last() =~= digits.take(i - start));
            assert(next.last() == c);
            assert(all_digits(next)) by {
                assert forall|k: int| 0 <= k < next.len() implies digit_value(#[trigger] next[k])
                    is Some by {
                    if k < next.len() - 1 {
                        assert(digits.take(i - start)[k] == next[k]);
                    }
                }
            }
        }
        if value > (u64::MAX - d) / 10 {
            proof {
                assert(digits_number(digits.take(i - start + 1)) > u64::MAX);
                if all_digits(digits) {
                    lemma_digits_number_grows(digits, i - start + 1);
                }
            }
            return None;
        }
        value = value * 10 + d;
        i += 1;
    }
    proof {
        assert(digits.take(n - start) =~= digits);
    }
    Some(value)
}

} // verus!
