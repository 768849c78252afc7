//! Room indices in decimal notation.
//!
//! A delimited frame carries the room index as decimal digits. Writing gives
//! the shortest notation. Reading is as tolerant as integer parsing
//! commonly is: a plus sign may lead, and zeros may lead the digits.

use crate::color::is_digit;
use vstd::prelude::*;

verus! {

/// The byte `+`.
pub const PLUS: u8 = 43;

/// The decimal notation of `n`, without leading zeros.
pub open spec fn decimal(n: nat) -> Seq<u8>
    decreases n,
{
    if n < 10 {
        seq![(48 + n) as u8]
    } else {
        decimal(n / 10).push((48 + n % 10) as u8)
    }
}

/// Whether every byte of `text` is a digit.
pub open spec fn all_digits(text: Seq<u8>) -> bool {
    forall|i: int| 0 <= i < text.len() ==> is_digit(#[trigger] text[i])
}

/// The number that a run of digits spells, the most significant digit first.
pub open spec fn digits_value(digits: Seq<u8>) -> nat
    decreases digits.len(),
{
    if digits.len() == 0 {
        0
    } else {
        digits_value(digits.drop_last()) * 10 + (digits.last() - 48) as nat
    }
}

/// The digits of a number's notation: what follows the plus sign, where one
/// leads.
pub open spec fn unsigned_part(text: Seq<u8>) -> Seq<u8> {
    if text.len() > 0 && text[0] == PLUS {
        text.drop_first()
    } else {
        text
    }
}

/// The room index that `text` denotes: its digits spell a number that an
/// index can hold. Anything else denotes none.
pub open spec fn parse_index(text: Seq<u8>) -> Option<usize> {
    let digits = unsigned_part(text);
    if digits.len() > 0 && all_digits(digits) && digits_value(digits) <= usize::MAX {
        Some(digits_value(digits) as usize)
    } else {
        None
    }
}

/// A longer run of digits spells no smaller number than any of its prefixes.
pub proof fn lemma_prefix_value(digits: Seq<u8>, k: int)
    requires
        all_digits(digits),
        0 <= k <= digits.len(),
    ensures
        digits_value(digits.subrange(0, k)) <= digits_value(digits),
    decreases digits.len() - k,
{
    if k == digits.len() {
        assert(digits.subrange(0, k) == digits);
    } else {
        let longer = digits.subrange(0, k + 1);
        assert(longer.drop_last() == digits.subrange(0, k));
        assert(is_digit(digits[k]));
        assert(longer.last() == digits[k]);
        lemma_prefix_value(digits, k + 1);
    }
}

/// The notation of a number is made of digits alone, and spells that number.
pub proof fn lemma_decimal_value(n: nat)
    ensures
        decimal(n).len() >= 1,
        all_digits(decimal(n)),
        digits_value(decimal(n)) == n,
    decreases n,
{
    let text = decimal(n);
    if n < 10 {
        assert(text.drop_last() == Seq::<u8>::empty());
        assert(digits_value(text.drop_last()) == 0);
    } else {
        let front = decimal(n / 10);
        lemma_decimal_value(n / 10);
        assert(text.drop_last() == front);
        assert(text.last() == (48 + n % 10) as u8);
        assert forall|i: int| 0 <= i < text.len() implies is_digit(#[trigger] text[i]) by {
            if i < front.len() {
                assert(text[i] == front[i]);
            }
        }
    }
}

/// Reading the notation that was written for `n` gives `n` back.
pub proof fn lemma_decimal_parses(n: usize)
    ensures
        parse_index(decimal(n as nat)) == Some(n),
        all_digits(decimal(n as nat)),
        decimal(n as nat).len() >= 1,
{
    let text = decimal(n as nat);
    lemma_decimal_value(n as nat);
    assert(is_digit(text[0]));
    assert(unsigned_part(text) == text);
}

/// Appends the decimal notation of `n` to `out`.
pub fn append_decimal(out: &mut Vec<u8>, n: usize)
    ensures
        final(out)@ == old(out)@ + decimal(n as nat),
    decreases n,
{
    if n >= 10 {
        append_decimal(out, n / 10);
    }
    let digit: u8 = (n % 10) as u8;
    out.push(48 + digit);
    proof {
        if n >= 10 {
            assert(out@ =~= old(out)@ + decimal((n / 10) as nat).push((48 + n % 10) as u8));
        } else {
            assert(out@ =~= old(out)@ + decimal(n as nat));
        }
    }
}

/// Reads the room index that `text` denotes.
pub fn read_index(text: &[u8]) -> (r: Option<usize>)
    ensures
        r == parse_index(text@),
{
    let n: usize = text.len();
    let from: usize = if n > 0 && text[0] == PLUS {
        1
    } else {
        0
    };
    let ghost digits = unsigned_part(text@);
    assert(digits == text@.subrange(from as int, n as int));
    if from == n {
        return None;
    }
    let mut value: usize = 0;
    let mut i: usize = from;
    while i < n
        invariant
            n == text@.len(),
            from <= i <= n,
            digits == unsigned_part(text@),
            digits == text@.subrange(from as int, n as int),
            all_digits(digits.subrange(0, i - from)),
            value == digits_value(digits.subrange(0, i - from)),
        decreases n - i,
    {
        let b: u8 = text[i];
        assert(digits[i - from] == b);
        if b < 48 || b > 57 {
            assert(!is_digit(digits[i - from]));
            return None;
        }
        let ghost longer = digits.subrange(0, i - from + 1);
        assert(longer.drop_last() == digits.subrange(0, i - from));
        assert(longer.last() == b);
        assert forall|k: int| 0 <= k < longer.len() implies is_digit(#[trigger] longer[k]) by {
            if k < i - from {
                assert(longer[k] == digits.subrange(0, i - from)[k]);
            }
        }
        let digit: usize = (b - 48) as usize;
        assert(digits_value(longer) == value * 10 + digit);
        if value > (usize::MAX - digit) / 10 {
            proof {
                if all_digits(digits) {
                    lemma_prefix_value(digits, i - from + 1);
                }
            }
            return None;
        }
        value = value * 10 + digit;
        i += 1;
    }
    assert(digits.subrange(0, n - from) == digits);
    Some(value)
}

} // verus!
