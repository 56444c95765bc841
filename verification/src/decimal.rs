//! Integers written in decimal, as the watermark file holds them.

use vstd::prelude::*;

verus! {

pub open spec fn is_digit(b: u8) -> bool {
    0x30 <= b <= 0x39
}

pub open spec fn all_digits(text: Seq<u8>) -> bool {
    forall|i: int| 0 <= i < text.len() ==> is_digit(#[trigger] text[i])
}

/// The number that a run of decimal digits denotes, the most significant
/// digit first. Leading zeros do not change it.
pub open spec fn digits_value(digits: Seq<u8>) -> nat
    decreases digits.len(),
{
    if digits.len() == 0 {
        0
    } else {
        (digits_value(digits.drop_last()) * 10 + (digits.last() - 0x30)) as nat
    }
}

/// The integer that `text` denotes: one or more decimal digits, with at
/// most one sign (`+` or `-`) in front of them. `None` for any other text.
pub open spec fn decimal_value(text: Seq<u8>) -> Option<int> {
    if text.len() > 0 && (text[0] == 0x2d || text[0] == 0x2b) {
        let digits = text.skip(1);
        if digits.len() > 0 && all_digits(digits) {
            if text[0] == 0x2d {
                Some(-(digits_value(digits) as int))
            } else {
                Some(digits_value(digits) as int)
            }
        } else {
            None
        }
    } else if text.len() > 0 && all_digits(text) {
        Some(digits_value(text) as int)
    } else {
        None
    }
}

/// The decimal digits of a natural number, without leading zeros.
pub open spec fn digits_of(n: nat) -> Seq<u8>
    decreases n,
{
    if n < 10 {
        seq![(0x30 + n) as u8]
    } else {
        digits_of(n / 10).push((0x30 + n % 10) as u8)
    }
}

/// An integer in decimal: its digits, after a `-` where it is negative.
pub open spec fn decimal_text(v: int) -> Seq<u8> {
    if v < 0 {
        seq![0x2du8] + digits_of((-v) as nat)
    } else {
        digits_of(v as nat)
    }
}

/// The value of `text` where it denotes an integer between `low` and `high`.
pub open spec fn decimal_within(text: Seq<u8>, low: int, high: int) -> Option<int> {
    match decimal_value(text) {
        Some(v) => if low <= v <= high {
            Some(v)
        } else {
            None
        },
        None => None,
    }
}

/// Reads a decimal integer that fits in 64 bits.
pub fn read_i64(text: &[u8]) -> (r: Option<i64>)
    ensures
        match r {
            Some(v) => decimal_within(text@, i64::MIN as int, i64::MAX as int) == Some(v as int),
            None => decimal_within(text@, i64::MIN as int, i64::MAX as int) is None,
        },
{
    let len = text.len();
    if len == 0 {
        return None;
    }
    let negative = text[0] == 0x2d;
    let start: usize = if negative || text[0] == 0x2b {
        1
    } else {
        0
    };
    if start == len {
        return None;
    }
    let ghost digits = text@.skip(start as int);
    let mut acc: i64 = 0;
    let mut i: usize = start;
    while i < len
        invariant
            start <= i <= len,
            start < len == text.len(),
            negative == (text@[0] == 0x2d),
            start == (if text@[0] == 0x2d || text@[0] == 0x2b { 1usize } else { 0usize }),
            digits == text@.skip(start as int),
            start == 0 ==> digits == text@,
            all_digits(digits.take(i - start)),
            negative ==> acc == -(digits_value(digits.take(i - start)) as int),
            !negative ==> acc == digits_value(digits.take(i - start)) as int,
        decreases len - i,
    {
        let b = text[i];
        if b < 0x30 || b > 0x39 {
            assert(!is_digit(digits[i - start]));
            return None;
        }
        let d: i64 = (b - 0x30) as i64;
        let ghost next = digits.take(i - start + 1);
        proof {
            assert(next.drop_last() =~= digits.take(i - start));
            assert(all_digits(next)) by {
                assert forall|j: int| 0 <= j < next.len() implies is_digit(#[trigger] next[j]) by {
                    if j < next.len() - 1 {
                        assert(next[j] == digits.take(i - start)[j]);
                    }
                }
            }
        }
        if negative {
            if acc < (i64::MIN + d) / 10 {
                proof {
                    if all_digits(digits) {
                        lemma_digits_value_grows(digits, i - start + 1);
                    }
                }
                return None;
            }
            acc = acc * 10 - d;
        } else {
            if acc > (i64::MAX - d) / 10 {
                proof {
                    if all_digits(digits) {
                        lemma_digits_value_grows(digits, i - start + 1);
                    }
                }
                return None;
            }
            acc = acc * 10 + d;
        }
        i += 1;
    }
    assert(digits.take(len - start) =~= digits);
    Some(acc)
}

/// Reads a decimal integer that fits in 32 bits.
pub fn read_i32(text: &[u8]) -> (r: Option<i32>)
    ensures
        match r {
            Some(v) => decimal_within(text@, i32::MIN as int, i32::MAX as int) == Some(v as int),
            None => decimal_within(text@, i32::MIN as int, i32::MAX as int) is None,
        },
{
    match read_i64(text) {
        Some(v) => if v < i32::MIN as i64 || v > i32::MAX as i64 {
            None
        } else {
            Some(v as i32)
        },
        None => None,
    }
}

/// Appends the decimal digits of `n` to `out`.
fn push_digits(n: u64, out: &mut Vec<u8>)
    ensures
        final(out)@ == old(out)@ + digits_of(n as nat),
    decreases n,
{
    if n >= 10 {
        push_digits(n / 10, out);
    }
    out.push(0x30 + (n % 10) as u8);
}

/// Writes an integer in decimal.
pub fn write_i64(v: i64) -> (text: Vec<u8>)
    ensures
        text@ == decimal_text(v as int),
{
    let mut text: Vec<u8> = Vec::new();
    if v < 0 {
        text.push(0x2d);
        let magnitude: u64 = (-(v + 1)) as u64 + 1;
        push_digits(magnitude, &mut text);
    } else {
        push_digits(v as u64, &mut text);
    }
    text
}

/// What a run of digits denotes does not shrink when digits follow it.
pub proof fn lemma_digits_value_grows(digits: Seq<u8>, k: int)
    requires
        all_digits(digits),
        0 <= k <= digits.len(),
    ensures
        digits_value(digits.take(k)) <= digits_value(digits),
    decreases digits.len(),
{
    if k == digits.len() {
        assert(digits.take(k) =~= digits);
    } else {
        lemma_digits_value_grows(digits.drop_last(), k);
        assert(digits.drop_last().take(k) =~= digits.take(k));
    }
}

/// The digits of a number are digits, at least one, and denote the number.
pub proof fn lemma_digits_of(n: nat)
    ensures
        digits_of(n).len() >= 1,
        all_digits(digits_of(n)),
        digits_value(digits_of(n)) == n,
    decreases n,
{
    if n < 10 {
        let d = digits_of(n);
        assert(digits_value(d.drop_last()) == 0);
    } else {
        lemma_digits_of(n / 10);
        let d = digits_of(n);
        assert(d.drop_last() =~= digits_of(n / 10));
    }
}

/// Reading an integer's decimal text gives the integer back.
pub proof fn lemma_decimal_round_trip(v: int)
    ensures
        decimal_value(decimal_text(v)) == Some(v),
{
    if v < 0 {
        let n = (-v) as nat;
        lemma_digits_of(n);
        let text = decimal_text(v);
        assert(text.skip(1) =~= digits_of(n));
    } else {
        lemma_digits_of(v as nat);
    }
}

} // verus!
