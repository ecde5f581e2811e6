//! Decimal integers as the pages write them: an optional sign and a run of
//! digits.

use vstd::prelude::*;
use vstd::string::*;
use crate::text::chars_of;

verus! {

/// Whether `c` is one of the ten ASCII digits.
pub open spec fn is_digit(c: char) -> bool {
    '0' <= c && c <= '9'
}

/// The number that a digit stands for.
pub open spec fn digit_value(c: char) -> int {
    c as int - '0' as int
}

/// Whether every character of `s` is a digit.
pub open spec fn all_digits(s: Seq<char>) -> bool {
    forall|i: int| 0 <= i < s.len() ==> is_digit(#[trigger] s[i])
}

/// The number that a run of digits writes, most significant digit first.
pub open spec fn digits_value(s: Seq<char>) -> int
    decreases s.len(),
{
    if s.len() == 0 {
        0
    } else {
        10 * digits_value(s.drop_last()) + digit_value(s.last())
    }
}

/// The integer that `s` writes: an optional `+` or `-`, then at least one
/// digit and nothing else. Any other text writes no integer.
pub open spec fn integer_value(s: Seq<char>) -> Option<int> {
    if s.len() > 0 && (s[0] == '-' || s[0] == '+') {
        let digits = s.drop_first();
        if digits.len() > 0 && all_digits(digits) {
            if s[0] == '-' {
                Some(-digits_value(digits))
            } else {
                Some(digits_value(digits))
            }
        } else {
            None
        }
    } else if s.len() > 0 && all_digits(s) {
        Some(digits_value(s))
    } else {
        None
    }
}

/// The 32-bit integer that `s` writes, if it writes one that fits.
pub open spec fn parsed_i32(s: Seq<char>) -> Option<i32> {
    match integer_value(s) {
        Some(v) => if i32::MIN <= v <= i32::MAX {
            Some(v as i32)
        } else {
            None
        },
        None => None,
    }
}

/// A run of digits writes a number that is not negative and not smaller
/// than what any of its prefixes writes.
pub proof fn lemma_digits_value_grows(s: Seq<char>, k: int)
    requires
        all_digits(s),
        0 <= k <= s.len(),
    ensures
        0 <= digits_value(s.take(k)) <= digits_value(s),
    decreases s.len() - k,
{
    if k == s.len() {
        assert(s.take(k) =~= s);
        lemma_digits_value_nonnegative(s);
    } else {
        lemma_digits_value_grows(s, k + 1);
        let longer = s.take(k + 1);
        assert(longer.drop_last() =~= s.take(k));
        assert(is_digit(s[k]));
        assert(longer.last() == s[k]);
        assert(all_digits(s.take(k))) by {
            assert forall|i: int| 0 <= i < s.take(k).len() implies is_digit(
                #[trigger] s.take(k)[i],
            ) by {
                assert(s.take(k)[i] == s[i]);
            }
        }
        lemma_digits_value_nonnegative(s.take(k));
    }
}

/// A run of digits writes a number that is not negative.
pub proof fn lemma_digits_value_nonnegative(s: Seq<char>)
    requires
        all_digits(s),
    ensures
        0 <= digits_value(s),
    decreases s.len(),
{
    if s.len() > 0 {
        let shorter = s.drop_last();
        assert forall|i: int| 0 <= i < shorter.len() implies is_digit(#[trigger] shorter[i]) by {
            assert(shorter[i] == s[i]);
        }
        lemma_digits_value_nonnegative(shorter);
        assert(is_digit(s[s.len() - 1]));
    }
}

/// The 32-bit integer that a run of digits writes under the given sign, if
/// the run is not empty and the integer fits.
pub open spec fn signed_digits(negative: bool, digits: Seq<char>) -> Option<i32> {
    if digits.len() > 0 && all_digits(digits) {
        let v = if negative {
            -digits_value(digits)
        } else {
            digits_value(digits)
        };
        if i32::MIN <= v <= i32::MAX {
            Some(v as i32)
        } else {
            None
        }
    } else {
        None
    }
}

/// Reads the run of digits that `chars` holds from `start` up to `end`.
fn parse_digits(chars: &[char], start: usize, end: usize, negative: bool) -> (number: Option<i32>)
    requires
        start <= end <= chars@.len(),
    ensures
        number == signed_digits(negative, chars@.subrange(start as int, end as int)),
{
    let ghost digits = chars@.subrange(start as int, end as int);
    if start == end {
        return None;
    }
    let mut magnitude: i64 = 0;
    let mut i: usize = start;
    while i < end
        invariant
            start <= i <= end <= chars@.len(),
            digits == chars@.subrange(start as int, end as int),
            all_digits(digits.take(i - start)),
            magnitude == digits_value(digits.take(i - start)),
            0 <= magnitude <= 0x8000_0000,
        decreases end - i,
    {
        let c: char = chars[i];
        proof {
            assert(digits[i - start] == c);
        }
        if !('0' <= c && c <= '9') {
            return None;
        }
        let d: i64 = (c as u32 - '0' as u32) as i64;
        let ghost grown = digits.take(i - start + 1);
        proof {
            assert(grown.drop_last() =~= digits.take(i - start));
            assert(grown.last() == c);
            assert forall|j: int| 0 <= j < grown.len() implies is_digit(#[trigger] grown[j]) by {
                if j < i - start {
                    assert(grown[j] == digits.take(i - start)[j]);
                }
            }
        }
        magnitude = magnitude * 10 + d;
        if magnitude > 0x8000_0000 {
            proof {
                if all_digits(digits) {
                    lemma_digits_value_grows(digits, i - start + 1);
                }
            }
            return None;
        }
        i += 1;
    }
    proof {
        assert(digits.take(i - start) =~= digits);
    }
    if negative {
        Some((-magnitude) as i32)
    } else if magnitude > 0x7fff_ffff {
        None
    } else {
        Some(magnitude as i32)
    }
}

/// Reads the 32-bit integer that the first `end` characters of `chars`
/// write.
pub fn parse_prefix_i32(chars: &[char], end: usize) -> (number: Option<i32>)
    requires
        end <= chars@.len(),
    ensures
        number == parsed_i32(chars@.take(end as int)),
{
    let ghost s = chars@.take(end as int);
    if end == 0 {
        return None;
    }
    let negative: bool = chars[0] == '-';
    let signed: bool = negative || chars[0] == '+';
    let start: usize = if signed { 1 } else { 0 };
    proof {
        assert(s[0] == chars@[0]);
        if signed {
            assert(s.drop_first() =~= chars@.subrange(start as int, end as int));
        } else {
            assert(s =~= chars@.subrange(start as int, end as int));
        }
    }
    parse_digits(chars, start, end, negative)
}

/// Reads the 32-bit integer that `s` writes.
pub fn parse_i32(s: &str) -> (number: Option<i32>)
    ensures
        number == parsed_i32(s@),
{
    let chars = chars_of(s);
    proof {
        assert(chars@.take(chars@.len() as int) =~= chars@);
    }
    parse_prefix_i32(chars.as_slice(), chars.len())
}

/// The digit that writes `d`, for `d` from 0 to 9.
pub open spec fn digit_char(d: int) -> char {
    if d == 0 {
        '0'
    } else if d == 1 {
        '1'
    } else if d == 2 {
        '2'
    } else if d == 3 {
        '3'
    } else if d == 4 {
        '4'
    } else if d == 5 {
        '5'
    } else if d == 6 {
        '6'
    } else if d == 7 {
        '7'
    } else if d == 8 {
        '8'
    } else {
        '9'
    }
}

/// The digits that write `n`, without leading zeros; zero is written `0`.
pub open spec fn digits_of(n: nat) -> Seq<char>
    decreases n,
{
    if n < 10 {
        seq![digit_char(n as int)]
    } else {
        digits_of(n / 10).push(digit_char((n % 10) as int))
    }
}

/// The decimal form of `v`: its digits, after a `-` if it is negative.
pub open spec fn decimal(v: int) -> Seq<char> {
    if v < 0 {
        seq!['-'] + digits_of((-v) as nat)
    } else {
        digits_of(v as nat)
    }
}

/// The one-character text of a digit.
fn digit_str(d: u8) -> (text: &'static str)
    requires
        d < 10,
    ensures
        text@ == seq![digit_char(d as int)],
{
    proof {
        reveal_strlit("0");
        reveal_strlit("1");
        reveal_strlit("2");
        reveal_strlit("3");
        reveal_strlit("4");
        reveal_strlit("5");
        reveal_strlit("6");
        reveal_strlit("7");
        reveal_strlit("8");
        reveal_strlit("9");
    }
    let text = if d == 0 {
        "0"
    } else if d == 1 {
        "1"
    } else if d == 2 {
        "2"
    } else if d == 3 {
        "3"
    } else if d == 4 {
        "4"
    } else if d == 5 {
        "5"
    } else if d == 6 {
        "6"
    } else if d == 7 {
        "7"
    } else if d == 8 {
        "8"
    } else {
        "9"
    };
    proof {
        assert(text@ =~= seq![digit_char(d as int)]);
    }
    text
}

/// Writes `v` in decimal.
pub fn decimal_string(v: i32) -> (text: String)
    ensures
        text@ == decimal(v as int),
{
    let negative: bool = v < 0;
    let whole: i64 = if negative { -(v as i64) } else { v as i64 };
    let mut rest: i64 = whole / 10;
    let mut text: String = String::from_str(digit_str((whole % 10) as u8));
    while rest > 0
        invariant
            0 <= rest <= whole,
            digits_of(whole as nat) == if rest == 0 {
                text@
            } else {
                digits_of(rest as nat) + text@
            },
        decreases rest,
    {
        let digit = digit_str((rest % 10) as u8);
        proof {
            let grown = digit@ + text@;
            if rest >= 10 {
                assert(digits_of(rest as nat) + text@ =~= digits_of((rest / 10) as nat) + grown);
            } else {
                assert(digits_of(rest as nat) + text@ =~= grown);
            }
        }
        text = String::from_str(digit).concat(text.as_str());
        rest = rest / 10;
    }
    if negative {
        proof {
            reveal_strlit("-");
            assert("-"@ =~= seq!['-']);
        }
        String::from_str("-").concat(text.as_str())
    } else {
        text
    }
}

/// The digits that write a number are digits, at least one of them, and
/// they write that number.
pub proof fn lemma_digits_of(n: nat)
    ensures
        digits_of(n).len() > 0,
        all_digits(digits_of(n)),
        digits_value(digits_of(n)) == n,
    decreases n,
{
    if n < 10 {
        let one = seq![digit_char(n as int)];
        assert(one.drop_last() =~= Seq::<char>::empty());
        assert(digits_value(one.drop_last()) == 0);
        assert(digit_value(one.last()) == n);
    } else {
        lemma_digits_of(n / 10);
        let front = digits_of(n / 10);
        let all = front.push(digit_char((n % 10) as int));
        assert(all.drop_last() =~= front);
        assert(digit_value(all.last()) == n % 10);
        assert forall|i: int| 0 <= i < all.len() implies is_digit(#[trigger] all[i]) by {
            if i < front.len() {
                assert(all[i] == front[i]);
            }
        }
    }
}

/// What `decimal_string` writes, `parse_i32` reads back: the decimal form of
/// a 32-bit integer writes that integer.
pub proof fn lemma_decimal_reads_back(v: i32)
    ensures
        parsed_i32(decimal(v as int)) == Some(v),
{
    if v < 0 {
        let digits = digits_of((-v) as nat);
        lemma_digits_of((-v) as nat);
        let text = seq!['-'] + digits;
        assert(text[0] == '-');
        assert(text.drop_first() =~= digits);
    } else {
        let digits = digits_of(v as nat);
        lemma_digits_of(v as nat);
        assert(is_digit(digits[0]));
    }
}

} // verus!
