//! Decimal integers as the kernel writes them.
use vstd::prelude::*;

verus! {

/// Whether `c` is one of the ten decimal digits `0` to `9`.
pub open spec fn is_digit(c: char) -> bool {
    0x30 <= c as u32 <= 0x39
}

/// The number that the digit `c` writes.
pub open spec fn digit_value(c: char) -> int {
    c as u32 - 0x30
}

/// Whether `s` holds nothing but decimal digits.
pub open spec fn all_digits(s: Seq<char>) -> bool {
    forall|k: int| 0 <= k < s.len() ==> is_digit(#[trigger] s[k])
}

/// The number that the decimal digits `s` write, most significant first.
pub open spec fn digits_value(s: Seq<char>) -> int
    decreases s.len(),
{
    if s.len() == 0 {
        0
    } else {
        10 * digits_value(s.drop_last()) + digit_value(s.last())
    }
}

/// The integer that `s` writes: one or more decimal digits, with `+` or `-`
/// before them or with no sign. `None` for every other text.
pub open spec fn decimal(s: Seq<char>) -> Option<int> {
    if s.len() > 0 && (s[0] == '-' || s[0] == '+') {
        let d = s.drop_first();
        if d.len() > 0 && all_digits(d) {
            Some(
                if s[0] == '-' {
                    -digits_value(d)
                } else {
                    digits_value(d)
                },
            )
        } else {
            None
        }
    } else if s.len() > 0 && all_digits(s) {
        Some(digits_value(s))
    } else {
        None
    }
}

/// `decimal(s)` where it lies from `lo` to `hi`, else `None`.
pub open spec fn decimal_within(s: Seq<char>, lo: int, hi: int) -> Option<int> {
    match decimal(s) {
        Some(v) => if lo <= v <= hi {
            Some(v)
        } else {
            None
        },
        None => None,
    }
}

/// More digits never write a smaller number.
pub proof fn lemma_digits_value_grows(s: Seq<char>, k: int)
    requires
        0 <= k <= s.len(),
        all_digits(s),
    ensures
        0 <= digits_value(s.take(k)) <= digits_value(s),
    decreases s.len() - k,
{
    if k == s.len() {
        assert(s.take(k) == s);
        lemma_digits_value_nonnegative(s);
    } else {
        lemma_digits_value_grows(s, k + 1);
        let t = s.take(k + 1);
        assert(t.drop_last() == s.take(k));
        assert(is_digit(s[k]));
        assert(t.last() == s[k]);
        assert(all_digits(s.take(k))) by {
            assert forall|j: int| 0 <= j < s.take(k).len() implies is_digit(
                #[trigger] s.take(k)[j],
            ) by {
                assert(is_digit(s[j]));
            }
        }
        lemma_digits_value_nonnegative(s.take(k));
    }
}

/// Digits write no negative number.
pub proof fn lemma_digits_value_nonnegative(s: Seq<char>)
    requires
        all_digits(s),
    ensures
        0 <= digits_value(s),
    decreases s.len(),
{
    if s.len() > 0 {
        assert(is_digit(s.last()));
        assert(all_digits(s.drop_last())) by {
            assert forall|j: int| 0 <= j < s.drop_last().len() implies is_digit(
                #[trigger] s.drop_last()[j],
            ) by {
                assert(is_digit(s[j]));
            }
        }
        lemma_digits_value_nonnegative(s.drop_last());
    }
}

/// Reads a decimal integer that fits in 128 bits: `None` for a text that is
/// no decimal integer, and for one that writes a number beyond 128 bits.
#[verifier::loop_isolation(false)]
pub fn parse_i128(chars: &[char]) -> (r: Option<i128>)
    ensures
        match decimal_within(chars@, i128::MIN as int, i128::MAX as int) {
            Some(v) => r == Some(v as i128),
            None => r is None,
        },
{
    let n = chars.len();
    if n == 0 {
        return None;
    }
    let negative = chars[0] == '-';
    let start: usize = if negative || chars[0] == '+' {
        1
    } else {
        0
    };
    if start == n {
        return None;
    }
    let limit: u128 = if negative {
        0x8000_0000_0000_0000_0000_0000_0000_0000
    } else {
        0x7fff_ffff_ffff_ffff_ffff_ffff_ffff_ffff
    };
    let ghost d = chars@.skip(start as int);
    assert(start == 1 ==> d == chars@.drop_first());
    assert(start == 0 ==> d == chars@);
    let mut acc: u128 = 0;
    let mut i: usize = start;
    assert(d.take(0).len() == 0);
    while i < n
        invariant
            start <= i <= n,
            all_digits(d.take(i - start)),
            acc == digits_value(d.take(i - start)),
            acc <= limit,
        decreases n - i,
    {
        let c = chars[i];
        let u: u32 = c as u32;
        assert(d[i - start] == c);
        if u < 0x30 || u > 0x39 {
            return None;
        }
        let digit: u128 = (u - 0x30) as u128;
        let ghost next = d.take(i - start + 1);
        assert(next.drop_last() == d.take(i - start));
        assert(next.last() == c);
        assert(all_digits(next)) by {
            assert forall|j: int| 0 <= j < next.len() implies is_digit(#[trigger] next[j]) by {
                if j < i - start {
                    assert(next[j] == d.take(i - start)[j]);
                }
            }
        }
        if acc > (limit - digit) / 10 {
            proof {
                if all_digits(d) {
                    lemma_digits_value_grows(d, i - start + 1);
                }
            }
            return None;
        }
        acc = acc * 10 + digit;
        i += 1;
    }
    assert(d.take(i - start) == d);
    if negative {
        if acc == 0x8000_0000_0000_0000_0000_0000_0000_0000 {
            Some(i128::MIN)
        } else {
            Some(-(acc as i128))
        }
    } else {
        Some(acc as i128)
    }
}

/// Reads a decimal integer that fits in 64 bits: `None` for a text that is
/// no decimal integer, and for one that writes a number beyond 64 bits.
pub fn parse_i64(chars: &[char]) -> (r: Option<i64>)
    ensures
        match decimal_within(chars@, i64::MIN as int, i64::MAX as int) {
            Some(v) => r == Some(v as i64),
            None => r is None,
        },
{
    match parse_i128(chars) {
        Some(v) => if -0x8000_0000_0000_0000 <= v && v <= 0x7fff_ffff_ffff_ffff {
            Some(v as i64)
        } else {
            None
        },
        None => None,
    }
}

/// The character that writes the decimal digit `d`.
pub open spec fn digit_char(d: int) -> char {
    (0x30 + d) as char
}

/// The decimal digits of `n`, most significant first: no zero stands in
/// front, and zero is one `0`.
pub open spec fn digits_of(n: nat) -> Seq<char>
    decreases n,
{
    if n < 10 {
        seq![digit_char(n as int)]
    } else {
        digits_of(n / 10).push(digit_char((n % 10) as int))
    }
}

/// The text that writes `v` in decimal, with `-` before a negative number
/// and no sign before any other.
pub open spec fn decimal_text(v: int) -> Seq<char> {
    if v < 0 {
        seq!['-'] + digits_of((-v) as nat)
    } else {
        digits_of(v as nat)
    }
}

/// The digits of a number are digits, and write that number.
pub proof fn lemma_digits_of(n: nat)
    ensures
        digits_of(n).len() > 0,
        all_digits(digits_of(n)),
        digits_value(digits_of(n)) == n,
    decreases n,
{
    if n < 10 {
        let s = digits_of(n);
        assert(s.drop_last().len() == 0);
        assert(digits_value(s.drop_last()) == 0);
    } else {
        let init = digits_of(n / 10);
        lemma_digits_of(n / 10);
        let s = digits_of(n);
        assert(s.drop_last() == init);
        assert(s.last() == digit_char((n % 10) as int));
        assert forall|k: int| 0 <= k < s.len() implies is_digit(#[trigger] s[k]) by {
            if k < init.len() {
                assert(s[k] == init[k]);
            }
        }
    }
}

/// What is written can be read: the text of a number is a decimal integer,
/// and the number is its value.
pub proof fn lemma_decimal_round_trip(v: int)
    ensures
        decimal(decimal_text(v)) == Some(v),
{
    if v < 0 {
        let d = digits_of((-v) as nat);
        lemma_digits_of((-v) as nat);
        assert(decimal_text(v).drop_first() == d);
    } else {
        let d = digits_of(v as nat);
        lemma_digits_of(v as nat);
        assert(is_digit(d[0]));
    }
}

/// The text of a number is not empty, holds nothing but digits behind a
/// possible `-`, and ends in a digit.
pub proof fn lemma_decimal_text_chars(v: int)
    ensures
        decimal_text(v).len() > 0,
        is_digit(decimal_text(v).last()),
        forall|k: int|
            0 <= k < decimal_text(v).len() ==> {
                let c = #[trigger] decimal_text(v)[k];
                is_digit(c) || c == '-'
            },
{
    if v < 0 {
        let d = digits_of((-v) as nat);
        lemma_digits_of((-v) as nat);
        let t = decimal_text(v);
        assert(t.last() == d.last());
        assert forall|k: int| 0 <= k < t.len() implies {
            let c = #[trigger] t[k];
            is_digit(c) || c == '-'
        } by {
            if k > 0 {
                assert(t[k] == d[k - 1]);
            }
        }
    } else {
        lemma_digits_of(v as nat);
    }
}

/// Appends the decimal digits of `n` to `s`.
fn push_digits(s: &mut String, n: u64)
    ensures
        final(s)@ == old(s)@ + digits_of(n as nat),
    decreases n,
{
    if n >= 10 {
        push_digits(s, n / 10);
    }
    let digit: u8 = (n % 10) as u8;
    let c: char = (0x30u8 + digit) as char;
    assert(c == digit_char((n % 10) as int));
    s.push(c);
    assert(s@ == old(s)@ + digits_of(n as nat)) by {
        if n >= 10 {
            assert(s@ == (old(s)@ + digits_of((n / 10) as nat)).push(c));
        } else {
            assert(s@ == old(s)@.push(c));
        }
    }
}

/// Appends `v`, written in decimal, to `s`.
pub fn push_decimal(s: &mut String, v: i64)
    ensures
        final(s)@ == old(s)@ + decimal_text(v as int),
{
    if v < 0 {
        s.push('-');
        let magnitude: u64 = (-(v as i128)) as u64;
        push_digits(s, magnitude);
        assert(s@ == old(s)@ + (seq!['-'] + digits_of((-v) as nat)));
    } else {
        push_digits(s, v as u64);
    }
}

} // verus!
