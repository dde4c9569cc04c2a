//! Decimal numerals: their value, how they are read and how they are written.

use vstd::prelude::*;

verus! {

/// Whether `c` is one of the ASCII digits `0` to `9`.
pub open spec fn is_digit(c: char) -> bool {
    '0' <= c <= '9'
}

/// The value of the ASCII digit `c`.
pub open spec fn digit_value(c: char) -> nat
    recommends
        is_digit(c),
{
    (c as u32 - '0' as u32) as nat
}

/// Whether every character of `s` is an ASCII digit.
pub open spec fn all_digits(s: Seq<char>) -> bool {
    forall|i: int| 0 <= i < s.len() ==> is_digit(#[trigger] s[i])
}

/// The number that the digits `s` denote in base ten, most significant first.
pub open spec fn decimal_value(s: Seq<char>) -> nat
    decreases s.len(),
{
    if s.len() == 0 {
        0
    } else {
        10 * decimal_value(s.drop_last()) + digit_value(s.last())
    }
}

/// The ASCII digit that stands for `d`.
pub open spec fn digit_char(d: nat) -> char
    recommends
        d < 10,
{
    (d + '0' as u32) as char
}

/// The shortest decimal numeral of `n`: no leading zero, but `0` itself.
pub open spec fn decimal_digits(n: nat) -> Seq<char>
    decreases n,
{
    if n < 10 {
        seq![digit_char(n)]
    } else {
        decimal_digits(n / 10).push(digit_char(n % 10))
    }
}

/// What a numeral with an optional sign denotes: `+` or `-`, then at least one
/// digit. Anything else denotes nothing.
pub open spec fn signed_decimal(s: Seq<char>) -> Option<int> {
    if s.len() > 0 && (s[0] == '-' || s[0] == '+') {
        let digits = s.skip(1);
        if digits.len() > 0 && all_digits(digits) {
            if s[0] == '-' {
                Some(-(decimal_value(digits) as int))
            } else {
                Some(decimal_value(digits) as int)
            }
        } else {
            None
        }
    } else if s.len() > 0 && all_digits(s) {
        Some(decimal_value(s) as int)
    } else {
        None
    }
}

/// A numeral is worth at least as much as any of its prefixes.
pub proof fn lemma_prefix_value(s: Seq<char>, k: int)
    requires
        0 <= k <= s.len(),
    ensures
        decimal_value(s.take(k)) <= decimal_value(s),
    decreases s.len(),
{
    if k == s.len() {
        assert(s.take(k) =~= s);
    } else {
        assert(s.drop_last().take(k) =~= s.take(k));
        lemma_prefix_value(s.drop_last(), k);
    }
}

/// Writing a number and reading the numeral back gives the number.
pub proof fn lemma_digits_round_trip(n: nat)
    ensures
        decimal_digits(n).len() > 0,
        all_digits(decimal_digits(n)),
        decimal_value(decimal_digits(n)) == n,
    decreases n,
{
    if n < 10 {
        let s = decimal_digits(n);
        assert(decimal_value(s.drop_last()) == 0);
    } else {
        lemma_digits_round_trip(n / 10);
        let s = decimal_digits(n);
        assert(s.drop_last() =~= decimal_digits(n / 10));
    }
}

/// Reads `chars[from..to]` as an unsigned decimal numeral.
pub(crate) fn parse_u32(chars: &Vec<char>, from: usize, to: usize) -> (r: Option<u32>)
    requires
        from <= to <= chars.len(),
    ensures
        r == (if from < to && all_digits(chars@.subrange(from as int, to as int))
            && decimal_value(chars@.subrange(from as int, to as int)) <= u32::MAX {
            Some(decimal_value(chars@.subrange(from as int, to as int)) as u32)
        } else {
            None
        }),
{
    let ghost s = chars@.subrange(from as int, to as int);
    if from == to {
        return None;
    }
    let mut acc: u64 = 0;
    let mut i: usize = from;
    while i < to
        invariant
            from <= i <= to <= chars.len(),
            s == chars@.subrange(from as int, to as int),
            all_digits(s.take(i - from)),
            acc == decimal_value(s.take(i - from)),
            acc <= u32::MAX,
        decreases to - i,
    {
        let c = chars[i];
        assert(s[i - from] == c);
        if !(c >= '0' && c <= '9') {
            return None;
        }
        let d: u64 = (c as u32 - '0' as u32) as u64;
        let next: u64 = acc * 10 + d;
        proof {
            let t = s.take(i - from + 1);
            assert(t.drop_last() =~= s.take(i - from));
            assert forall|j: int| 0 <= j < t.len() implies is_digit(#[trigger] t[j]) by {}
        }
        if next > u32::MAX as u64 {
            proof {
                lemma_prefix_value(s, i - from + 1);
            }
            return None;
        }
        acc = next;
        i += 1;
    }
    assert(s.take(to - from) =~= s);
    Some(acc as u32)
}

/// Reads `chars` as a decimal numeral with an optional sign.
pub fn parse_i64(chars: &Vec<char>) -> (r: Option<i64>)
    ensures
        r == (match signed_decimal(chars@) {
            Some(v) => if i64::MIN <= v <= i64::MAX {
                Some(v as i64)
            } else {
                None
            },
            None => None,
        }),
{
    let n = chars.len();
    if n == 0 {
        return None;
    }
    let negative = chars[0] == '-';
    let from: usize = if negative || chars[0] == '+' {
        1
    } else {
        0
    };
    let ghost s = chars@.subrange(from as int, n as int);
    if from == n {
        return None;
    }
    let limit: u128 = if negative {
        9223372036854775808
    } else {
        9223372036854775807
    };
    let mut acc: u128 = 0;
    let mut i: usize = from;
    while i < n
        invariant
            from <= i <= n == chars.len(),
            from < n,
            from == 1 ==> s == chars@.skip(1) && (chars@[0] == '-' || chars@[0] == '+'),
            from == 0 ==> s == chars@ && chars@[0] != '-' && chars@[0] != '+',
            from <= 1,
            negative == (chars@[0] == '-'),
            limit == (if negative { 9223372036854775808u128 } else { 9223372036854775807u128 }),
            all_digits(s.take(i - from)),
            acc == decimal_value(s.take(i - from)),
            acc <= limit,
        decreases n - i,
    {
        let c = chars[i];
        assert(s[i - from] == c);
        if !(c >= '0' && c <= '9') {
            return None;
        }
        let d: u128 = (c as u32 - '0' as u32) as u128;
        let next: u128 = acc * 10 + d;
        proof {
            let t = s.take(i - from + 1);
            assert(t.drop_last() =~= s.take(i - from));
            assert forall|j: int| 0 <= j < t.len() implies is_digit(#[trigger] t[j]) by {}
        }
        if next > limit {
            proof {
                lemma_prefix_value(s, i - from + 1);
            }
            return None;
        }
        acc = next;
        i += 1;
    }
    assert(s.take(n - from) =~= s);
    if negative {
        if acc == 9223372036854775808 {
            Some(i64::MIN)
        } else {
            Some(-(acc as i64))
        }
    } else {
        Some(acc as i64)
    }
}

/// Appends the shortest decimal numeral of `n` to `out`.
pub fn push_decimal(out: &mut String, n: u32)
    ensures
        final(out)@ == old(out)@ + decimal_digits(n as nat),
    decreases n,
{
    if n >= 10 {
        push_decimal(out, n / 10);
    }
    let d: u32 = n % 10;
    let c: char = (d as u8 + 48u8) as char;
    out.push(c);
}

} // verus!
