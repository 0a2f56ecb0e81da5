//! Decimal integers.

use vstd::prelude::*;

use crate::parser::grammar::{decimal_value, i64_of_str, is_digit, unsigned_part};

verus! {

/// A string of digits has a value of at least zero.
proof fn lemma_decimal_nonneg(s: Seq<char>)
    requires
        forall|k: int| 0 <= k < s.len() ==> is_digit(#[trigger] s[k]),
    ensures
        decimal_value(s) >= 0,
    decreases s.len(),
{
    if s.len() > 0 {
        lemma_decimal_nonneg(s.drop_last());
    }
}

/// A longer string of digits is worth at least as much as its prefix.
proof fn lemma_decimal_prefix(s: Seq<char>, k: int)
    requires
        0 <= k <= s.len(),
        forall|m: int| 0 <= m < s.len() ==> is_digit(#[trigger] s[m]),
    ensures
        decimal_value(s.take(k)) <= decimal_value(s),
    decreases s.len(),
{
    if k < s.len() {
        assert(s.drop_last().take(k) =~= s.take(k));
        lemma_decimal_prefix(s.drop_last(), k);
        lemma_decimal_nonneg(s.drop_last());
    } else {
        assert(s.take(k) =~= s);
    }
}

/// The integer spelled by `s`, as `str::parse::<i64>` reads it: an optional
/// sign, then decimal digits; `None` when that is not what `s` holds or the
/// value does not fit.
pub fn parse_i64(s: &str) -> (n: Option<i64>)
    ensures
        n == i64_of_str(s@),
{
    let mut chars: Vec<char> = Vec::new();
    for c in it: s.chars()
        invariant
            it.seq() == s@,
            chars@ == s@.take(it.index()),
    {
        let ghost i = it.index();
        chars.push(c);
        proof {
            assert(chars@ =~= s@.take(i + 1));
        }
    }
    proof {
        assert(chars@ =~= s@);
    }
    let ghost text = s@;
    let n = chars.len();
    let mut start: usize = 0;
    let mut neg = false;
    if n > 0 && (chars[0] == '-' || chars[0] == '+') {
        neg = chars[0] == '-';
        start = 1;
    }
    let ghost digits = unsigned_part(text);
    proof {
        assert(digits =~= text.skip(start as int));
    }
    if start == n {
        return None;
    }
    let limit: u128 = if neg {
        9223372036854775808u128
    } else {
        9223372036854775807u128
    };
    let mut mag: u128 = 0;
    let mut i: usize = start;
    while i < n
        invariant
            chars@ == text,
            text == s@,
            n == text.len(),
            digits == text.skip(start as int),
            digits == unsigned_part(text),
            start <= i <= n,
            start == 0 || start == 1,
            neg == (text.len() > 0 && text[0] == '-'),
            limit == if neg {
                9223372036854775808u128
            } else {
                9223372036854775807u128
            },
            forall|k: int| 0 <= k < i - start ==> is_digit(#[trigger] digits[k]),
            mag == decimal_value(digits.take(i - start)),
            mag <= limit,
        decreases n - i,
    {
        let c = chars[i];
        if !('0' <= c && c <= '9') {
            proof {
                assert(!is_digit(digits[i - start]));
                assert(!(forall|m: int| 0 <= m < digits.len() ==> is_digit(#[trigger] digits[m])));
                assert(i64_of_str(text) is None);
            }
            return None;
        }
        let d = (c as u32 - '0' as u32) as u128;
        let ghost k = i - start;
        proof {
            assert(digits.take(k + 1).drop_last() =~= digits.take(k));
            assert(digits[k] == c);
        }
        mag = mag * 10 + d;
        if mag > limit {
            proof {
                if forall|m: int| 0 <= m < digits.len() ==> is_digit(#[trigger] digits[m]) {
                    lemma_decimal_prefix(digits, k + 1);
                    assert(decimal_value(digits) > limit);
                }
                assert(i64_of_str(text) is None);
            }
            return None;
        }
        i = i + 1;
    }
    proof {
        assert(digits.take(n - start) =~= digits);
    }
    if neg {
        if mag == 9223372036854775808u128 {
            Some(i64::MIN)
        } else {
            Some(-(mag as i64))
        }
    } else {
        Some(mag as i64)
    }
}

} // verus!
