//! Verified parsing of integer and fraction lexemes into 64-bit values.
//!
//! The scanner guarantees only that a numeric lexeme is a well-shaped run of
//! characters, not that its value fits in 64 bits; parsing here is total and
//! reports a value exactly when the lexeme is well-shaped and in range.

use crate::scanner::spec_is_digit;
use crate::text::str_chars;
use vstd::prelude::*;

verus! {

/// Every character of `s` is a decimal digit.
pub open spec fn spec_all_digits(s: Seq<char>) -> bool {
    forall|i: int| 0 <= i < s.len() ==> spec_is_digit(s[i])
}

/// The numeric value of a digit character.
pub open spec fn spec_digit_val(c: char) -> int {
    c as int - 48
}

/// The value of a digit string read in base ten.
pub open spec fn spec_digits_val(s: Seq<char>) -> int
    decreases s.len(),
{
    if s.len() == 0 {
        0
    } else {
        spec_digits_val(s.drop_last()) * 10 + spec_digit_val(s.last())
    }
}

/// The shape of an integer lexeme: one or more digits, with at most one
/// leading minus sign.
pub open spec fn spec_int_lexeme_shape(s: Seq<char>) -> bool {
    if s.len() == 0 {
        false
    } else if s[0] == '-' {
        s.len() >= 2 && spec_all_digits(s.skip(1))
    } else {
        spec_all_digits(s)
    }
}

/// The signed value an integer lexeme denotes.
pub open spec fn spec_int_val(s: Seq<char>) -> int {
    if s.len() > 0 && s[0] == '-' {
        -spec_digits_val(s.skip(1))
    } else {
        spec_digits_val(s)
    }
}

/// What parsing an integer lexeme yields: its value exactly when the lexeme
/// is well-shaped and the value fits in a signed 64-bit integer.
pub open spec fn spec_parse_i64(s: Seq<char>) -> Option<i64> {
    if spec_int_lexeme_shape(s) && i64::MIN <= spec_int_val(s) <= i64::MAX {
        Some(spec_int_val(s) as i64)
    } else {
        None
    }
}

/// The first `/` at or after `i`, if any.
pub open spec fn spec_slash_from(s: Seq<char>, i: nat) -> Option<int>
    decreases s.len() - i,
{
    if i >= s.len() {
        None
    } else if s[i as int] == '/' {
        Some(i as int)
    } else {
        spec_slash_from(s, i + 1)
    }
}

/// What parsing a fraction lexeme yields: the lexeme split at its first `/`,
/// both halves parsed as integer lexemes.
pub open spec fn spec_parse_fraction(s: Seq<char>) -> Option<(i64, i64)> {
    match spec_slash_from(s, 0) {
        Option::None => None,
        Option::Some(k) => match (spec_parse_i64(s.take(k)), spec_parse_i64(
            s.skip(k + 1),
        )) {
            (Option::Some(n), Option::Some(d)) => Some((n, d)),
            _ => None,
        },
    }
}

proof fn lemma_digits_val_nonneg(s: Seq<char>)
    requires
        spec_all_digits(s),
    ensures
        spec_digits_val(s) >= 0,
    decreases s.len(),
{
    if s.len() > 0 {
        assert(spec_all_digits(s.drop_last()));
        lemma_digits_val_nonneg(s.drop_last());
    }
}

/// With every character a digit, the value of a prefix never exceeds the
/// value of the whole string.
proof fn lemma_digits_val_monotone(s: Seq<char>, i: int)
    requires
        spec_all_digits(s),
        0 <= i <= s.len(),
    ensures
        spec_digits_val(s.take(i)) <= spec_digits_val(s),
    decreases s.len() - i,
{
    if i == s.len() {
        assert(s.take(i) =~= s);
    } else {
        assert(s.take(i + 1).drop_last() =~= s.take(i));
        assert(s.take(i + 1).last() == s[i]);
        assert(spec_all_digits(s.take(i)));
        lemma_digits_val_nonneg(s.take(i));
        assert(spec_digits_val(s.take(i + 1)) == spec_digits_val(s.take(i)) * 10 + spec_digit_val(
            s[i],
        ));
        assert(spec_digits_val(s.take(i)) * 10 >= spec_digits_val(s.take(i))) by (nonlinear_arith)
            requires spec_digits_val(s.take(i)) >= 0;
        lemma_digits_val_monotone(s, i + 1);
    }
}

fn exec_is_digit(c: char) -> (r: bool)
    ensures
        r == spec_is_digit(c),
{
    '0' <= c && c <= '9'
}

/// Parses `chars[from..to]` as an integer lexeme.
fn parse_i64_range(chars: &Vec<char>, from: usize, to: usize) -> (r: Option<i64>)
    requires
        from <= to <= chars@.len(),
    ensures
        r == spec_parse_i64(chars@.subrange(from as int, to as int)),
{
    let ghost s = chars@.subrange(from as int, to as int);
    if from == to {
        return None;
    }
    let neg = chars[from] == '-';
    let sd: usize = if neg {
        from + 1
    } else {
        from
    };
    if sd == to {
        // a lone minus sign has no digits
        return None;
    }
    let ghost digits = chars@.subrange(sd as int, to as int);
    proof {
        if neg {
            assert(digits =~= s.skip(1));
            assert(s[0] == chars@[from as int]);
        } else {
            assert(digits =~= s);
        }
    }
    let limit: u64 = if neg {
        9223372036854775808u64
    } else {
        9223372036854775807u64
    };
    let mut acc: u64 = 0;
    let mut i = sd;
    while i < to
        invariant
            from <= sd <= i <= to <= chars@.len(),
            digits == chars@.subrange(sd as int, to as int),
            s == chars@.subrange(from as int, to as int),
            neg ==> s.len() >= 2 && s[0] == '-' && digits == s.skip(1),
            !neg ==> digits == s,
            s.len() >= 1,
            neg == (s[0] == '-'),
            limit == (if neg { 9223372036854775808u64 } else { 9223372036854775807u64 }),
            acc <= limit,
            spec_all_digits(digits.take(i - sd)),
            acc == spec_digits_val(digits.take(i - sd)),
            limit >= 9223372036854775807u64,
        decreases to - i,
    {
        let c = chars[i];
        let ghost pref = digits.take(i - sd);
        if !exec_is_digit(c) {
            proof {
                assert(digits[i - sd] == c);
                assert(!spec_all_digits(digits)) by {
                    assert(0 <= i - sd < digits.len() && !spec_is_digit(digits[i - sd]));
                }
                assert(!spec_int_lexeme_shape(s));
                assert(spec_parse_i64(s) is None);
            }
            return None;
        }
        proof {
            assert(digits.take(i + 1 - sd).drop_last() =~= pref);
            assert(digits.take(i + 1 - sd).last() == c);
            assert(spec_all_digits(digits.take(i + 1 - sd)));
        }
        let d = (c as u32 - 48) as u64;
        let overflowed: bool = if acc > limit / 10 {
            true
        } else {
            acc = acc * 10;
            if d > limit - acc {
                true
            } else {
                acc = acc + d;
                false
            }
        };
        if overflowed {
            proof {
                assert(spec_digits_val(digits.take(i + 1 - sd)) > limit);
                if spec_all_digits(digits) {
                    lemma_digits_val_monotone(digits, i + 1 - sd);
                    assert(spec_digits_val(digits) > limit);
                    if neg {
                        assert(spec_int_val(s) == -spec_digits_val(digits));
                        assert(spec_int_val(s) < i64::MIN);
                    } else {
                        assert(spec_int_val(s) == spec_digits_val(digits));
                        assert(spec_int_val(s) > i64::MAX);
                    }
                } else {
                    assert(!spec_int_lexeme_shape(s));
                }
                assert(spec_parse_i64(s) is None);
            }
            return None;
        }
        i = i + 1;
    }
    proof {
        assert(digits.take(to - sd) =~= digits);
        assert(spec_int_lexeme_shape(s));
        if neg {
            assert(spec_int_val(s) == -spec_digits_val(digits));
        } else {
            assert(spec_int_val(s) == spec_digits_val(digits));
        }
    }
    if neg {
        if acc == 9223372036854775808u64 {
            Some(i64::MIN)
        } else {
            Some(-(acc as i64))
        }
    } else {
        Some(acc as i64)
    }
}

/// Parses an integer lexeme such as `-42`.
pub fn parse_i64_lexeme(src: &str) -> (r: Option<i64>)
    ensures
        r == spec_parse_i64(src@),
{
    let v = str_chars(src);
    let r = parse_i64_range(&v, 0, v.len());
    proof {
        assert(v@.subrange(0, v@.len() as int) =~= src@);
    }
    r
}

/// Parses a fraction lexeme such as `-1/2` into numerator and denominator.
pub fn parse_fraction_lexeme(src: &str) -> (r: Option<(i64, i64)>)
    ensures
        r == spec_parse_fraction(src@),
{
    let v = str_chars(src);
    proof {
        assert(v@.subrange(0, v@.len() as int) =~= src@);
    }
    let mut i: usize = 0;
    while i < v.len()
        invariant
            i <= v@.len(),
            v@ == src@,
            spec_slash_from(src@, 0) == spec_slash_from(src@, i as nat),
        decreases v@.len() - i,
    {
        if v[i] == '/' {
            let n = parse_i64_range(&v, 0, i);
            let d = parse_i64_range(&v, i + 1, v.len());
            proof {
                assert(v@.subrange(0, i as int) =~= src@.take(i as int));
                assert(v@.subrange(i as int + 1, v@.len() as int) =~= src@.skip(i as int + 1));
            }
            match (n, d) {
                (Some(n), Some(d)) => {
                    return Some((n, d));
                },
                _ => {
                    return None;
                },
            }
        }
        i = i + 1;
        proof {
            assert(spec_slash_from(src@, (i - 1) as nat) == spec_slash_from(src@, i as nat));
        }
    }
    None
}

} // verus!
