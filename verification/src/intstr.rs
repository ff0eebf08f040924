//! Decimal integer literals: an optional ASCII sign followed by ASCII
//! digits, valued in arbitrary precision and narrowed with explicit range
//! checks.

use vstd::arithmetic::div_mod::*;
use vstd::prelude::*;

verus! {

pub open spec fn is_ascii_digit(c: char) -> bool {
    '0' <= c && c <= '9'
}

pub open spec fn digit_value(c: char) -> int {
    c as int - '0' as int
}

pub open spec fn all_digits(s: Seq<char>) -> bool {
    forall|i: int| 0 <= i < s.len() ==> is_ascii_digit(#[trigger] s[i])
}

/// Value of a digit string read most-significant first.
pub open spec fn digits_value(s: Seq<char>) -> int
    decreases s.len(),
{
    if s.len() == 0 {
        0
    } else {
        digits_value(s.drop_last()) * 10 + digit_value(s.last())
    }
}

/// A non-empty run of digits with at most one leading sign, the form the
/// decimal readers accept.
pub open spec fn is_int_literal(s: Seq<char>) -> bool {
    if s.len() == 0 {
        false
    } else if s[0] == '+' || s[0] == '-' {
        s.len() >= 2 && all_digits(s.subrange(1, s.len() as int))
    } else {
        all_digits(s)
    }
}

/// The signed value of an integer literal.
pub open spec fn int_literal_value(s: Seq<char>) -> int
    recommends
        is_int_literal(s),
{
    if s.len() > 0 && s[0] == '-' {
        -digits_value(s.subrange(1, s.len() as int))
    } else if s.len() > 0 && s[0] == '+' {
        digits_value(s.subrange(1, s.len() as int))
    } else {
        digits_value(s)
    }
}

proof fn lemma_digits_value_nonneg(s: Seq<char>)
    requires
        all_digits(s),
    ensures
        digits_value(s) >= 0,
    decreases s.len(),
{
    if s.len() > 0 {
        lemma_digits_value_nonneg(s.drop_last());
    }
}

/// A digit string is worth at least any of its prefixes.
proof fn lemma_digits_value_prefix(s: Seq<char>, i: int)
    requires
        all_digits(s),
        0 <= i <= s.len(),
    ensures
        digits_value(s.take(i)) <= digits_value(s),
    decreases s.len(),
{
    if i < s.len() {
        assert(s.drop_last().take(i) =~= s.take(i));
        lemma_digits_value_prefix(s.drop_last(), i);
        lemma_digits_value_nonneg(s.drop_last());
    } else {
        assert(s.take(i) =~= s);
    }
}

/// Reads `s` as a decimal integer, succeeding exactly on integer literals
/// whose value fits `i128`.
pub fn parse_i128(s: &str) -> (r: Option<i128>)
    ensures
        r is Some <==> is_int_literal(s@) && i128::MIN <= int_literal_value(s@) <= i128::MAX,
        r matches Some(v) ==> v == int_literal_value(s@),
{
    let len = s.unicode_len();
    if len == 0 {
        return None;
    }
    let first = s.get_char(0);
    let fv = first as u32;
    let neg: bool = fv == 45;
    let signed: bool = fv == 45 || fv == 43;
    proof {
        assert(neg == (s@[0] == '-'));
        assert(signed == (s@[0] == '+' || s@[0] == '-'));
    }
    let start: usize = if signed {
        1
    } else {
        0
    };
    if len == start {
        return None;
    }
    let ghost digs = s@.subrange(start as int, len as int);
    let cap: u128 = if neg {
        170_141_183_460_469_231_731_687_303_715_884_105_728
    } else {
        170_141_183_460_469_231_731_687_303_715_884_105_727
    };
    let mut acc: u128 = 0;
    let mut i: usize = start;
    while i < len
        invariant
            start <= i <= len,
            len == s@.len(),
            start == if signed {
                1int
            } else {
                0int
            },
            digs == s@.subrange(start as int, len as int),
            neg == (s@[0] == '-'),
            signed == (s@[0] == '+' || s@[0] == '-'),
            all_digits(digs.take(i - start)),
            acc == digits_value(digs.take(i - start)),
            acc <= cap,
            cap == if neg {
                0x8000_0000_0000_0000_0000_0000_0000_0000u128
            } else {
                0x7fff_ffff_ffff_ffff_ffff_ffff_ffff_ffffu128
            },
        decreases len - i,
    {
        let c = s.get_char(i);
        let cv = c as u32;
        if cv < 48 || cv > 57 {
            proof {
                assert(digs[i - start] == c);
                assert(!all_digits(digs));
                if !signed {
                    assert(s@.subrange(0, len as int) =~= s@);
                }
            }
            return None;
        }
        let d = (cv - 48) as u128;
        proof {
            assert(digs.take(i + 1 - start).drop_last() =~= digs.take(i - start));
            assert(digs.take(i + 1 - start).last() == c);
            assert(digit_value(c) == d);
            lemma_fundamental_div_mod(cap as int, 10);
            lemma_mod_division_less_than_divisor(cap as int, 10);
            lemma_div_pos_is_pos(cap as int, 10);
        }
        if acc > cap / 10 || (acc == cap / 10 && d > cap % 10) {
            proof {
                assert(digits_value(digs.take(i + 1 - start)) > cap);
                if !signed {
                    assert(s@.subrange(0, len as int) =~= s@);
                }
                if all_digits(digs) {
                    lemma_digits_value_prefix(digs, i + 1 - start);
                    lemma_digits_value_nonneg(digs);
                }
            }
            return None;
        }
        acc = acc * 10 + d;
        i = i + 1;
    }
    proof {
        assert(digs.take(len - start) =~= digs);
        if !signed {
            assert(s@.subrange(0, len as int) =~= s@);
        }
    }
    if neg {
        if acc == 170_141_183_460_469_231_731_687_303_715_884_105_728 {
            Some(i128::MIN)
        } else {
            Some(-(acc as i128))
        }
    } else {
        Some(acc as i128)
    }
}

} // verus!
