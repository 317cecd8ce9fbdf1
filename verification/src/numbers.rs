//! Decimal text of integers: what `to_string` gives and what `str::parse`
//! accepts.

use crate::text::{ascii_digit, is_ascii_digit};
use vstd::prelude::*;

verus! {

/// The ASCII digit of `d` (below ten).
pub open spec fn digit_char(d: nat) -> char {
    if d == 0 {
        '0'
    } else if d == 1 {
        '1'
    } else if d == 2 {
        '2'
    } else if d == 3 {
        '3'
    } else if d == 4 {
        '4'
    } else if d == 5 {
        '5'
    } else if d == 6 {
        '6'
    } else if d == 7 {
        '7'
    } else if d == 8 {
        '8'
    } else {
        '9'
    }
}

pub fn digit_char_exec(d: u32) -> (r: char)
    requires
        d < 10,
    ensures
        r == digit_char(d as nat),
{
    if d == 0 {
        '0'
    } else if d == 1 {
        '1'
    } else if d == 2 {
        '2'
    } else if d == 3 {
        '3'
    } else if d == 4 {
        '4'
    } else if d == 5 {
        '5'
    } else if d == 6 {
        '6'
    } else if d == 7 {
        '7'
    } else if d == 8 {
        '8'
    } else {
        '9'
    }
}


/// The value of an ASCII digit.
pub open spec fn digit_value(c: char) -> nat {
    ((c as u32) - ('0' as u32)) as nat
}

/// Every char of `s` is an ASCII digit.
pub open spec fn all_digits(s: Seq<char>) -> bool {
    forall|i: int| 0 <= i < s.len() ==> is_ascii_digit(#[trigger] s[i])
}

/// The value of a string of ASCII digits, read in base ten.
pub open spec fn digits_value(s: Seq<char>) -> nat
    decreases s.len(),
{
    if s.len() == 0 {
        0
    } else {
        digits_value(s.drop_last()) * 10 + digit_value(s.last())
    }
}

/// What unsigned `from_str` accepts: an optional `+`, then one or more ASCII
/// digits; the value they spell.
pub open spec fn parse_unsigned(s: Seq<char>) -> Option<nat> {
    let d = if s.len() > 0 && s[0] == '+' {
        s.drop_first()
    } else {
        s
    };
    if d.len() > 0 && all_digits(d) {
        Some(digits_value(d))
    } else {
        None
    }
}

/// What `str::parse::<usize>` returns.
pub open spec fn parse_usize(s: Seq<char>) -> Option<usize> {
    match parse_unsigned(s) {
        Some(v) => if v <= usize::MAX {
            Some(v as usize)
        } else {
            None
        },
        None => None,
    }
}

/// What `str::parse::<i32>` returns: an optional `+` or `-`, then one or more
/// ASCII digits, within the range of `i32`.
pub open spec fn parse_i32(s: Seq<char>) -> Option<i32> {
    if s.len() > 0 && s[0] == '-' {
        let d = s.drop_first();
        if d.len() > 0 && all_digits(d) && digits_value(d) <= 0x8000_0000 {
            Some((0 - digits_value(d)) as i32)
        } else {
            None
        }
    } else {
        match parse_unsigned(s) {
            Some(v) => if v <= 0x7fff_ffff {
                Some(v as i32)
            } else {
                None
            },
            None => None,
        }
    }
}

/// Decimal digits of `n` with no leading zero: what `to_string` gives.
pub open spec fn decimal(n: nat) -> Seq<char>
    decreases n,
{
    if n < 10 {
        seq![digit_char(n)]
    } else {
        decimal(n / 10).push(digit_char(n % 10))
    }
}

pub fn usize_decimal(n: usize) -> (r: Vec<char>)
    ensures
        r@ == decimal(n as nat),
    decreases n,
{
    if n < 10 {
        let mut r: Vec<char> = Vec::new();
        r.push(digit_char_exec(n as u32));
        r
    } else {
        let mut r = usize_decimal(n / 10);
        r.push(digit_char_exec((n % 10) as u32));
        r
    }
}

proof fn lemma_digits_value_prefix(s: Seq<char>, i: int)
    requires
        0 <= i <= s.len(),
    ensures
        digits_value(s.take(i)) <= digits_value(s),
    decreases s.len() - i,
{
    if i < s.len() {
        lemma_digits_value_prefix(s, i + 1);
        assert(s.take(i + 1).drop_last() =~= s.take(i));
    } else {
        assert(s.take(i) =~= s);
    }
}

/// The digits of `s[from..]`: `None` when one is not an ASCII digit or there
/// are none; else their value, capped just above `cap`.
fn digits_capped(s: &Vec<char>, from: usize, cap: u64) -> (r: Option<u64>)
    requires
        from <= s.len(),
        10 <= cap < 0xffff_ffff_ffff_fff0,
    ensures
        r is None <==> !(from < s.len() && all_digits(s@.subrange(from as int, s.len() as int))),
        r matches Some(v) ==> (v <= cap ==> v == digits_value(s@.subrange(from as int, s.len() as int)))
            && (v > cap <==> digits_value(s@.subrange(from as int, s.len() as int)) > cap),
{
    if from >= s.len() {
        return None;
    }
    let ghost d = s@.subrange(from as int, s.len() as int);
    let mut v: u64 = 0;
    let mut i: usize = from;
    while i < s.len()
        invariant
            from <= i <= s.len(),
            10 <= cap < 0xffff_ffff_ffff_fff0,
            d == s@.subrange(from as int, s.len() as int),
            all_digits(d.take(i - from)),
            v <= cap ==> v == digits_value(d.take(i - from)),
            v > cap ==> v == cap + 1 && digits_value(d.take(i - from)) > cap,
        decreases s.len() - i,
    {
        let c = s[i];
        if !ascii_digit(c) {
            assert(d[i - from] == c);
            return None;
        }
        let dg: u64 = ((c as u32) - ('0' as u32)) as u64;
        assert(d.take(i - from + 1).drop_last() =~= d.take(i - from));
        assert(d.take(i - from + 1).last() == c);
        if v <= cap {
            if v > (cap - dg) / 10 {
                v = cap + 1;
            } else {
                v = v * 10 + dg;
            }
        }
        i += 1;
        assert(all_digits(d.take(i - from)));
    }
    assert(d.take(i - from) =~= d);
    Some(v)
}

/// `str::parse::<usize>`, on a vector of chars.
pub fn parse_usize_chars(s: &Vec<char>) -> (r: Option<usize>)
    ensures
        r == parse_usize(s@),
{
    let from: usize = if s.len() > 0 && s[0] == '+' {
        1
    } else {
        0
    };
    let ghost d = s@.subrange(from as int, s.len() as int);
    proof {
        if from == 1 {
            assert(s@.drop_first() =~= d);
        } else {
            assert(s@ =~= d);
        }
    }
    if from >= s.len() {
        return None;
    }
    let mut v: usize = 0;
    let mut i: usize = from;
    assert(d.take(0) =~= Seq::<char>::empty());
    while i < s.len()
        invariant
            from <= i <= s.len(),
            from < s.len(),
            d == s@.subrange(from as int, s.len() as int),
            d == (if s@.len() > 0 && s@[0] == '+' {
                s@.drop_first()
            } else {
                s@
            }),
            all_digits(d.take(i - from)),
            v == digits_value(d.take(i - from)),
        decreases s.len() - i,
    {
        let c = s[i];
        assert(d[i - from] == c);
        if !ascii_digit(c) {
            return None;
        }
        let dg: usize = ((c as u32) - ('0' as u32)) as usize;
        assert(d.take(i - from + 1).drop_last() =~= d.take(i - from));
        assert(d.take(i - from + 1).last() == c);
        if v > (usize::MAX - dg) / 10 {
            proof {
                lemma_digits_value_prefix(d, i - from + 1);
            }
            return None;
        }
        v = v * 10 + dg;
        i += 1;
        assert(all_digits(d.take(i - from)));
    }
    assert(d.take(i - from) =~= d);
    Some(v)
}

/// `str::parse::<i32>`, on a vector of chars.
pub fn parse_i32_chars(s: &Vec<char>) -> (r: Option<i32>)
    ensures
        r == parse_i32(s@),
{
    if s.len() > 0 && s[0] == '-' {
        assert(s@.drop_first() =~= s@.subrange(1, s.len() as int));
        match digits_capped(s, 1, 0x8000_0000) {
            None => None,
            Some(v) => {
                if v > 0x8000_0000 {
                    None
                } else {
                    Some((0 - (v as i64)) as i32)
                }
            },
        }
    } else {
        let from: usize = if s.len() > 0 && s[0] == '+' {
            1
        } else {
            0
        };
        proof {
            if from == 1 {
                assert(s@.drop_first() =~= s@.subrange(1, s.len() as int));
            } else {
                assert(s@ =~= s@.subrange(0, s.len() as int));
            }
        }
        match digits_capped(s, from, 0x7fff_ffff) {
            None => None,
            Some(v) => {
                if v > 0x7fff_ffff {
                    None
                } else {
                    Some(v as i32)
                }
            },
        }
    }
}

proof fn lemma_decimal_len(n: nat)
    ensures
        decimal(n).len() >= 1,
        n >= 10 ==> decimal(n).len() >= 2,
    decreases n,
{
    if n >= 10 {
        lemma_decimal_len(n / 10);
    }
}

/// Different numbers have different decimal texts.
pub proof fn lemma_decimal_injective(a: nat, b: nat)
    requires
        decimal(a) == decimal(b),
    ensures
        a == b,
    decreases a,
{
    lemma_decimal_len(a);
    lemma_decimal_len(b);
    if a >= 10 && b >= 10 {
        assert(decimal(a).last() == digit_char(a % 10));
        assert(decimal(b).last() == digit_char(b % 10));
        assert(decimal(a).drop_last() =~= decimal(a / 10));
        assert(decimal(b).drop_last() =~= decimal(b / 10));
        lemma_decimal_injective(a / 10, b / 10);
    } else if a < 10 && b < 10 {
        assert(decimal(a)[0] == digit_char(a));
        assert(decimal(b)[0] == digit_char(b));
    }
}

} // verus!
