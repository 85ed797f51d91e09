//! The values of literals: integers, float notation and array lengths.

use vstd::prelude::*;
use crate::chars::{is_digit, is_digit_char};
use crate::lexer::{all_digits, decimal_value, scan, CharClass};

verus! {

/// Whether `t` writes an integer: an optional minus sign, then at least one
/// decimal digit and nothing else.
pub open spec fn is_integer_text(t: Seq<char>) -> bool {
    if t.len() > 0 && t[0] == '-' {
        t.len() > 1 && all_digits(t.skip(1))
    } else {
        t.len() > 0 && all_digits(t)
    }
}

/// The integer that `t` writes.
pub open spec fn integer_value(t: Seq<char>) -> int
    recommends
        is_integer_text(t),
{
    if t.len() > 0 && t[0] == '-' {
        -decimal_value(t.skip(1))
    } else {
        decimal_value(t)
    }
}

/// The 64-bit integer that `t` writes, if it writes one that fits.
pub open spec fn i64_literal(t: Seq<char>) -> Option<i64> {
    if is_integer_text(t) && i64::MIN <= integer_value(t) <= i64::MAX {
        Some(integer_value(t) as i64)
    } else {
        None
    }
}

/// Whether `t` writes a number in float notation that has a value: an
/// optional minus sign; digits with at most one dot among them and at least
/// one digit in all; then optionally an exponent mark, an optional sign and
/// at least one digit; and nothing else.
pub open spec fn is_float_text(t: Seq<char>) -> bool {
    let start: int = if t.len() > 0 && t[0] == '-' {
        1
    } else {
        0
    };
    let a = scan(t, start, CharClass::Digit);
    let dot = a < t.len() && t[a] == '.';
    let b = if dot {
        scan(t, a + 1, CharClass::Digit)
    } else {
        a
    };
    let mantissa = (a - start) + (if dot {
        b - (a + 1)
    } else {
        0
    });
    let exp = b < t.len() && (t[b] == 'e' || t[b] == 'E');
    let d = if exp && b + 1 < t.len() && (t[b + 1] == '+' || t[b + 1] == '-') {
        b + 2
    } else {
        b + 1
    };
    let c = if exp {
        scan(t, d, CharClass::Digit)
    } else {
        b
    };
    mantissa > 0 && (exp ==> c > d) && c == t.len()
}

/// The array length that the integer `v` stands for: `v` reduced modulo
/// 2^32.
pub open spec fn wrapped_length(v: i64) -> u32 {
    ((v as int) % 0x1_0000_0000) as u32
}

/// The index after the run of `class` that starts at `from`.
pub fn scan_run(chars: &Vec<char>, from: usize, class: CharClass) -> (end: usize)
    requires
        from <= chars.len(),
    ensures
        end == scan(chars@, from as int, class),
        from <= end <= chars.len(),
{
    let mut i: usize = from;
    while i < chars.len() && class.test(chars[i])
        invariant
            from <= i <= chars.len(),
            scan(chars@, i as int, class) == scan(chars@, from as int, class),
        decreases chars.len() - i,
    {
        i += 1;
    }
    i
}

/// The number that the digits `chars[from..to]` write, or `cap` if that is
/// less. Nothing if one of the characters is not a digit.
pub fn decimal_capped(chars: &Vec<char>, from: usize, to: usize, cap: u64) -> (r: Option<u64>)
    requires
        from <= to <= chars.len(),
    ensures
        r is Some <==> all_digits(chars@.subrange(from as int, to as int)),
        r matches Some(v) ==> v == if decimal_value(chars@.subrange(from as int, to as int))
            < cap {
            decimal_value(chars@.subrange(from as int, to as int))
        } else {
            cap as int
        },
{
    let mut value: u64 = 0;
    let mut k: usize = from;
    if cap == 0 {
        proof {
            assert(chars@.subrange(from as int, from as int) =~= Seq::<char>::empty());
        }
    }
    assert(chars@.subrange(from as int, k as int) =~= Seq::<char>::empty());
    while k < to
        invariant
            from <= k <= to <= chars.len(),
            all_digits(chars@.subrange(from as int, k as int)),
            value <= cap,
            decimal_value(chars@.subrange(from as int, k as int)) >= 0,
            value < cap ==> value == decimal_value(chars@.subrange(from as int, k as int)),
            value == cap ==> decimal_value(chars@.subrange(from as int, k as int)) >= cap,
        decreases to - k,
    {
        let c = chars[k];
        let ghost prefix = chars@.subrange(from as int, k as int);
        let ghost longer = chars@.subrange(from as int, k as int + 1);
        assert(longer.drop_last() =~= prefix);
        assert(longer.last() == c);
        if !is_digit_char(c) {
            assert(chars@.subrange(from as int, to as int)[k - from] == c);
            return None;
        }
        let d: u128 = ((c as u32) - ('0' as u32)) as u128;
        let next: u128 = (value as u128) * 10 + d;
        value = if next > cap as u128 {
            cap
        } else {
            next as u64
        };
        assert forall|m: int| 0 <= m < longer.len() implies is_digit(#[trigger] longer[m]) by {
            if m < prefix.len() {
                assert(longer[m] == prefix[m]);
            }
        }
        k += 1;
    }
    Some(value)
}

/// Reads the text of an integer literal.
pub fn parse_i64(chars: &Vec<char>) -> (r: Option<i64>)
    ensures
        r == i64_literal(chars@),
{
    let n = chars.len();
    let negative = n > 0 && chars[0] == '-';
    let from: usize = if negative {
        1
    } else {
        0
    };
    proof {
        assert(chars@.subrange(0, n as int) =~= chars@);
        assert(chars@.subrange(1, n as int) =~= chars@.skip(1));
    }
    if from >= n {
        return None;
    }
    match decimal_capped(chars, from, n, 0x8000_0000_0000_0001) {
        None => None,
        Some(v) => {
            if negative {
                if v <= 0x8000_0000_0000_0000 {
                    if v == 0x8000_0000_0000_0000 {
                        Some(i64::MIN)
                    } else {
                        Some(-(v as i64))
                    }
                } else {
                    None
                }
            } else {
                if v <= 0x7FFF_FFFF_FFFF_FFFF {
                    Some(v as i64)
                } else {
                    None
                }
            }
        },
    }
}

/// Whether the text is float notation that has a value.
pub fn check_float_text(chars: &Vec<char>) -> (ok: bool)
    ensures
        ok == is_float_text(chars@),
{
    let n = chars.len();
    let start: usize = if n > 0 && chars[0] == '-' {
        1
    } else {
        0
    };
    let a = scan_run(chars, start, CharClass::Digit);
    let dot = a < n && chars[a] == '.';
    let b = if dot {
        scan_run(chars, a + 1, CharClass::Digit)
    } else {
        a
    };
    let mantissa = (a - start) + (if dot {
        b - (a + 1)
    } else {
        0
    });
    let exp = b < n && (chars[b] == 'e' || chars[b] == 'E');
    if exp {
        let d = if b + 1 < n && (chars[b + 1] == '+' || chars[b + 1] == '-') {
            b + 2
        } else {
            b + 1
        };
        let c = scan_run(chars, d, CharClass::Digit);
        mantissa > 0 && c > d && c == n
    } else {
        mantissa > 0 && b == n
    }
}

/// The array length that the integer `v` stands for.
pub fn wrap_length(v: i64) -> (r: u32)
    ensures
        r == wrapped_length(v),
{
    if v >= 0 {
        (v % 0x1_0000_0000) as u32
    } else {
        let r = (-(v + 1)) % 0x1_0000_0000;
        (0xFFFF_FFFF - r) as u32
    }
}

} // verus!
