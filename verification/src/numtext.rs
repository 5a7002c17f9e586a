//! Integers as text: decimal and lower-case hexadecimal digits as `{}` and
//! `{:x}` write them, and reading them back as `str::parse` and
//! `from_str_radix` do.

use vstd::prelude::*;

verus! {

/// The digit for `d < 36`: `0`-`9`, then lower-case letters.
pub open spec fn digit_char(d: nat) -> char {
    if d < 10 {
        (48 + d) as char
    } else {
        (87 + d) as char
    }
}

/// The digits of `n` in base `r`, most significant first, without leading
/// zeros (`0` is written `0`).
pub open spec fn radix_text(n: nat, r: nat) -> Seq<char>
    decreases n,
{
    if r < 2 || n < r {
        seq![digit_char(n % 36)]
    } else {
        proof {
            assert(n / r < n) by (nonlinear_arith)
                requires
                    r >= 2,
                    n >= r,
            ;
        }
        radix_text(n / r, r) + seq![digit_char(n % r)]
    }
}

/// `{}` of a non-negative integer.
pub open spec fn dec(n: nat) -> Seq<char> {
    radix_text(n, 10)
}

/// `{:x}` of a non-negative integer.
pub open spec fn hex(n: nat) -> Seq<char> {
    radix_text(n, 16)
}

/// `{}` of a signed integer.
pub open spec fn signed_dec(v: int) -> Seq<char> {
    if v < 0 {
        seq!['-'] + dec((-v) as nat)
    } else {
        dec(v as nat)
    }
}

/// The value of a digit character in base `r`, letters in either case.
pub open spec fn digit_value(c: char, r: nat) -> Option<nat> {
    let v = c as u32;
    let d: int = if 48 <= v <= 57 {
        v - 48
    } else if 97 <= v <= 122 {
        v - 87
    } else if 65 <= v <= 90 {
        v - 55
    } else {
        99
    };
    if d < r {
        Some(d as nat)
    } else {
        None
    }
}

/// The value of a digit string in base `r`; `None` if a character is not
/// a digit.
pub open spec fn digits_value(s: Seq<char>, r: nat) -> Option<nat>
    decreases s.len(),
{
    if s.len() == 0 {
        Some(0)
    } else {
        match (digits_value(s.drop_last(), r), digit_value(s.last(), r)) {
            (Some(a), Some(d)) => Some(a * r + d),
            _ => None,
        }
    }
}

/// Reading an unsigned integer of at most `max`: an optional `+`, then at
/// least one digit.
pub open spec fn parse_unsigned(s: Seq<char>, r: nat, max: nat) -> Option<nat> {
    let d = if s.len() > 0 && s[0] == '+' {
        s.drop_first()
    } else {
        s
    };
    if d.len() == 0 {
        None
    } else {
        match digits_value(d, r) {
            Some(v) => if v <= max {
                Some(v)
            } else {
                None
            },
            None => None,
        }
    }
}

/// Reading a signed integer in `min..=max`: an optional `+` or `-`, then at
/// least one digit.
pub open spec fn parse_signed(s: Seq<char>, r: nat, min: int, max: int) -> Option<int> {
    if s.len() > 0 && s[0] == '-' {
        let d = s.drop_first();
        if d.len() == 0 {
            None
        } else {
            match digits_value(d, r) {
                Some(v) => if -v >= min {
                    Some(-v)
                } else {
                    None
                },
                None => None,
            }
        }
    } else {
        match parse_unsigned(s, r, max as nat) {
            Some(v) => if max >= 0 {
                Some(v as int)
            } else {
                None
            },
            None => None,
        }
    }
}

proof fn lemma_digits_grow(s: Seq<char>, r: nat, k: int)
    requires
        r >= 1,
        0 <= k <= s.len(),
        digits_value(s, r) is Some,
    ensures
        digits_value(s.take(k), r) is Some,
        digits_value(s.take(k), r)->0 <= digits_value(s, r)->0,
    decreases s.len() - k,
{
    if k == s.len() {
        assert(s.take(k) =~= s);
    } else {
        lemma_digits_grow(s, r, k + 1);
        let t = s.take(k + 1);
        assert(t.drop_last() =~= s.take(k));
        let a = digits_value(s.take(k), r);
        assert(a is Some);
        assert(a->0 * r >= a->0) by (nonlinear_arith)
            requires r >= 1;
    }
}

/// Writes the digits of `n` in base `r`.
fn push_radix(out: &mut Vec<char>, n: u64, r: u64)
    requires
        2 <= r <= 16,
    ensures
        final(out)@ == old(out)@ + radix_text(n as nat, r as nat),
    decreases n,
{
    if n >= r {
        assert(n / r < n) by (nonlinear_arith)
            requires
                r >= 2,
                n >= r,
        ;
        push_radix(out, n / r, r);
    }
    let d = n % r;
    if n < r {
        assert(d == n) by (nonlinear_arith)
            requires
                d == n % r,
                n < r,
                r >= 2,
        ;
        assert(n % 36 == n) by (nonlinear_arith)
            requires
                n < 16,
        ;
    }
    let c: char = if d < 10 {
        ((48 + d) as u8) as char
    } else {
        ((87 + d) as u8) as char
    };
    assert(c == digit_char(d as nat));
    out.push(c);
    assert(final(out)@ =~= old(out)@ + radix_text(n as nat, r as nat));
}

/// `{}` of an unsigned integer.
pub fn dec_chars(n: u64) -> (s: Vec<char>)
    ensures
        s@ == dec(n as nat),
{
    let mut out: Vec<char> = Vec::new();
    push_radix(&mut out, n, 10);
    assert(out@ =~= dec(n as nat));
    out
}

/// `{:x}` of an unsigned integer.
pub fn hex_chars(n: u64) -> (s: Vec<char>)
    ensures
        s@ == hex(n as nat),
{
    let mut out: Vec<char> = Vec::new();
    push_radix(&mut out, n, 16);
    assert(out@ =~= hex(n as nat));
    out
}

/// `{}` of a signed integer.
pub fn signed_dec_chars(v: i64) -> (s: Vec<char>)
    ensures
        s@ == signed_dec(v as int),
{
    if v < 0 {
        let m: u64 = if v == i64::MIN {
            0x8000_0000_0000_0000u64
        } else {
            (-v) as u64
        };
        let mut out: Vec<char> = vec!['-'];
        push_radix(&mut out, m, 10);
        assert(out@ =~= signed_dec(v as int));
        out
    } else {
        dec_chars(v as u64)
    }
}

/// The value of the digits `d` in base `r`, or `None` where a character is
/// not a digit or the value exceeds `max`.
fn digits_upto(d: &[char], r: u64, max: u64) -> (v: Option<u64>)
    requires
        2 <= r <= 16,
    ensures
        v matches Some(x) ==> digits_value(d@, r as nat) == Some(x as nat) && x <= max,
        v is None ==> match digits_value(d@, r as nat) {
            Some(x) => x > max,
            None => true,
        },
{
    let n = d.len();
    let mut acc: u64 = 0;
    let mut i: usize = 0;
    assert(d@.take(0) =~= Seq::<char>::empty());
    while i < n
        invariant
            n == d@.len(),
            i <= n,
            2 <= r <= 16,
            acc <= max,
            digits_value(d@.take(i as int), r as nat) == Some(acc as nat),
        decreases n - i,
    {
        let c = d[i];
        let cv = c as u32;
        let dv: u64 = if 48 <= cv && cv <= 57 {
            (cv - 48) as u64
        } else if 97 <= cv && cv <= 122 {
            (cv - 87) as u64
        } else if 65 <= cv && cv <= 90 {
            (cv - 55) as u64
        } else {
            99
        };
        proof {
            assert(d@.take(i + 1).drop_last() =~= d@.take(i as int));
            assert(d@.take(i + 1).last() == c);
        }
        if dv >= r {
            proof {
                assert(digits_value(d@.take(i + 1), r as nat) is None);
                if digits_value(d@, r as nat) is Some {
                    lemma_digits_grow(d@, r as nat, i + 1);
                }
            }
            return None;
        }
        assert((acc as u128) * (r as u128) + (dv as u128) <= 0x1_0000_0000_0000_0000u128 * 16)
            by (nonlinear_arith)
            requires
                acc <= 0xFFFF_FFFF_FFFF_FFFFu64,
                r <= 16,
                dv < r,
        ;
        let wide: u128 = (acc as u128) * (r as u128) + (dv as u128);
        if wide > max as u128 {
            proof {
                if digits_value(d@, r as nat) is Some {
                    lemma_digits_grow(d@, r as nat, i + 1);
                }
            }
            return None;
        }
        acc = wide as u64;
        i = i + 1;
    }
    assert(d@.take(n as int) =~= d@);
    Some(acc)
}

/// `str::parse` and `from_str_radix` for an unsigned integer of at most
/// `max`.
pub fn parse_unsigned_chars(s: &[char], r: u64, max: u64) -> (v: Option<u64>)
    requires
        2 <= r <= 16,
    ensures
        v matches Some(x) ==> parse_unsigned(s@, r as nat, max as nat) == Some(x as nat),
        v is None ==> parse_unsigned(s@, r as nat, max as nat) is None,
{
    let start: usize = if s.len() > 0 && s[0] == '+' {
        1
    } else {
        0
    };
    let d = crate::chars::slice_chars(s, start, s.len());
    assert(start == 1 ==> d@ =~= s@.drop_first());
    assert(start == 0 ==> d@ =~= s@);
    if d.len() == 0 {
        return None;
    }
    digits_upto(&d, r, max)
}

/// `str::parse` and `from_str_radix` for a signed integer in `min..=max`.
pub fn parse_signed_chars(s: &[char], r: u64, min: i64, max: i64) -> (v: Option<i64>)
    requires
        2 <= r <= 16,
        min < 0 <= max,
    ensures
        v matches Some(x) ==> parse_signed(s@, r as nat, min as int, max as int) == Some(x as int),
        v is None ==> parse_signed(s@, r as nat, min as int, max as int) is None,
{
    if s.len() > 0 && s[0] == '-' {
        let d = crate::chars::slice_chars(s, 1, s.len());
        assert(d@ =~= s@.drop_first());
        if d.len() == 0 {
            return None;
        }
        let lim: u64 = if min == i64::MIN {
            0x8000_0000_0000_0000u64
        } else {
            (-min) as u64
        };
        match digits_upto(&d, r, lim) {
            Some(x) => {
                if x == 0x8000_0000_0000_0000u64 {
                    Some(i64::MIN)
                } else {
                    Some(-(x as i64))
                }
            },
            None => None,
        }
    } else {
        match parse_unsigned_chars(s, r, max as u64) {
            Some(x) => Some(x as i64),
            None => None,
        }
    }
}

} // verus!
