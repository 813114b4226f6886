//! Reading integers and decimal numbers from text.

use vstd::prelude::*;
use crate::text::split_on;
use crate::text::char_views;
use crate::text::{slice_chars, split_chars, string_of};

verus! {

pub open spec fn is_digit(c: char) -> bool {
    '0' <= c && c <= '9'
}

pub open spec fn all_digits(t: Seq<char>) -> bool {
    forall|i: int| 0 <= i < t.len() ==> is_digit(#[trigger] t[i])
}

/// The value of a run of decimal digits, most significant first.
pub open spec fn digits_value(t: Seq<char>) -> nat
    decreases t.len(),
{
    if t.len() == 0 {
        0
    } else {
        (digits_value(t.drop_last()) * 10 + ((t.last() as int) - ('0' as int))) as nat
    }
}

/// The value of `t` when it is a non-empty run of digits whose value fits in a `u64`.
pub open spec fn digits_u64(t: Seq<char>) -> Option<u64> {
    if t.len() > 0 && all_digits(t) && digits_value(t) <= u64::MAX {
        Some(digits_value(t) as u64)
    } else {
        None
    }
}

pub proof fn lemma_digits_value_prefix(t: Seq<char>, k: int)
    requires
        0 <= k <= t.len(),
        all_digits(t),
    ensures
        digits_value(t.subrange(0, k)) <= digits_value(t),
    decreases t.len(),
{
    if k < t.len() {
        let d = t.drop_last();
        assert(all_digits(d)) by {
            assert forall|i: int| 0 <= i < d.len() implies is_digit(#[trigger] d[i]) by {
                assert(d[i] == t[i]);
            }
        }
        lemma_digits_value_prefix(d, k);
        assert(d.subrange(0, k) =~= t.subrange(0, k));
        assert(is_digit(t[t.len() - 1]));
    } else {
        assert(t.subrange(0, k) =~= t);
    }
}

/// Reads a non-empty run of decimal digits into a `u64`.
pub fn parse_digits(t: &Vec<char>) -> (r: Option<u64>)
    ensures
        r == digits_u64(t@),
{
    if t.len() == 0 {
        return None;
    }
    let mut acc: u64 = 0;
    let mut i: usize = 0;
    while i < t.len()
        invariant
            i <= t@.len(),
            all_digits(t@.subrange(0, i as int)),
            acc as nat == digits_value(t@.subrange(0, i as int)),
        decreases t@.len() - i,
    {
        let c = t[i];
        let ghost pre = t@.subrange(0, i + 1);
        assert(pre.drop_last() =~= t@.subrange(0, i as int));
        if !('0' <= c && c <= '9') {
            assert(!all_digits(t@)) by {
                assert(!is_digit(t@[i as int]));
            }
            return None;
        }
        let d = (c as u32 - '0' as u32) as u64;
        assert(d as int == (c as int) - ('0' as int));
        if acc > (u64::MAX - d) / 10 {
            proof {
                if all_digits(t@) {
                    lemma_digits_value_prefix(t@, i + 1);
                }
            }
            return None;
        }
        acc = acc * 10 + d;
        i += 1;
    }
    assert(t@.subrange(0, t@.len() as int) =~= t@);
    Some(acc)
}

/// A non-negative decimal number: `units / 10^scale`.
#[derive(Clone, Copy, PartialEq, Eq, Debug, Structural)]
pub struct Decimal {
    pub units: u64,
    pub scale: usize,
}

impl Decimal {
    pub open spec fn is(self, units: u64, scale: nat) -> bool {
        self.units == units && self.scale == scale
    }

    /// The zero value.
    pub fn zero() -> (r: Decimal)
        ensures
            r.is(0, 0),
    {
        Decimal { units: 0, scale: 0 }
    }

    /// The number in plain notation, with as many fraction digits as its scale.
    pub fn to_text(&self) -> (r: String)
        ensures
            r@ == decimal_text(*self),
    {
        let digits = u64_text(self.units);
        if self.scale == 0 {
            return string_of(&digits);
        }
        let mut padded: Vec<char> = Vec::new();
        if digits.len() <= self.scale {
            let k = self.scale - digits.len() + 1;
            let mut i: usize = 0;
            while i < k
                invariant
                    i <= k,
                    padded@ == zeros(i as nat),
                decreases k - i,
            {
                padded.push('0');
                i += 1;
                assert(padded@ =~= zeros(i as nat));
            }
        }
        let ghost pre = padded@;
        let ghost spec_digits = dec_text(self.units as nat);
        assert(pre == if spec_digits.len() <= self.scale {
            zeros((self.scale + 1 - spec_digits.len()) as nat)
        } else {
            Seq::<char>::empty()
        });
        let mut j: usize = 0;
        while j < digits.len()
            invariant
                j <= digits@.len(),
                padded@ == pre + digits@.subrange(0, j as int),
            decreases digits@.len() - j,
        {
            padded.push(digits[j]);
            j += 1;
            assert(padded@ =~= pre + digits@.subrange(0, j as int));
        }
        assert(digits@.subrange(0, digits@.len() as int) =~= digits@);
        assert(spec_digits.len() > self.scale ==> padded@ =~= spec_digits);
        let k = padded.len() - self.scale;
        let mut out = slice_chars(&padded, 0, k);
        out.push('.');
        let frac = slice_chars(&padded, k, padded.len());
        let mut t: usize = 0;
        let ghost head = out@;
        while t < frac.len()
            invariant
                t <= frac@.len(),
                out@ == head + frac@.subrange(0, t as int),
            decreases frac@.len() - t,
        {
            out.push(frac[t]);
            t += 1;
            assert(out@ =~= head + frac@.subrange(0, t as int));
        }
        assert(frac@.subrange(0, frac@.len() as int) =~= frac@);
        assert(out@ =~= decimal_text(*self));
        string_of(&out)
    }
}

/// Decimal notation: digits with at most one `.`, at least one digit in all, and a
/// digit string whose value fits in a `u64`. The result is `(units, scale)`.
pub open spec fn decimal_of(s: Seq<char>) -> Option<(u64, nat)> {
    let p = split_on(s, '.');
    if p.len() == 1 {
        match digits_u64(p[0]) {
            Some(v) => Some((v, 0nat)),
            None => None,
        }
    } else if p.len() == 2 {
        match digits_u64(p[0] + p[1]) {
            Some(v) => Some((v, p[1].len())),
            None => None,
        }
    } else {
        None
    }
}

fn concat_chars(a: &Vec<char>, b: &Vec<char>) -> (r: Vec<char>)
    ensures
        r@ == a@ + b@,
{
    let mut r = a.clone();
    assert(r@ == a@);
    let mut i: usize = 0;
    while i < b.len()
        invariant
            i <= b@.len(),
            r@ == a@ + b@.subrange(0, i as int),
        decreases b@.len() - i,
    {
        r.push(b[i]);
        i += 1;
        assert(r@ =~= a@ + b@.subrange(0, i as int));
    }
    assert(b@.subrange(0, b@.len() as int) =~= b@);
    r
}

/// Reads a decimal number written in plain notation (`83.2`, `8`, `.5`).
pub fn parse_decimal(s: &Vec<char>) -> (r: Option<Decimal>)
    ensures
        r is None <==> decimal_of(s@) is None,
        r matches Some(d) ==> decimal_of(s@) == Some((d.units, d.scale as nat)),
{
    let parts = split_chars(s, '.');
    assert(parts@.len() == split_on(s@, '.').len()) by {
        assert(char_views(parts@).len() == parts@.len());
    }
    if parts.len() == 1 {
        assert(parts@[0]@ == split_on(s@, '.')[0]) by {
            assert(char_views(parts@)[0] == parts@[0]@);
        }
        match parse_digits(&parts[0]) {
            Some(v) => Some(Decimal { units: v, scale: 0 }),
            None => None,
        }
    } else if parts.len() == 2 {
        assert(parts@[0]@ == split_on(s@, '.')[0] && parts@[1]@ == split_on(s@, '.')[1]) by {
            assert(char_views(parts@)[0] == parts@[0]@);
            assert(char_views(parts@)[1] == parts@[1]@);
        }
        let all = concat_chars(&parts[0], &parts[1]);
        match parse_digits(&all) {
            Some(v) => Some(Decimal { units: v, scale: parts[1].len() }),
            None => None,
        }
    } else {
        None
    }
}

/// An optional sign and a run of digits whose value lies within `i32`, as
/// `i32::from_str` reads it.
pub open spec fn int_of(s: Seq<char>) -> Option<int> {
    let neg = s.len() > 0 && s[0] == '-';
    let body = if s.len() > 0 && (s[0] == '-' || s[0] == '+') {
        s.drop_first()
    } else {
        s
    };
    if body.len() > 0 && all_digits(body) {
        let v = if neg {
            -digits_value(body)
        } else {
            digits_value(body) as int
        };
        if i32::MIN <= v <= i32::MAX {
            Some(v)
        } else {
            None
        }
    } else {
        None
    }
}

/// Reads a signed integer in the range of `i32`.
pub fn parse_i32(s: &Vec<char>) -> (r: Option<i32>)
    ensures
        r is None <==> int_of(s@) is None,
        r matches Some(v) ==> int_of(s@) == Some(v as int),
{
    let neg = s.len() > 0 && s[0] == '-';
    let signed = s.len() > 0 && (s[0] == '-' || s[0] == '+');
    let body = if signed {
        crate::text::slice_chars(s, 1, s.len())
    } else {
        s.clone()
    };
    assert(signed ==> body@ =~= s@.drop_first());
    match parse_digits(&body) {
        Some(v) => {
            if neg {
                if v <= 2147483648 {
                    Some((0 - (v as i64)) as i32)
                } else {
                    None
                }
            } else if v <= 2147483647 {
                Some(v as i32)
            } else {
                None
            }
        },
        None => None,
    }
}


pub open spec fn digit_chars() -> Seq<char> {
    seq!['0', '1', '2', '3', '4', '5', '6', '7', '8', '9']
}

/// The decimal digits of `n`, most significant first, without leading zeros.
pub open spec fn dec_text(n: nat) -> Seq<char>
    decreases n,
{
    if n < 10 {
        seq![digit_chars()[n as int]]
    } else {
        dec_text(n / 10).push(digit_chars()[(n % 10) as int])
    }
}

/// `k` zero digits.
pub open spec fn zeros(k: nat) -> Seq<char> {
    Seq::new(k, |i: int| '0')
}

/// A decimal in plain notation: the digits of its units, padded with leading
/// zeros to more than its scale, with a point before the last `scale` of them.
pub open spec fn decimal_text(d: Decimal) -> Seq<char> {
    let digits = dec_text(d.units as nat);
    if d.scale == 0 {
        digits
    } else {
        let padded = if digits.len() <= d.scale {
            zeros((d.scale + 1 - digits.len()) as nat) + digits
        } else {
            digits
        };
        let k = padded.len() - d.scale;
        padded.subrange(0, k) + seq!['.'] + padded.subrange(k, padded.len() as int)
    }
}

/// An integer in decimal notation, with a leading `-` when negative.
pub open spec fn int_text(v: int) -> Seq<char> {
    if v < 0 {
        seq!['-'] + dec_text((-v) as nat)
    } else {
        dec_text(v as nat)
    }
}

/// The decimal digits of `n`.
pub fn u64_text(n: u64) -> (r: Vec<char>)
    ensures
        r@ == dec_text(n as nat),
    decreases n,
{
    let digits = vec!['0', '1', '2', '3', '4', '5', '6', '7', '8', '9'];
    assert(digits@ == digit_chars());
    if n < 10 {
        vec![digits[n as usize]]
    } else {
        let mut r = u64_text(n / 10);
        r.push(digits[(n % 10) as usize]);
        r
    }
}

/// An integer in decimal notation.
pub fn i32_text(v: i32) -> (r: String)
    ensures
        r@ == int_text(v as int),
{
    if v < 0 {
        let m = (0 - (v as i64)) as u64;
        let mut r = vec!['-'];
        let d = u64_text(m);
        let mut i: usize = 0;
        while i < d.len()
            invariant
                i <= d@.len(),
                r@ == seq!['-'] + d@.subrange(0, i as int),
            decreases d@.len() - i,
        {
            r.push(d[i]);
            i += 1;
            assert(r@ =~= seq!['-'] + d@.subrange(0, i as int));
        }
        assert(d@.subrange(0, d@.len() as int) =~= d@);
        string_of(&r)
    } else {
        string_of(&u64_text(v as u64))
    }
}

} // verus!
