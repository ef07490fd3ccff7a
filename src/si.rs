//! Numbers with an optional SI unit letter (`k`, `M`, `G`).

use vstd::prelude::*;

use crate::error::ErrorKind;
use crate::text::{decimal_value, is_digit, str_eq};

verus! {

/// The multiplier that a trailing unit letter stands for.
pub open spec fn unit_multiplier(c: char) -> Option<u32> {
    if c == 'k' {
        Some(1_000u32)
    } else if c == 'M' {
        Some(1_000_000u32)
    } else if c == 'G' {
        Some(1_000_000_000u32)
    } else {
        None
    }
}

/// The text without its unit letter, and the multiplier (1 without one).
pub open spec fn split_unit(s: Seq<char>) -> (Seq<char>, u32) {
    if s.len() > 0 && unit_multiplier(s.last()) is Some {
        (s.drop_last(), unit_multiplier(s.last())->0)
    } else {
        (s, 1u32)
    }
}

/// Splits a trailing unit letter off a number.
pub fn find_multiplication_suffix(from: &str) -> (r: (&str, u32))
    ensures
        r.0@ == split_unit(from@).0,
        r.1 == split_unit(from@).1,
{
    let n = from.unicode_len();
    if n == 0 {
        return (from, 1);
    }
    let last = from.get_char(n - 1);
    let mul: u32 = if last == 'k' {
        1_000
    } else if last == 'M' {
        1_000_000
    } else if last == 'G' {
        1_000_000_000
    } else {
        return (from, 1);
    };
    let head = from.substring_char(0, n - 1);
    assert(head@ =~= from@.drop_last());
    (head, mul)
}

/// Every character of `s` is a decimal digit.
pub open spec fn all_digits(s: Seq<char>) -> bool {
    forall|i: int| 0 <= i < s.len() ==> is_digit(#[trigger] s[i])
}

/// The text of an unsigned integer: an optional `+`, then one or more digits.
pub open spec fn unsigned_text(s: Seq<char>) -> Option<nat> {
    let body = if s.len() > 0 && s[0] == '+' { s.drop_first() } else { s };
    if body.len() > 0 && all_digits(body) {
        Some(decimal_value(body))
    } else {
        None
    }
}

/// The text of a signed integer: an optional `+` or `-`, then one or more digits.
pub open spec fn signed_text(s: Seq<char>) -> Option<int> {
    if s.len() > 0 && s[0] == '-' {
        let body = s.drop_first();
        if body.len() > 0 && all_digits(body) {
            Some(-decimal_value(body))
        } else {
            None
        }
    } else {
        match unsigned_text(s) {
            Some(v) => Some(v as int),
            None => None,
        }
    }
}

proof fn lemma_decimal_prefix_grows(s: Seq<char>, i: int, j: int)
    requires
        0 <= i <= j <= s.len(),
    ensures
        decimal_value(s.subrange(0, i)) <= decimal_value(s.subrange(0, j)),
    decreases j - i,
{
    if i < j {
        lemma_decimal_prefix_grows(s, i, j - 1);
        assert(s.subrange(0, j).drop_last() =~= s.subrange(0, j - 1));
    }
}

/// Reads a run of decimal digits; `Err(InvalidNumber)` if it is empty or
/// holds another character, `Err(OutOfRange)` if its value exceeds `u64`.
fn digits_u64(s: &str) -> (r: Result<u64, ErrorKind>)
    ensures
        !(s@.len() > 0 && all_digits(s@)) ==> r == Err::<u64, ErrorKind>(ErrorKind::InvalidNumber),
        s@.len() > 0 && all_digits(s@) && decimal_value(s@) <= u64::MAX ==> r == Ok::<u64, ErrorKind>(
            decimal_value(s@) as u64,
        ),
        s@.len() > 0 && all_digits(s@) && decimal_value(s@) > u64::MAX ==> r == Err::<u64, ErrorKind>(
            ErrorKind::OutOfRange,
        ),
{
    let n = s.unicode_len();
    if n == 0 {
        return Err(ErrorKind::InvalidNumber);
    }
    let mut i: usize = 0;
    while i < n
        invariant
            n == s@.len(),
            i <= n,
            all_digits(s@.subrange(0, i as int)),
        decreases n - i,
    {
        let c = s.get_char(i);
        if !('0' <= c && c <= '9') {
            return Err(ErrorKind::InvalidNumber);
        }
        i = i + 1;
        assert(s@.subrange(0, i as int).last() == c);
    }
    assert(s@.subrange(0, n as int) =~= s@);
    let mut v: u64 = 0;
    let mut k: usize = 0;
    while k < n
        invariant
            n == s@.len(),
            all_digits(s@),
            k <= n,
            v == decimal_value(s@.subrange(0, k as int)),
        decreases n - k,
    {
        let c = s.get_char(k);
        let d = (c as u32 - '0' as u32) as u64;
        assert(s@.subrange(0, k + 1).drop_last() =~= s@.subrange(0, k as int));
        assert(is_digit(s@[k as int]));
        assert(decimal_value(s@.subrange(0, k + 1)) == 10 * v + d);
        assert(s@.subrange(0, n as int) =~= s@);
        match v.checked_mul(10) {
            None => {
                proof {
                    lemma_decimal_prefix_grows(s@, k + 1, n as int);
                }
                return Err(ErrorKind::OutOfRange);
            },
            Some(t) => match t.checked_add(d) {
                None => {
                    proof {
                        lemma_decimal_prefix_grows(s@, k + 1, n as int);
                    }
                    return Err(ErrorKind::OutOfRange);
                },
                Some(w) => {
                    v = w;
                },
            },
        }
        k = k + 1;
    }
    Ok(v)
}

/// The result of reading `s` as an unsigned integer without a unit.
pub open spec fn plain_u64(s: Seq<char>) -> Result<u64, ErrorKind> {
    match unsigned_text(s) {
        None => Err(ErrorKind::InvalidNumber),
        Some(v) => if v > u64::MAX {
            Err(ErrorKind::OutOfRange)
        } else {
            Ok(v as u64)
        },
    }
}

/// Reads an unsigned integer without a unit: an optional `+`, then digits.
pub fn parse_u64(from: &str) -> (r: Result<u64, ErrorKind>)
    ensures
        r == plain_u64(from@),
{
    let n = from.unicode_len();
    let body = if n > 0 && from.get_char(0) == '+' {
        from.substring_char(1, n)
    } else {
        from
    };
    assert(from@.len() > 0 && from@[0] == '+' ==> body@ =~= from@.drop_first());
    digits_u64(body)
}

/// The result of reading `s` as an unsigned integer with an optional unit.
pub open spec fn si_u64(s: Seq<char>) -> Result<u64, ErrorKind> {
    let (t, m) = split_unit(s);
    match unsigned_text(t) {
        None => Err(ErrorKind::InvalidNumber),
        Some(v) => if v * m > u64::MAX {
            Err(ErrorKind::OutOfRange)
        } else {
            Ok((v * m) as u64)
        },
    }
}

/// The result of reading `s` as a signed integer with an optional unit.
pub open spec fn si_i64(s: Seq<char>) -> Result<i64, ErrorKind> {
    let (t, m) = split_unit(s);
    match signed_text(t) {
        None => Err(ErrorKind::InvalidNumber),
        Some(v) => if v * m > i64::MAX || v * m < i64::MIN {
            Err(ErrorKind::OutOfRange)
        } else {
            Ok((v * m) as i64)
        },
    }
}

/// Reads an unsigned integer with an optional unit letter (`47k` is 47000).
pub fn parse_si_u64(from: &str) -> (r: Result<u64, ErrorKind>)
    ensures
        r == si_u64(from@),
{
    let (val, mul) = find_multiplication_suffix(from);
    let n = val.unicode_len();
    let body = if n > 0 && val.get_char(0) == '+' {
        val.substring_char(1, n)
    } else {
        val
    };
    assert(val@.len() > 0 && val@[0] == '+' ==> body@ =~= val@.drop_first());
    let ghost x = decimal_value(body@);
    assert(x * mul >= x) by (nonlinear_arith)
        requires mul >= 1;
    let v = match digits_u64(body) {
        Err(e) => return Err(e),
        Ok(v) => v,
    };
    match v.checked_mul(mul as u64) {
        None => Err(ErrorKind::OutOfRange),
        Some(p) => Ok(p),
    }
}

/// Reads a signed integer with an optional unit letter (`-1k` is -1000).
pub fn parse_si_i64(from: &str) -> (r: Result<i64, ErrorKind>)
    ensures
        r == si_i64(from@),
{
    let (val, mul) = find_multiplication_suffix(from);
    let n = val.unicode_len();
    let negative = n > 0 && val.get_char(0) == '-';
    let body = if n > 0 && (val.get_char(0) == '+' || val.get_char(0) == '-') {
        val.substring_char(1, n)
    } else {
        val
    };
    assert(n > 0 && (val@[0] == '+' || val@[0] == '-') ==> body@ =~= val@.drop_first());
    let ghost x = decimal_value(body@);
    assert(x * mul >= x) by (nonlinear_arith)
        requires mul >= 1;
    assert((-x) * mul == -(x * mul)) by (nonlinear_arith);
    let v = match digits_u64(body) {
        Err(e) => return Err(e),
        Ok(v) => v,
    };
    let m = mul as u64;
    assert(v * m >= v) by (nonlinear_arith)
        requires m >= 1;
    assert((-v) * m == -(v * m)) by (nonlinear_arith);
    if negative {
        // magnitude up to 2^63, times the unit, must stay within i64::MIN
        if v > 0x8000_0000_0000_0000u64 {
            return Err(ErrorKind::OutOfRange);
        }
        match v.checked_mul(m) {
            None => Err(ErrorKind::OutOfRange),
            Some(p) => if p > 0x8000_0000_0000_0000u64 {
                Err(ErrorKind::OutOfRange)
            } else if p == 0x8000_0000_0000_0000u64 {
                Ok(i64::MIN)
            } else {
                Ok(-(p as i64))
            },
        }
    } else {
        if v > 0x7fff_ffff_ffff_ffffu64 {
            return Err(ErrorKind::OutOfRange);
        }
        match v.checked_mul(m) {
            None => Err(ErrorKind::OutOfRange),
            Some(p) => if p > 0x7fff_ffff_ffff_ffffu64 {
                Err(ErrorKind::OutOfRange)
            } else {
                Ok(p as i64)
            },
        }
    }
}

/// The yes/no words accepted besides `true` and `false`.
pub open spec fn bool_text(s: Seq<char>) -> Option<bool> {
    if s == "true"@ || s == "yes"@ || s == "y"@ {
        Some(true)
    } else if s == "false"@ || s == "no"@ || s == "n"@ {
        Some(false)
    } else {
        None
    }
}

/// Reads `true`, `yes`, `y`, `false`, `no` or `n`.
pub fn parse_bool(from: &str) -> (r: Result<bool, ErrorKind>)
    ensures
        bool_text(from@) matches Some(b) ==> r == Ok::<bool, ErrorKind>(b),
        bool_text(from@) is None ==> r == Err::<bool, ErrorKind>(ErrorKind::InvalidBool),
{
    if str_eq(from, "true") || str_eq(from, "yes") || str_eq(from, "y") {
        Ok(true)
    } else if str_eq(from, "false") || str_eq(from, "no") || str_eq(from, "n") {
        Ok(false)
    } else {
        Err(ErrorKind::InvalidBool)
    }
}

/// A decimal number `±mantissa / 10^scale`, as read from text such as `0.25`.
#[derive(Debug, Clone, Copy, PartialEq, Eq, Structural)]
pub struct Decimal {
    pub negative: bool,
    pub mantissa: u64,
    pub scale: u32,
}

/// `10^e`.
pub open spec fn pow10(e: nat) -> nat
    decreases e,
{
    if e == 0 {
        1
    } else {
        10 * pow10((e - 1) as nat)
    }
}

impl Decimal {
    /// The number held, as a fraction `numerator / pow10(scale)`.
    pub open spec fn numerator(self) -> int {
        if self.negative { -(self.mantissa as int) } else { self.mantissa as int }
    }

    /// Strictly above zero.
    pub open spec fn spec_is_positive(self) -> bool {
        !self.negative && self.mantissa > 0
    }

    /// Whether the number is strictly above zero.
    pub fn is_positive(&self) -> (r: bool)
        ensures
            r == self.spec_is_positive(),
    {
        !self.negative && self.mantissa > 0
    }
}

/// `s` is digits with one `.` at `p`, and at least one digit overall.
pub open spec fn dot_at(s: Seq<char>, p: int) -> bool {
    &&& 0 <= p < s.len()
    &&& s[p] == '.'
    &&& all_digits(s.take(p))
    &&& all_digits(s.skip(p + 1))
    &&& s.len() >= 2
}

/// The digits of a decimal body (sign removed), dot dropped, and how many
/// follow the dot; `None` when the body is not such a number.
pub open spec fn decimal_parts(s: Seq<char>) -> Option<(Seq<char>, nat)> {
    if s.len() > 0 && all_digits(s) {
        Some((s, 0nat))
    } else if exists|p: int| dot_at(s, p) {
        let p = choose|p: int| dot_at(s, p);
        Some((s.take(p) + s.skip(p + 1), (s.len() - p - 1) as nat))
    } else {
        None
    }
}

/// The result of reading `t` as a decimal number (an optional sign, then
/// digits with at most one `.`) and multiplying it by `m`.
pub open spec fn decimal_spec(t: Seq<char>, m: u32) -> Result<Decimal, ErrorKind> {
    let negative = t.len() > 0 && t[0] == '-';
    let body = if t.len() > 0 && (t[0] == '-' || t[0] == '+') { t.drop_first() } else { t };
    match decimal_parts(body) {
        None => Err(ErrorKind::InvalidNumber),
        Some((digits, frac)) => if decimal_value(digits) * m > u64::MAX || frac > u32::MAX {
            Err(ErrorKind::OutOfRange)
        } else {
            Ok(Decimal { negative, mantissa: (decimal_value(digits) * m) as u64, scale: frac as u32 })
        },
    }
}

/// The result of reading `s` as a decimal number with an optional unit letter.
pub open spec fn si_decimal(s: Seq<char>) -> Result<Decimal, ErrorKind> {
    decimal_spec(split_unit(s).0, split_unit(s).1)
}

proof fn lemma_dot_unique(s: Seq<char>, p: int, q: int)
    requires
        dot_at(s, p),
        dot_at(s, q),
    ensures
        p == q,
{
    if p < q {
        assert(s.take(q)[p] == s[p]);
    } else if q < p {
        assert(s.take(p)[q] == s[q]);
    }
}

/// Index of the first character of `s` that is not a digit, if any.
fn first_non_digit(s: &str) -> (r: Option<usize>)
    ensures
        r is None ==> all_digits(s@),
        r matches Some(p) ==> p < s@.len() && !is_digit(s@[p as int]) && all_digits(s@.take(p as int)),
{
    let n = s.unicode_len();
    let mut i: usize = 0;
    while i < n
        invariant
            n == s@.len(),
            i <= n,
            all_digits(s@.take(i as int)),
        decreases n - i,
    {
        let c = s.get_char(i);
        if !('0' <= c && c <= '9') {
            return Some(i);
        }
        i = i + 1;
        assert(s@.take(i as int).last() == c);
    }
    assert(s@.take(n as int) =~= s@);
    None
}

/// Reads a decimal number with an optional unit letter (`0.25`, `1.5k`).
pub fn parse_si_decimal(from: &str) -> (r: Result<Decimal, ErrorKind>)
    ensures
        r == si_decimal(from@),
{
    let (val, mul) = find_multiplication_suffix(from);
    decimal_times(val, mul)
}

/// Reads a decimal number without a unit (`0.08`, `-1.5`).
pub fn parse_decimal(from: &str) -> (r: Result<Decimal, ErrorKind>)
    ensures
        r == decimal_spec(from@, 1),
{
    decimal_times(from, 1)
}

/// Reads a decimal number and multiplies it by `mul`.
fn decimal_times(val: &str, mul: u32) -> (r: Result<Decimal, ErrorKind>)
    requires
        mul >= 1,
    ensures
        r == decimal_spec(val@, mul),
{
    let n = val.unicode_len();
    let negative = n > 0 && val.get_char(0) == '-';
    let body = if n > 0 && (val.get_char(0) == '+' || val.get_char(0) == '-') {
        val.substring_char(1, n)
    } else {
        val
    };
    assert(n > 0 && (val@[0] == '+' || val@[0] == '-') ==> body@ =~= val@.drop_first());
    let bn = body.unicode_len();
    let (digits, frac) = match first_non_digit(body) {
        None => {
            if bn == 0 {
                proof {
                    if exists|p: int| dot_at(body@, p) {
                        let p = choose|p: int| dot_at(body@, p);
                    }
                }
                return Err(ErrorKind::InvalidNumber);
            }
            let mut d = String::new();
            crate::text::push_str(&mut d, body);
            (d, 0usize)
        },
        Some(p) => {
            let after = body.substring_char(p + 1, bn);
            let ok = body.get_char(p) == '.' && bn >= 2 && first_non_digit(after).is_none();
            assert(after@ =~= body@.skip(p + 1));
            if !ok {
                proof {
                    if exists|q: int| dot_at(body@, q) {
                        let q = choose|q: int| dot_at(body@, q);
                        if q < p {
                            assert(body@.skip(q + 1)[p - q - 1] == body@[p as int]);
                        } else if p < q {
                            assert(body@.take(q)[p as int] == body@[p as int]);
                        }
                    }
                }
                return Err(ErrorKind::InvalidNumber);
            }
            proof {
                assert(dot_at(body@, p as int));
                let c = choose|q: int| dot_at(body@, q);
                lemma_dot_unique(body@, p as int, c);
            }
            let mut d = String::new();
            crate::text::push_str(&mut d, body.substring_char(0, p));
            crate::text::push_str(&mut d, after);
            assert(d@ =~= body@.take(p as int) + body@.skip(p + 1));
            (d, bn - p - 1)
        },
    };
    let ghost parts = decimal_parts(body@);
    assert(parts matches Some((dd, f)) && dd == digits@ && f == frac);
    assert(digits@.len() > 0 && all_digits(digits@)) by {
        let dd = digits@;
        assert forall|i: int| 0 <= i < dd.len() implies is_digit(#[trigger] dd[i]) by {
            if frac > 0 {
                let p = body@.len() - frac - 1;
                if i < p {
                    assert(body@.take(p)[i] == dd[i]);
                } else {
                    assert(body@.skip(p + 1)[i - p] == dd[i]);
                }
            }
        }
    }
    let ghost x = decimal_value(digits@);
    assert(x * mul >= x) by (nonlinear_arith)
        requires mul >= 1;
    let v = match digits_u64(digits.as_str()) {
        Err(e) => return Err(e),
        Ok(v) => v,
    };
    if frac > 0xffff_ffffusize {
        return Err(ErrorKind::OutOfRange);
    }
    match v.checked_mul(mul as u64) {
        None => Err(ErrorKind::OutOfRange),
        Some(m) => Ok(Decimal { negative, mantissa: m, scale: frac as u32 }),
    }
}

} // verus!
