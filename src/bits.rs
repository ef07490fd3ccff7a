//! Recovery of symbol bits from a thresholded boolean stream.

use vstd::arithmetic::div_mod::lemma_fundamental_div_mod;
use vstd::arithmetic::div_mod::lemma_fundamental_div_mod_converse;
use vstd::prelude::*;

use crate::text::push_char;

verus! {

/// No sample of `data[s..s + n]` has polarity `val`.
pub open spec fn all_wrong(data: Seq<bool>, s: int, n: int, val: bool) -> bool {
    forall|k: int| s <= k < s + n ==> data[k] != val
}

/// A streak of `tol + 1` samples against polarity `val` starts at `s`.
pub open spec fn streak_at(data: Seq<bool>, tol: nat, val: bool, s: int) -> bool {
    &&& 0 <= s
    &&& s + tol + 1 <= data.len()
    &&& all_wrong(data, s, (tol + 1) as int, val)
}

/// `r` is where a run of polarity `val` ends when up to `tol` consecutive
/// wrong samples are tolerated: the start of the first streak of `tol + 1`
/// wrong samples, or the end of the data when there is none.
pub open spec fn is_run_end(data: Seq<bool>, tol: nat, val: bool, r: int) -> bool {
    &&& 0 <= r <= data.len()
    &&& r < data.len() ==> streak_at(data, tol, val, r)
    &&& forall|s: int| 0 <= s < r ==> !#[trigger] streak_at(data, tol, val, s)
}

pub open spec fn run_end(data: Seq<bool>, tol: nat, val: bool) -> int {
    choose|r: int| is_run_end(data, tol, val, r)
}

/// The run end is unique, so `run_end` names it.
pub proof fn lemma_run_end_unique(data: Seq<bool>, tol: nat, val: bool, r: int)
    requires
        is_run_end(data, tol, val, r),
    ensures
        run_end(data, tol, val) == r,
{
    let c = run_end(data, tol, val);
    assert(is_run_end(data, tol, val, c));
    if c < r {
        assert(streak_at(data, tol, val, c));
    } else if r < c {
        assert(streak_at(data, tol, val, r));
    }
}

/// Length of the run of polarity `val` at the start of `data`, tolerating up
/// to `scale` consecutive samples of the other polarity inside it.
pub fn run_of(data: &[bool], scale: usize, val: bool) -> (r: usize)
    ensures
        is_run_end(data@, scale as nat, val, r as int),
{
    let mut bad: usize = 0;
    let mut i: usize = 0;
    while i < data.len()
        invariant
            0 <= i <= data@.len(),
            bad <= scale,
            bad <= i,
            all_wrong(data@, i - bad, bad as int, val),
            bad < i ==> data@[i - bad - 1] == val,
            forall|s: int| 0 <= s && s + scale + 1 <= i ==> !#[trigger] streak_at(data@, scale as nat, val, s),
        decreases data.len() - i,
    {
        if data[i] != val {
            bad = bad + 1;
        } else {
            bad = 0;
        }
        if bad > scale {
            let r = i + 1 - bad;
            assert forall|s: int| 0 <= s < r implies !#[trigger] streak_at(data@, scale as nat, val, s) by {
                assert(s + scale + 1 <= i);
            }
            return r;
        }
        proof {
            let s0 = i + 1 - scale - 1;
            if s0 >= 0 {
                let w = i - bad;
                assert(data@[w] == val);
                assert(!streak_at(data@, scale as nat, val, s0));
            }
        }
        i = i + 1;
    }
    i
}

/// Input samples per symbol, held as the exact ratio `num / den`.
#[derive(Clone, Copy, Debug, PartialEq, Eq)]
pub struct Scale {
    pub num: usize,
    pub den: usize,
}

impl Scale {
    /// A scale is a positive ratio.
    pub open spec fn valid(self) -> bool {
        self.num > 0 && self.den > 0
    }
}

/// `round(scale / 2)`, halves rounded up: the tolerated streak length.
pub open spec fn half_of(scale: Scale) -> int {
    (scale.num + scale.den) / (2 * scale.den as int)
}

/// `round(found / scale)`, halves rounded up: symbols that a run stands for.
pub open spec fn symbols_of(found: int, scale: Scale) -> int {
    (2 * found * scale.den + scale.num) / (2 * scale.num as int)
}

/// `|found / scale - symbols_of(found, scale)|`, multiplied by `scale.num`.
pub open spec fn misfit_of(found: int, scale: Scale) -> int {
    let d = found * scale.den - symbols_of(found, scale) * scale.num;
    if d < 0 { -d } else { d }
}

/// The scan of `data` from position `pos`, looking for a run of polarity
/// `bit`: the accumulated misfit (in units of `1 / scale.num`) and the bits.
/// A run no longer than `half_of(scale)` is skipped (at least one position
/// is always consumed); a longer one stands for `symbols_of` copies of its
/// polarity, and the polarity sought next is inverted.
pub open spec fn scan_from(data: Seq<bool>, scale: Scale, pos: int, bit: bool) -> (int, Seq<bool>)
    decreases data.len() - pos,
{
    if pos < 0 || pos >= data.len() {
        (0, Seq::empty())
    } else {
        let found = run_end(data.subrange(pos, data.len() as int), half_of(scale) as nat, bit);
        let next = if 1 <= found <= data.len() - pos { pos + found } else { pos + 1 };
        if found <= half_of(scale) {
            scan_from(data, scale, next, bit)
        } else {
            let rest = scan_from(data, scale, next, !bit);
            (
                misfit_of(found, scale) + rest.0,
                Seq::new(symbols_of(found, scale) as nat, |_k: int| bit) + rest.1,
            )
        }
    }
}

/// The whole scan, starting with polarity `false` at position 0.
pub open spec fn scan_spec(data: Seq<bool>, scale: Scale) -> (int, Seq<bool>) {
    scan_from(data, scale, 0, false)
}

proof fn lemma_round(p: int, n: int)
    requires
        p >= 0,
        n > 0,
    ensures
        (2 * p + n) / (2 * n) == (if 2 * (p % n) >= n { p / n + 1 } else { p / n }),
        0 <= p % n < n,
{
    lemma_fundamental_div_mod(p, n);
    let q = p / n;
    let r = p % n;
    if 2 * r >= n {
        assert(2 * p + n == (q + 1) * (2 * n) + (2 * r - n)) by (nonlinear_arith)
            requires p == n * q + r;
        lemma_fundamental_div_mod_converse(2 * p + n, 2 * n, q + 1, 2 * r - n);
    } else {
        assert(2 * p + n == q * (2 * n) + (2 * r + n)) by (nonlinear_arith)
            requires p == n * q + r;
        lemma_fundamental_div_mod_converse(2 * p + n, 2 * n, q, 2 * r + n);
    }
}

/// Turns a thresholded boolean stream into symbol bits, given the number of
/// input samples per symbol. Returns the accumulated misfit between run
/// lengths and whole symbols, in units of `1 / scale.num`, and the bits.
pub fn scan(data: &[bool], scale: Scale) -> (r: (u128, Vec<bool>))
    requires
        scale.valid(),
    ensures
        r.0 == scan_spec(data@, scale).0,
        r.1@ == scan_spec(data@, scale).1,
{
    let num = scale.num as u128;
    let den = scale.den as u128;
    let half_wide: u128 = (num + den) / (2 * den);
    assert(half_wide <= num) by (nonlinear_arith)
        requires half_wide == (num + den) / (2 * den), num >= 1, den >= 1;
    let half = half_wide as usize;
    let mut i: usize = 0;
    let mut bit = false;
    let mut error: u128 = 0;
    let mut ret: Vec<bool> = Vec::new();
    let ghost total = scan_spec(data@, scale);
    while i < data.len()
        invariant
            scale.valid(),
            num == scale.num,
            den == scale.den,
            half == half_of(scale),
            0 <= i <= data@.len(),
            error <= i * num,
            error + scan_from(data@, scale, i as int, bit).0 == total.0,
            ret@ + scan_from(data@, scale, i as int, bit).1 == total.1,
        decreases data.len() - i,
    {
        let ghost rest = data@.subrange(i as int, data@.len() as int);
        let found = run_of(&data[i..data.len()], half, bit);
        proof {
            lemma_run_end_unique(rest, half as nat, bit, found as int);
        }
        if found <= half {
            let step: usize = if found >= 1 {
                found
            } else {
                1
            };
            assert(error <= (i + step) * num) by (nonlinear_arith)
                requires error <= i * num, step >= 1;
            i = i + step;
        } else {
            assert(found * den <= 0xffff_ffff_ffff_ffffu128 * 0xffff_ffff_ffff_ffffu128) by (nonlinear_arith)
                requires found <= 0xffff_ffff_ffff_ffffu128, den <= 0xffff_ffff_ffff_ffffu128;
            let p: u128 = found as u128 * den;
            assert(p / num <= p) by (nonlinear_arith)
                requires num >= 1, p >= 0;
            let q = p / num;
            let rem = p % num;
            proof {
                lemma_round(p as int, num as int);
            }
            let (k, term) = if 2 * rem >= num {
                (q + 1, num - rem)
            } else {
                (q, rem)
            };
            assert(2 * (found as int) * (den as int) == 2 * (p as int)) by (nonlinear_arith)
                requires p == found * den;
            assert(k == symbols_of(found as int, scale));
            assert(term == misfit_of(found as int, scale)) by {
                lemma_fundamental_div_mod(p as int, num as int);
                assert((found as int) * (den as int) - (k as int) * (num as int)
                    == (p as int) - (k as int) * (num as int)) by (nonlinear_arith)
                    requires p == found * den;
                if 2 * rem >= num {
                    assert((q as int + 1) * (num as int) == (q as int) * (num as int) + num) by (nonlinear_arith);
                }
                assert((num as int) * (q as int) == (q as int) * (num as int)) by (nonlinear_arith);
            }
            let ghost before = ret@;
            let mut j: u128 = 0;
            while j < k
                invariant
                    j <= k,
                    ret@ == before + Seq::new(j as nat, |_k: int| bit),
                decreases k - j,
            {
                ret.push(bit);
                j = j + 1;
                assert(ret@ =~= before + Seq::new(j as nat, |_k: int| bit));
            }
            assert(error + term <= (i + found) * num) by (nonlinear_arith)
                requires error <= i * num, term <= num, found >= 1;
            assert((i + found) * num <= 0xffff_ffff_ffff_ffffu128 * 0xffff_ffff_ffff_ffffu128) by (nonlinear_arith)
                requires i + found <= 0xffff_ffff_ffff_ffffu128, num <= 0xffff_ffff_ffff_ffffu128;
            error = error + term;
            proof {
                let s = scan_from(data@, scale, (i + found) as int, !bit);
                assert(before + (Seq::new(k as nat, |_k: int| bit) + s.1)
                    =~= (before + Seq::new(k as nat, |_k: int| bit)) + s.1);
            }
            i = i + found;
            bit = !bit;
        }
    }
    (error, ret)
}

/// Value of a bit string read most significant bit first.
pub open spec fn bits_value(s: Seq<bool>) -> nat
    decreases s.len(),
{
    if s.len() == 0 {
        0
    } else {
        2 * bits_value(s.drop_last()) + if s.last() { 1nat } else { 0nat }
    }
}

/// The `g`-th group of eight bits of `data`, as a byte.
pub open spec fn byte_at(data: Seq<bool>, g: int) -> nat {
    bits_value(data.subrange(8 * g, 8 * g + 8))
}

proof fn lemma_bits_value_bound(s: Seq<bool>)
    ensures
        bits_value(s) < vstd::arithmetic::power2::pow2(s.len()),
    decreases s.len(),
{
    vstd::arithmetic::power2::lemma_pow2_pos(0);
    if s.len() > 0 {
        lemma_bits_value_bound(s.drop_last());
        vstd::arithmetic::power2::lemma_pow2_unfold(s.len());
    }
}

/// Packs the bits eight at a time, most significant first, into characters
/// whose code is the byte; a trailing group of fewer than eight is dropped.
pub fn decode(data: &[bool]) -> (r: String)
    ensures
        r@.len() == data@.len() / 8,
        forall|g: int| 0 <= g < r@.len() ==> (#[trigger] r@[g]) as u32 as nat == byte_at(data@, g),
{
    let mut s = String::new();
    let n = data.len();
    let groups = n / 8;
    let mut g: usize = 0;
    while g < groups
        invariant
            n == data@.len(),
            groups == data@.len() / 8,
            g <= groups,
            s@.len() == g,
            forall|h: int| 0 <= h < g ==> (#[trigger] s@[h]) as u32 as nat == byte_at(data@, h),
        decreases groups - g,
    {
        assert(8 * g + 8 <= data@.len()) by (nonlinear_arith)
            requires g < groups, groups == data@.len() / 8;
        let mut val: u8 = 0;
        let mut b: usize = 0;
        while b < 8
            invariant
                g < groups,
                n == data@.len(),
                groups == data@.len() / 8,
                8 * g + 8 <= data@.len(),
                b <= 8,
                val as nat == bits_value(data@.subrange(8 * g, 8 * g + b)),
            decreases 8 - b,
        {
            let ghost part = data@.subrange(8 * g, 8 * g + b + 1);
            assert(part.drop_last() =~= data@.subrange(8 * g, 8 * g + b));
            proof {
                lemma_bits_value_bound(part);
                vstd::arithmetic::power2::lemma2_to64();
                if b + 1 < 8 {
                    vstd::arithmetic::power2::lemma_pow2_strictly_increases(b as nat + 1, 8);
                }
            }
            let bit: u8 = if data[8 * g + b] {
                1
            } else {
                0
            };
            val = val * 2 + bit;
            b = b + 1;
        }
        assert(data@.subrange(8 * g, 8 * g + 8) =~= data@.subrange(8 * g, 8 * g + b));
        push_char(&mut s, val as char);
        g = g + 1;
    }
    s
}

/// Draws bits as `X` (set) and `.` (clear).
pub fn fmt(bits: &[bool]) -> (r: String)
    ensures
        r@ == Seq::new(bits@.len(), |i: int| if bits@[i] { 'X' } else { '.' }),
{
    let mut s = String::new();
    let mut i: usize = 0;
    while i < bits.len()
        invariant
            i <= bits@.len(),
            s@ == Seq::new(i as nat, |k: int| if bits@[k] { 'X' } else { '.' }),
        decreases bits.len() - i,
    {
        push_char(&mut s, if bits[i] { 'X' } else { '.' });
        i = i + 1;
        assert(s@ =~= Seq::new(i as nat, |k: int| if bits@[k] { 'X' } else { '.' }));
    }
    s
}

/// Samples in a run of `k` symbols at `scale` (exact when `k * scale` is whole).
pub open spec fn run_samples(k: nat, scale: Scale) -> nat {
    (k * scale.num / scale.den as int) as nat
}

/// Clean alternating runs: run `j` holds `run_samples(ks[j], scale)` samples,
/// the first of polarity `bit`, each later one of the opposite polarity.
pub open spec fn square_wave(ks: Seq<nat>, scale: Scale, bit: bool) -> Seq<bool>
    decreases ks.len(),
{
    if ks.len() == 0 {
        Seq::empty()
    } else {
        Seq::new(run_samples(ks[0], scale), |_i: int| bit) + square_wave(ks.drop_first(), scale, !bit)
    }
}

/// `ks[j]` copies of the polarity of run `j`, the first being `bit`.
pub open spec fn symbol_wave(ks: Seq<nat>, bit: bool) -> Seq<bool>
    decreases ks.len(),
{
    if ks.len() == 0 {
        Seq::empty()
    } else {
        Seq::new(ks[0], |_i: int| bit) + symbol_wave(ks.drop_first(), !bit)
    }
}

/// The runs that the scanner reads back exactly: each spans a whole number
/// of samples, and is longer than the tolerated streak (which excludes only
/// a single-symbol run at a scale of exactly one sample per symbol).
pub open spec fn clean_runs(ks: Seq<nat>, scale: Scale) -> bool {
    forall|j: int|
        0 <= j < ks.len() ==> {
            &&& #[trigger] ks[j] >= 1
            &&& (ks[j] * scale.num) % (scale.den as int) == 0
            &&& !(scale.num == scale.den && ks[j] == 1)
        }
}

proof fn lemma_run_longer_than_half(k: nat, scale: Scale)
    requires
        scale.valid(),
        k >= 1,
        (k * scale.num) % (scale.den as int) == 0,
        !(scale.num == scale.den && k == 1),
    ensures
        run_samples(k, scale) > half_of(scale),
        run_samples(k, scale) * scale.den == k * scale.num,
{
    let n = scale.num as int;
    let d = scale.den as int;
    let l = run_samples(k, scale) as int;
    let h = half_of(scale);
    lemma_fundamental_div_mod(k * n, d);
    assert(l * d == k * n) by (nonlinear_arith)
        requires d * l + (k * n) % d == k * n, (k * n) % d == 0, l == (k * n) / d;
    lemma_fundamental_div_mod(n + d, 2 * d);
    assert(2 * d * h <= n + d) by (nonlinear_arith)
        requires 2 * d * h + (n + d) % (2 * d) == n + d, 0 <= (n + d) % (2 * d);
    if n < d {
        assert(h == 0) by (nonlinear_arith)
            requires n < d, h == (n + d) / (2 * d), n >= 1, d >= 1;
        assert(l >= 1) by (nonlinear_arith)
            requires l * d == k * n, k >= 1, n >= 1, d >= 1;
    } else if k >= 2 {
        assert(l > h) by (nonlinear_arith)
            requires l * d == k * n, k >= 2, n >= d, d >= 1, 2 * d * h <= n + d;
    } else {
        assert(l > h) by (nonlinear_arith)
            requires l * d == n, k == 1, n > d, d >= 1, 2 * d * h <= n + d;
    }
}

proof fn lemma_scan_square_from(data: Seq<bool>, pos: int, ks: Seq<nat>, scale: Scale, bit: bool)
    requires
        scale.valid(),
        clean_runs(ks, scale),
        0 <= pos <= data.len(),
        data.subrange(pos, data.len() as int) == square_wave(ks, scale, bit),
    ensures
        scan_from(data, scale, pos, bit) == (0int, symbol_wave(ks, bit)),
    decreases ks.len(),
{
    let sub = data.subrange(pos, data.len() as int);
    if ks.len() == 0 {
        assert(sub.len() == 0);
        assert(symbol_wave(ks, bit) =~= Seq::<bool>::empty());
    } else {
        let k = ks[0];
        let rest = ks.drop_first();
        let l = run_samples(k, scale) as int;
        let h = half_of(scale);
        lemma_run_longer_than_half(k, scale);
        assert(clean_runs(rest, scale)) by {
            assert forall|j: int| 0 <= j < rest.len() implies #[trigger] rest[j] >= 1
                && (rest[j] * scale.num) % (scale.den as int) == 0
                && !(scale.num == scale.den && rest[j] == 1) by {
                assert(rest[j] == ks[j + 1]);
            }
        }
        let tail = square_wave(rest, scale, !bit);
        assert(sub =~= Seq::new(l as nat, |_i: int| bit) + tail);
        assert forall|i: int| 0 <= i < l implies #[trigger] sub[i] == bit by {}
        if rest.len() > 0 {
            lemma_run_longer_than_half(rest[0], scale);
            let l2 = run_samples(rest[0], scale) as int;
            assert forall|i: int| l <= i < l + l2 implies #[trigger] sub[i] == !bit by {
                assert(sub[i] == tail[i - l]);
            }
        } else {
            assert(tail.len() == 0);
        }
        assert(is_run_end(sub, h as nat, bit, l)) by {
            assert forall|s: int| 0 <= s < l implies !#[trigger] streak_at(sub, h as nat, bit, s) by {
                assert(sub[s] == bit);
            }
            if l < sub.len() {
                assert(rest.len() > 0);
            }
        }
        lemma_run_end_unique(sub, h as nat, bit, l);
        assert(data.subrange(pos + l, data.len() as int) =~= tail) by {
            assert forall|i: int| 0 <= i < tail.len() implies
                #[trigger] data.subrange(pos + l, data.len() as int)[i] == tail[i] by {
                assert(sub[l + i] == tail[i]);
            }
        }
        lemma_scan_square_from(data, pos + l, rest, scale, !bit);
        assert(symbols_of(l, scale) == k) by {
            let n = scale.num as int;
            assert(2 * l * scale.den + n == (k as int) * (2 * n) + n) by (nonlinear_arith)
                requires l * scale.den == k * n;
            lemma_fundamental_div_mod_converse(2 * l * scale.den + n, 2 * n, k as int, n);
        }
        assert(misfit_of(l, scale) == 0) by {
            assert(l * scale.den - k * scale.num == 0) by (nonlinear_arith)
                requires l * scale.den == k * scale.num;
        }
    }
}

/// A clean square wave whose runs are whole multiples of the scale, starting
/// with polarity `false`, is read back as exactly that many copies of each
/// run's polarity, with no misfit.
pub proof fn lemma_scan_square_wave(ks: Seq<nat>, scale: Scale)
    requires
        scale.valid(),
        clean_runs(ks, scale),
    ensures
        scan_spec(square_wave(ks, scale, false), scale) == (0int, symbol_wave(ks, false)),
{
    let data = square_wave(ks, scale, false);
    assert(data.subrange(0, data.len() as int) =~= data);
    lemma_scan_square_from(data, 0, ks, scale, false);
}

} // verus!
