//! Planning of the FFT-based analysers: which windows are read, in which
//! order the bins are shown, and how rows and levels are rendered.

use vstd::arithmetic::div_mod::{lemma_fundamental_div_mod, lemma_fundamental_div_mod_converse};
use vstd::prelude::*;

use crate::error::ErrorKind;
use crate::text::{decimal_text, push_char, push_decimal};

verus! {

/// How input samples are weighted before an FFT.
#[derive(Debug, PartialEq, Eq, Structural, Copy, Clone)]
pub enum Windowing {
    Rectangular,
    BlackmanHarris,
}

/// Width of each FFT and its windowing.
#[derive(Debug, PartialEq, Eq, Structural, Copy, Clone)]
pub struct FftConfig {
    pub width: usize,
    pub windowing: Windowing,
}

/// `n` is a power of two (1, 2, 4, ...).
pub open spec fn power_of_two(n: nat) -> bool
    decreases n,
{
    if n == 1 {
        true
    } else if n == 0 || n % 2 == 1 {
        false
    } else {
        power_of_two(n / 2)
    }
}

/// Whether `n` is a power of two, as a radix-4 FFT needs.
pub fn is_power_of_two(n: usize) -> (r: bool)
    ensures
        r == power_of_two(n as nat),
{
    let mut m = n;
    while m > 1 && m % 2 == 0
        invariant
            power_of_two(m as nat) == power_of_two(n as nat),
        decreases m,
    {
        m = m / 2;
    }
    m == 1
}

/// Bins of one FFT rotated so that zero frequency sits in the middle: the
/// upper half first, then the lower half.
pub fn rotate_halves<T: Copy>(v: &[T]) -> (r: Vec<T>)
    ensures
        r@ == v@.skip((v@.len() / 2) as int) + v@.take((v@.len() / 2) as int),
{
    let n = v.len();
    let h = n / 2;
    let mut out: Vec<T> = Vec::new();
    let mut i: usize = h;
    while i < n
        invariant
            n == v@.len(),
            h == n / 2,
            h <= i <= n,
            out@ == v@.subrange(h as int, i as int),
        decreases n - i,
    {
        out.push(v[i]);
        i = i + 1;
        assert(out@ =~= v@.subrange(h as int, i as int));
    }
    let mut j: usize = 0;
    while j < h
        invariant
            n == v@.len(),
            h == n / 2,
            j <= h,
            out@ == v@.subrange(h as int, n as int) + v@.subrange(0, j as int),
        decreases h - j,
    {
        out.push(v[j]);
        j = j + 1;
        assert(out@ =~= v@.subrange(h as int, n as int) + v@.subrange(0, j as int));
    }
    assert(out@ =~= v@.skip(h as int) + v@.take(h as int));
    out
}

/// The sample interval a short-time FFT covers: the one given, or the
/// whole source but its last `width` samples.
pub open spec fn fft_interval(len: u64, slice: Option<(u64, u64)>, width: usize) -> Option<(u64, u64)> {
    match slice {
        Some((start, end)) => Some((start, end)),
        None => if len >= width {
            Some((0u64, (len - width) as u64))
        } else {
            None
        },
    }
}

/// Whether a short-time FFT of `output_len` rows over `(start, end)` of a
/// source of `len` samples can be taken.
pub open spec fn fft_interval_ok(len: u64, start: u64, end: u64, output_len: usize) -> bool {
    end > start && end < len && end - start > output_len
}

/// `start + round(i * (end - start) / output_len)`, halves rounded up.
pub open spec fn row_start(start: u64, end: u64, output_len: usize, i: int) -> int {
    start + (2 * i * (end - start) + output_len) / (2 * output_len as int)
}

/// Where each row of a short-time FFT starts reading: rows are spread
/// evenly over the interval.
pub fn fft_rows(len: u64, slice: Option<(u64, u64)>, width: usize, output_len: usize) -> (r: Result<Vec<u64>, ErrorKind>)
    ensures
        (fft_interval(len, slice, width) matches Some((s, e)) && fft_interval_ok(len, s, e, output_len))
            <==> r is Ok,
        r matches Err(e) ==> e == ErrorKind::Configuration,
        r matches Ok(rows) ==> (fft_interval(len, slice, width) matches Some((s, e)) && rows@.len()
            == output_len && forall|i: int| 0 <= i < output_len ==> #[trigger] rows@[i] == row_start(
            s,
            e,
            output_len,
            i,
        )),
{
    let (start, end) = match slice {
        Some((s, e)) => (s, e),
        None => {
            if len < width as u64 {
                return Err(ErrorKind::Configuration);
            }
            (0u64, len - width as u64)
        },
    };
    if !(end > start && end < len && end - start > output_len as u64) {
        return Err(ErrorKind::Configuration);
    }
    let visible = (end - start) as u128;
    let out = output_len as u128;
    let mut rows: Vec<u64> = Vec::new();
    let mut i: usize = 0;
    while i < output_len
        invariant
            fft_interval(len, slice, width) == Some((start, end)),
            visible == end - start,
            out == output_len,
            end > start,
            visible > out,
            i <= output_len,
            rows@.len() == i,
            forall|k: int| 0 <= k < i ==> #[trigger] rows@[k] == row_start(start, end, output_len, k),
        decreases output_len - i,
    {
        assert(i * visible < out * visible) by (nonlinear_arith)
            requires i < out, visible > 0;
        assert(out * visible <= 0xffff_ffff_ffff_ffffu128 * 0xffff_ffff_ffff_ffffu128) by (nonlinear_arith)
            requires out <= 0xffff_ffff_ffff_ffffu128, visible <= 0xffff_ffff_ffff_ffffu128;
        let p = (i as u128) * visible;
        let q = p / out;
        let rem = p % out;
        proof {
            lemma_fundamental_div_mod(p as int, out as int);
            assert(q < visible) by (nonlinear_arith)
                requires p == out * q + rem, 0 <= rem, p < out * visible, out > 0;
            let k = if 2 * rem >= out { q + 1 } else { q as int };
            if 2 * rem >= out {
                assert(2 * p + out == (q + 1) * (2 * out) + (2 * rem - out)) by (nonlinear_arith)
                    requires p == out * q + rem;
                lemma_fundamental_div_mod_converse(2 * p + out, 2 * out, q + 1, 2 * rem - out);
            } else {
                assert(2 * p + out == q * (2 * out) + (2 * rem + out)) by (nonlinear_arith)
                    requires p == out * q + rem;
                lemma_fundamental_div_mod_converse(2 * p + out, 2 * out, q as int, 2 * rem + out);
            }
            assert(2 * i * (end - start) == 2 * p) by (nonlinear_arith)
                requires p == i * visible, visible == end - start;
        }
        let step = if 2 * rem >= out {
            q + 1
        } else {
            q
        };
        rows.push(start + step as u64);
        i = i + 1;
    }
    Ok(rows)
}

/// Windows read by a sparkline: every `stride` samples while the window
/// start is below `len - width`.
pub open spec fn spark_count(len: u64, width: usize, stride: u64) -> int {
    (len - width + stride - 1) / (stride as int)
}

/// Whether a radix-4 analyser of `width` with `stride` can run on `len` samples.
pub open spec fn radix_ok(len: u64, width: usize, stride: u64) -> bool {
    power_of_two(width as nat) && stride > 0 && len >= width
}

/// Offsets of the windows of a sparkline FFT.
pub fn spark_offsets(len: u64, width: usize, stride: u64) -> (r: Result<Vec<u64>, ErrorKind>)
    ensures
        radix_ok(len, width, stride) <==> r is Ok,
        r matches Err(e) ==> e == ErrorKind::Configuration,
        r matches Ok(offs) ==> (offs@.len() == spark_count(len, width, stride) && forall|k: int|
            0 <= k < offs@.len() ==> #[trigger] offs@[k] == k * stride),
{
    if !is_power_of_two(width) || stride == 0 || len < width as u64 {
        return Err(ErrorKind::Configuration);
    }
    let limit = len - width as u64;
    let wide = (limit as u128 + stride as u128 - 1) / stride as u128;
    assert(wide <= limit) by (nonlinear_arith)
        requires wide == (limit + stride - 1) / (stride as int), stride >= 1, limit >= 0;
    let count = wide as u64;
    let mut offs: Vec<u64> = Vec::new();
    let mut k: u64 = 0;
    while k < count
        invariant
            count == spark_count(len, width, stride),
            limit == len - width,
            stride > 0,
            k <= count,
            offs@.len() == k,
            forall|j: int| 0 <= j < k ==> #[trigger] offs@[j] == j * stride,
        decreases count - k,
    {
        assert(k * stride < limit) by (nonlinear_arith)
            requires k < count, count == (limit + stride - 1) / (stride as int), stride > 0;
        offs.push(k * stride);
        k = k + 1;
    }
    Ok(offs)
}

/// The glyph for a quantised magnitude: 0 below the range, 8 and above at
/// or over it, 1 to 7 for the ramp in between.
pub open spec fn glyph_of(level: usize) -> char {
    if level == 0 {
        ' '
    } else if level == 1 {
        '▁'
    } else if level == 2 {
        '▂'
    } else if level == 3 {
        '▃'
    } else if level == 4 {
        '▄'
    } else if level == 5 {
        '▅'
    } else if level == 6 {
        '▆'
    } else if level == 7 {
        '▇'
    } else {
        '█'
    }
}

/// The glyph for one quantised magnitude.
pub fn spark_glyph(level: usize) -> (r: char)
    ensures
        r == glyph_of(level),
{
    if level == 0 {
        ' '
    } else if level == 1 {
        '▁'
    } else if level == 2 {
        '▂'
    } else if level == 3 {
        '▃'
    } else if level == 4 {
        '▄'
    } else if level == 5 {
        '▅'
    } else if level == 6 {
        '▆'
    } else if level == 7 {
        '▇'
    } else {
        '█'
    }
}

/// One sparkline row: a glyph per bin, framed by `│`.
pub fn spark_row(levels: &[usize]) -> (r: String)
    ensures
        r@ == seq!['│'] + Seq::new(levels@.len(), |i: int| glyph_of(levels@[i])) + seq!['│'],
{
    let mut s = String::new();
    push_char(&mut s, '│');
    let mut i: usize = 0;
    while i < levels.len()
        invariant
            i <= levels@.len(),
            s@ == seq!['│'] + Seq::new(i as nat, |k: int| glyph_of(levels@[k])),
        decreases levels.len() - i,
    {
        push_char(&mut s, spark_glyph(levels[i]));
        i = i + 1;
        assert(s@ =~= seq!['│'] + Seq::new(i as nat, |k: int| glyph_of(levels@[k])));
    }
    push_char(&mut s, '│');
    s
}

/// Number of windows the bucket slicer reads: `(len - width) / stride`.
pub open spec fn bucket_count(len: u64, width: usize, stride: u64) -> int {
    (len - width) / (stride as int)
}

/// Offsets of the windows of the frequency-bucket slicer, which supports
/// exactly two levels.
pub fn bucket_offsets(len: u64, width: usize, stride: u64, levels: usize) -> (r: Result<Vec<u64>, ErrorKind>)
    ensures
        levels != 2 ==> r == Err::<Vec<u64>, ErrorKind>(ErrorKind::Unsupported),
        levels == 2 && !radix_ok(len, width, stride) ==> r == Err::<Vec<u64>, ErrorKind>(
            ErrorKind::Configuration,
        ),
        levels == 2 && radix_ok(len, width, stride) ==> (r matches Ok(offs) && offs@.len()
            == bucket_count(len, width, stride) && forall|k: int|
            0 <= k < offs@.len() ==> #[trigger] offs@[k] == k * stride),
{
    if levels != 2 {
        return Err(ErrorKind::Unsupported);
    }
    if !is_power_of_two(width) || stride == 0 || len < width as u64 {
        return Err(ErrorKind::Configuration);
    }
    let total = (len - width as u64) / stride;
    let mut offs: Vec<u64> = Vec::new();
    let mut k: u64 = 0;
    while k < total
        invariant
            total == bucket_count(len, width, stride),
            len >= width,
            stride > 0,
            k <= total,
            offs@.len() == k,
            forall|j: int| 0 <= j < k ==> #[trigger] offs@[j] == j * stride,
        decreases total - k,
    {
        assert(k * stride <= len) by (nonlinear_arith)
            requires k < total, total == (len - width) / (stride as int), stride > 0, len >= width;
        offs.push(k * stride);
        k = k + 1;
    }
    Ok(offs)
}

/// The level of one bucket window: 0 when the lower half of the spectrum
/// holds less than the upper half, else 1.
pub fn bucket_level(lower_is_less: bool) -> (r: usize)
    ensures
        r == if lower_is_less { 0usize } else { 1usize },
{
    if lower_is_less {
        0
    } else {
        1
    }
}

/// Levels emitted by the frequency-bucket slicer, one per window.
#[derive(Debug, Clone)]
pub struct Levels {
    pub vals: Vec<usize>,
}

/// The levels written one after another in decimal.
pub open spec fn levels_text(vals: Seq<usize>) -> Seq<char>
    decreases vals.len(),
{
    if vals.len() == 0 {
        Seq::empty()
    } else {
        levels_text(vals.drop_last()) + decimal_text(vals.last() as nat)
    }
}

impl Levels {
    /// The single line that the slicer prints.
    pub fn to_line(&self) -> (r: String)
        ensures
            r@ == levels_text(self.vals@),
    {
        let mut s = String::new();
        let mut i: usize = 0;
        while i < self.vals.len()
            invariant
                i <= self.vals@.len(),
                s@ == levels_text(self.vals@.take(i as int)),
            decreases self.vals.len() - i,
        {
            push_decimal(&mut s, self.vals[i] as u64);
            i = i + 1;
            assert(self.vals@.take(i as int).drop_last() =~= self.vals@.take(i - 1));
        }
        assert(self.vals@.take(i as int) =~= self.vals@);
        s
    }
}

} // verus!
