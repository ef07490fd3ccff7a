//! The sources of the pipeline, as far as their shape goes: validation at
//! construction, lengths, sample rates, and how a read at an offset is
//! turned into a read of the stage below.

use vstd::arithmetic::div_mod::lemma_div_denominator;
use vstd::prelude::*;

use crate::error::ErrorKind;
use crate::si::{pow10, Decimal};

verus! {

/// A sum-of-cosines test signal.
pub struct Gen {
    sample_rate: u64,
    seconds: Decimal,
    cos: Vec<i64>,
}

/// `floor(seconds * sample_rate)`, capped at `u64::MAX`.
pub open spec fn gen_len(seconds: Decimal, sample_rate: u64) -> nat {
    let exact = (seconds.mantissa * sample_rate) as nat / pow10(seconds.scale as nat);
    if exact > u64::MAX { u64::MAX as nat } else { exact }
}

proof fn lemma_pow10_positive(e: nat)
    ensures
        pow10(e) >= 1,
    decreases e,
{
    if e > 0 {
        lemma_pow10_positive((e - 1) as nat);
    }
}

impl Gen {
    pub closed spec fn spec_sample_rate(&self) -> u64 {
        self.sample_rate
    }

    pub closed spec fn spec_seconds(&self) -> Decimal {
        self.seconds
    }

    pub closed spec fn spec_cos(&self) -> Seq<i64> {
        self.cos@
    }

    /// A generator needs at least one frequency, a sample rate above zero,
    /// and a duration above zero.
    pub fn new(cos: Vec<i64>, sample_rate: u64, seconds: Decimal) -> (r: Result<Gen, ErrorKind>)
        ensures
            (cos@.len() > 0 && sample_rate > 0 && seconds.spec_is_positive()) <==> r is Ok,
            r is Err ==> r == Err::<Gen, ErrorKind>(ErrorKind::Configuration),
            r matches Ok(g) ==> (g.spec_cos() == cos@ && g.spec_sample_rate() == sample_rate
                && g.spec_seconds() == seconds),
    {
        if cos.len() == 0 || sample_rate == 0 || !seconds.is_positive() {
            return Err(ErrorKind::Configuration);
        }
        Ok(Gen { cos, sample_rate, seconds })
    }

    /// Samples per second.
    pub fn sample_rate(&self) -> (r: u64)
        ensures
            r == self.spec_sample_rate(),
    {
        self.sample_rate
    }

    /// The frequencies summed, in Hz.
    pub fn cos(&self) -> (r: &Vec<i64>)
        ensures
            r@ == self.spec_cos(),
    {
        &self.cos
    }

    /// Number of samples: `floor(seconds * sample_rate)`.
    pub fn len(&self) -> (r: u64)
        ensures
            r == gen_len(self.spec_seconds(), self.spec_sample_rate()),
    {
        let m = self.seconds.mantissa as u128;
        let sr = self.sample_rate as u128;
        assert(m * sr <= 0xffff_ffff_ffff_ffffu128 * 0xffff_ffff_ffff_ffffu128) by (nonlinear_arith)
            requires m <= 0xffff_ffff_ffff_ffffu128, sr <= 0xffff_ffff_ffff_ffffu128;
        let x = m * sr;
        let ghost scale = self.seconds.scale as nat;
        let mut v: u128 = x;
        let mut k: u32 = 0;
        assert(pow10(0) == 1);
        while k < self.seconds.scale && v > 0
            invariant
                k <= scale,
                scale == self.seconds.scale,
                v == x as nat / pow10(k as nat),
            decreases scale - k,
        {
            proof {
                lemma_pow10_positive(k as nat);
                lemma_div_denominator(x as int, pow10(k as nat) as int, 10);
                assert(pow10(k as nat) * 10 == pow10((k + 1) as nat));
            }
            v = v / 10;
            k = k + 1;
        }
        proof {
            lemma_pow10_positive(scale);
            lemma_pow10_positive(k as nat);
            if v == 0 && k < scale {
                lemma_pow10_grows(k as nat, scale);
                vstd::arithmetic::div_mod::lemma_div_is_ordered_by_denominator(
                    x as int,
                    pow10(k as nat) as int,
                    pow10(scale) as int,
                );
            }
        }
        if v > 0xffff_ffff_ffff_ffffu128 {
            0xffff_ffff_ffff_ffffu64
        } else {
            v as u64
        }
    }
}

impl Gen {
    /// Samples a read of `buf_len` at `off` returns: `min(buf_len, len - off)`,
    /// none at or past the end.
    pub fn read_count(&self, off: u64, buf_len: usize) -> (r: usize)
        ensures
            off >= gen_len(self.spec_seconds(), self.spec_sample_rate()) ==> r == 0,
            off < gen_len(self.spec_seconds(), self.spec_sample_rate()) ==> r == if buf_len
                <= gen_len(self.spec_seconds(), self.spec_sample_rate()) - off {
                buf_len as int
            } else {
                gen_len(self.spec_seconds(), self.spec_sample_rate()) - off
            },
    {
        let len = self.len();
        if off >= len {
            0
        } else if (buf_len as u64) <= len - off {
            buf_len
        } else {
            (len - off) as usize
        }
    }
}

proof fn lemma_pow10_grows(a: nat, b: nat)
    requires
        a <= b,
    ensures
        pow10(a) <= pow10(b),
    decreases b - a,
{
    if a < b {
        lemma_pow10_grows(a, (b - 1) as nat);
        lemma_pow10_positive((b - 1) as nat);
    }
}

/// A frequency shift (mixer) by `frequency` Hz over the stage `inner`.
pub struct Shift<S> {
    inner: S,
    frequency: i64,
    sample_rate: u64,
}

/// The shift stays under the Nyquist frequency: `|f| < sample_rate / 2`.
pub open spec fn shift_allowed(frequency: i64, sample_rate: u64) -> bool {
    2 * (if frequency < 0 { -frequency } else { frequency as int }) < sample_rate
}

impl<S> Shift<S> {
    pub closed spec fn spec_frequency(&self) -> i64 {
        self.frequency
    }

    pub closed spec fn spec_sample_rate(&self) -> u64 {
        self.sample_rate
    }

    pub closed spec fn spec_inner(&self) -> &S {
        &self.inner
    }

    /// frequency: complete waves per second; sample rate: samples per
    /// second. Refused unless the shift is under half the sample rate.
    pub fn new(inner: S, frequency: i64, sample_rate: u64) -> (r: Result<Shift<S>, ErrorKind>)
        ensures
            shift_allowed(frequency, sample_rate) <==> r is Ok,
            r matches Err(e) ==> e == ErrorKind::Configuration,
            r matches Ok(s) ==> (s.spec_frequency() == frequency && s.spec_sample_rate() == sample_rate
                && *s.spec_inner() == inner),
    {
        let f = frequency as i128;
        let magnitude = if f < 0 {
            -f
        } else {
            f
        };
        if 2 * magnitude >= sample_rate as i128 {
            return Err(ErrorKind::Configuration);
        }
        Ok(Shift { inner, frequency, sample_rate })
    }

    /// The shift in Hz.
    pub fn frequency(&self) -> (r: i64)
        ensures
            r == self.spec_frequency(),
    {
        self.frequency
    }

    /// Samples per second, unchanged by the shift.
    pub fn sample_rate(&self) -> (r: u64)
        ensures
            r == self.spec_sample_rate(),
    {
        self.sample_rate
    }

    /// The stage being shifted.
    pub fn inner(&self) -> (r: &S)
        ensures
            *r == *self.spec_inner(),
    {
        &self.inner
    }
}

/// A decimating low-pass filter over the stage `inner`, whose kernel has
/// `size` taps.
pub struct LowPass<S> {
    inner: S,
    inner_len: u64,
    frequency: u64,
    decimate: u64,
    original_sample_rate: u64,
    size: usize,
}

/// A filter needs at least two taps, a decimation of at least one, and at
/// least a kernel's worth of input.
pub open spec fn lowpass_allowed(inner_len: u64, decimate: u64, size: usize) -> bool {
    size >= 2 && decimate >= 1 && inner_len >= size
}

impl<S> LowPass<S> {
    pub closed spec fn spec_inner_len(&self) -> u64 {
        self.inner_len
    }

    pub closed spec fn spec_frequency(&self) -> u64 {
        self.frequency
    }

    pub closed spec fn spec_decimate(&self) -> u64 {
        self.decimate
    }

    pub closed spec fn spec_original_sample_rate(&self) -> u64 {
        self.original_sample_rate
    }

    pub closed spec fn spec_size(&self) -> usize {
        self.size
    }

    pub closed spec fn spec_inner(&self) -> &S {
        &self.inner
    }

    pub closed spec fn wf(&self) -> bool {
        lowpass_allowed(self.inner_len, self.decimate, self.size)
    }

    /// Cuts `inner` (of `inner_len` samples at `original_sample_rate`) off at
    /// `frequency` Hz and keeps one sample in `decimate`.
    pub fn new(
        inner: S,
        inner_len: u64,
        frequency: u64,
        decimate: u64,
        original_sample_rate: u64,
        size: usize,
    ) -> (r: Result<LowPass<S>, ErrorKind>)
        ensures
            lowpass_allowed(inner_len, decimate, size) <==> r is Ok,
            r matches Err(e) ==> e == ErrorKind::Configuration,
            r matches Ok(l) ==> (l.wf() && l.spec_inner_len() == inner_len && l.spec_frequency()
                == frequency && l.spec_decimate() == decimate && l.spec_original_sample_rate()
                == original_sample_rate && l.spec_size() == size && *l.spec_inner() == inner),
    {
        if size < 2 || decimate == 0 || inner_len < size as u64 {
            return Err(ErrorKind::Configuration);
        }
        Ok(LowPass { inner, inner_len, frequency, decimate, original_sample_rate, size })
    }

    /// The stage being filtered.
    pub fn inner(&self) -> (r: &S)
        ensures
            *r == *self.spec_inner(),
    {
        &self.inner
    }

    /// The cut-off in Hz.
    pub fn frequency(&self) -> (r: u64)
        ensures
            r == self.spec_frequency(),
    {
        self.frequency
    }

    /// Input samples per output sample.
    pub fn decimate(&self) -> (r: u64)
        ensures
            r == self.spec_decimate(),
    {
        self.decimate
    }

    /// Taps in the kernel.
    pub fn size(&self) -> (r: usize)
        ensures
            r == self.spec_size(),
    {
        self.size
    }

    /// Sample rate of the input.
    pub fn original_sample_rate(&self) -> (r: u64)
        ensures
            r == self.spec_original_sample_rate(),
    {
        self.original_sample_rate
    }

    /// Output samples: `1 + (inner_len - size) / decimate`.
    pub fn len(&self) -> (r: u64)
        requires
            self.wf(),
        ensures
            r == self.spec_len(),
    {
        let q = (self.inner_len - self.size as u64) / self.decimate;
        assert(q < 0xffff_ffff_ffff_ffffu64) by (nonlinear_arith)
            requires q == (self.inner_len - self.size) / (self.decimate as int), self.size >= 2,
                self.decimate >= 1, self.inner_len <= 0xffff_ffff_ffff_ffffu64;
        1 + q
    }

    /// Output samples per second: the input rate over the decimation.
    pub fn sample_rate(&self) -> (r: u64)
        requires
            self.wf(),
        ensures
            r == self.spec_original_sample_rate() / self.spec_decimate(),
    {
        self.original_sample_rate / self.decimate
    }

    /// Where to read the input for `buf_len` outputs at output offset `off`:
    /// `buf_len * decimate + size` samples from `off * decimate`; `None`
    /// when that does not fit.
    pub fn input_window(&self, off: u64, buf_len: usize) -> (r: Option<(u64, usize)>)
        requires
            self.wf(),
        ensures
            r is Some <==> (off * self.spec_decimate() <= u64::MAX && buf_len
                * self.spec_decimate() + self.spec_size() <= usize::MAX),
            r matches Some((at, n)) ==> (at == off * self.spec_decimate() && n == buf_len
                * self.spec_decimate() + self.spec_size()),
    {
        let at = match off.checked_mul(self.decimate) {
            None => return None,
            Some(at) => at,
        };
        if self.decimate > usize::MAX as u64 {
            assert(buf_len * self.decimate + self.size > usize::MAX || buf_len == 0)
                by (nonlinear_arith)
                requires self.decimate > usize::MAX, self.size >= 2;
            if buf_len == 0 {
                return Some((at, self.size));
            }
            return None;
        }
        match buf_len.checked_mul(self.decimate as usize) {
            None => None,
            Some(n) => match n.checked_add(self.size) {
                None => None,
                Some(total) => Some((at, total)),
            },
        }
    }

    /// Number of output samples: `1 + (inner_len - size) / decimate`.
    pub open spec fn spec_len(&self) -> int {
        1 + (self.spec_inner_len() - self.spec_size()) / (self.spec_decimate() as int)
    }

    /// Outputs a read of `buf_len` returns when `valid` input samples
    /// arrived: one for each position at which the whole kernel fits
    /// (`(valid - size) / decimate + 1`), at most `buf_len`.
    pub open spec fn output_count_spec(&self, buf_len: int, valid: int) -> int {
        if valid < self.spec_size() {
            0
        } else {
            let fit = (valid - self.spec_size()) / (self.spec_decimate() as int) + 1;
            if buf_len < fit { buf_len } else { fit }
        }
    }

    /// Outputs produced by a read of `buf_len` from `valid` input samples.
    pub fn output_count(&self, buf_len: usize, valid: usize) -> (r: usize)
        requires
            self.wf(),
        ensures
            r == self.output_count_spec(buf_len as int, valid as int),
    {
        if valid < self.size {
            0
        } else {
            let q = (valid - self.size) as u64 / self.decimate;
            if (buf_len as u64) <= q {
                buf_len
            } else {
                (q + 1) as usize
            }
        }
    }

    /// Position in the convolution of `valid` inputs of output `i`:
    /// `size / 2 + i * decimate`, where the kernel covers inputs
    /// `i * decimate` to `i * decimate + size - 1`, all of them present.
    pub fn tap_index(&self, valid: usize, i: usize) -> (r: usize)
        requires
            self.wf(),
            valid >= self.spec_size(),
            i <= (valid - self.spec_size()) / (self.spec_decimate() as int),
        ensures
            r == self.spec_size() / 2 + i * self.spec_decimate(),
            i * self.spec_decimate() + self.spec_size() <= valid,
            r < valid + self.spec_size() / 2 - 1,
    {
        assert(i * self.decimate + self.size <= valid) by (nonlinear_arith)
            requires i <= (valid - self.size) / (self.decimate as int), valid >= self.size,
                self.decimate >= 1, i >= 0;
        assert(i == 0 || self.decimate <= valid) by (nonlinear_arith)
            requires i * self.decimate + self.size <= valid, self.decimate >= 1, i >= 0;
        let d: usize = if i == 0 {
            0
        } else {
            self.decimate as usize
        };
        assert(i * d == i * self.decimate) by (nonlinear_arith)
            requires i == 0 || d == self.decimate;
        self.size / 2 + i * d
    }

    /// A read of `n` samples at `off < len` returns `min(n, len - off)`
    /// samples, given that the stage below returns all the input asked of
    /// it as far as its end: short reads happen only at the tail.
    pub proof fn lemma_read_count(&self, off: int, n: int)
        requires
            self.wf(),
            0 <= off < self.spec_len(),
            n >= 0,
        ensures
            ({
                let want = n * self.spec_decimate() + self.spec_size();
                let left = self.spec_inner_len() - off * self.spec_decimate();
                let valid = if want <= left { want } else { left };
                self.output_count_spec(n, valid) == if n <= self.spec_len() - off {
                    n
                } else {
                    self.spec_len() - off
                }
            }),
    {
        let d = self.spec_decimate() as int;
        let size = self.spec_size() as int;
        let l = self.spec_inner_len() - size;
        let q = l / d;
        let want = n * d + size;
        let left = self.spec_inner_len() - off * d;
        vstd::arithmetic::div_mod::lemma_fundamental_div_mod(l, d);
        assert(off * d <= q * d) by (nonlinear_arith)
            requires off <= q, d >= 1;
        assert((l - off * d) / d == q - off) by {
            assert(l - off * d == (q - off) * d + l % d) by (nonlinear_arith)
                requires l == d * q + l % d;
            vstd::arithmetic::div_mod::lemma_fundamental_div_mod_converse(l - off * d, d, q - off, l % d);
        }
        if want <= left {
            assert(n * d <= l - off * d);
            assert(n <= q - off) by (nonlinear_arith)
                requires n * d <= l - off * d, (l - off * d) / d == q - off, d >= 1, n >= 0,
                    l - off * d >= 0;
            assert((want - size) / d == n) by (nonlinear_arith)
                requires want - size == n * d, d >= 1;
        }
    }
}

/// The writer's next offset after a read of `read` samples at `off` from a
/// source of `len` samples: a read of nothing before the end is a broken
/// source.
pub fn write_step(off: u64, read: usize, len: u64) -> (r: Result<u64, ErrorKind>)
    requires
        off < len,
    ensures
        read == 0 ==> r == Err::<u64, ErrorKind>(ErrorKind::ShortRead),
        read > 0 && off + read <= u64::MAX ==> r == Ok::<u64, ErrorKind>((off + read) as u64),
        read > 0 && off + read > u64::MAX ==> r == Err::<u64, ErrorKind>(ErrorKind::ShortRead),
{
    if read == 0 {
        return Err(ErrorKind::ShortRead);
    }
    match off.checked_add(read as u64) {
        None => Err(ErrorKind::ShortRead),
        Some(next) => Ok(next),
    }
}

} // verus!
