//! On-disk sample formats, file naming, and the geometry of a file source.

use vstd::prelude::*;

use byteorder::ByteOrder;

use crate::error::ErrorKind;
use crate::text::{decimal_text, push_decimal, push_str, str_eq};

verus! {

/// How one complex sample is laid out on disk.
#[derive(Debug, PartialEq, Eq, Structural, Copy, Clone)]
pub enum FileFormat {
    /// GNU-Radio: little-endian 32-bit float pairs.
    ComplexFloat32,
    /// HackRF: signed 8-bit pairs.
    ComplexInt8,
    /// RTL-SDR: unsigned 8-bit pairs.
    ComplexUint8,
    /// Signed little-endian 16-bit pairs.
    ComplexInt16,
}

impl FileFormat {
    pub open spec fn spec_type_bytes(self) -> nat {
        match self {
            FileFormat::ComplexFloat32 => 4,
            FileFormat::ComplexInt8 | FileFormat::ComplexUint8 => 1,
            FileFormat::ComplexInt16 => 2,
        }
    }

    pub open spec fn spec_pair_bytes(self) -> nat {
        2 * self.spec_type_bytes()
    }

    /// Bytes in one component (real or imaginary) of a sample.
    pub fn type_bytes(&self) -> (r: u64)
        ensures
            r == self.spec_type_bytes(),
    {
        match *self {
            FileFormat::ComplexFloat32 => 4,
            FileFormat::ComplexInt8 | FileFormat::ComplexUint8 => 1,
            FileFormat::ComplexInt16 => 2,
        }
    }

    /// Bytes in one complex sample.
    pub fn pair_bytes(&self) -> (r: u64)
        ensures
            r == self.spec_pair_bytes(),
    {
        self.type_bytes() * 2
    }
}

/// Format and sample rate of a sample file.
#[derive(Debug, Clone, Copy, PartialEq, Eq, Structural)]
pub struct FileDetails {
    pub format: FileFormat,
    pub sample_rate: u64,
}

/// The format that a file extension names, if any.
pub open spec fn extension_format(ext: Seq<char>) -> Option<FileFormat> {
    if ext == "cf32"@ || ext == "fc32"@ {
        Some(FileFormat::ComplexFloat32)
    } else if ext == "cs8"@ || ext == "sc8"@ || ext == "c8"@ {
        Some(FileFormat::ComplexInt8)
    } else if ext == "cu8"@ || ext == "su8"@ {
        Some(FileFormat::ComplexUint8)
    } else if ext == "cs16"@ || ext == "sc16"@ || ext == "c16"@ {
        Some(FileFormat::ComplexInt16)
    } else {
        None
    }
}

/// Reads a file extension (without its dot) as a format.
pub fn guess_from_extension(ext: &str) -> (r: Option<FileFormat>)
    ensures
        r == extension_format(ext@),
{
    if str_eq(ext, "cf32") || str_eq(ext, "fc32") {
        Some(FileFormat::ComplexFloat32)
    } else if str_eq(ext, "cs8") || str_eq(ext, "sc8") || str_eq(ext, "c8") {
        Some(FileFormat::ComplexInt8)
    } else if str_eq(ext, "cu8") || str_eq(ext, "su8") {
        Some(FileFormat::ComplexUint8)
    } else if str_eq(ext, "cs16") || str_eq(ext, "sc16") || str_eq(ext, "c16") {
        Some(FileFormat::ComplexInt16)
    } else {
        None
    }
}

/// One component of a sample as stored: the raw integer, before scaling.
/// For `Float32` it is the IEEE-754 bit pattern.
#[derive(Debug, PartialEq, Eq, Structural, Copy, Clone)]
pub enum RawValue {
    Float32(u32),
    Int8(i8),
    Uint8(u8),
    Int16(i16),
}

/// Two bytes, least significant first, as a signed 16-bit value.
pub open spec fn le_i16(b0: u8, b1: u8) -> int {
    let u = b0 + 256 * b1;
    if u >= 32768 { u - 65536 } else { u }
}

/// Four bytes, least significant first, as an unsigned 32-bit value.
pub open spec fn le_u32(b0: u8, b1: u8, b2: u8, b3: u8) -> int {
    b0 + 256 * b1 + 65536 * b2 + 16777216 * b3
}

/// Relies on byteorder's `LittleEndian::read_i16`: the first two bytes, low
/// byte first, as an `i16`.
#[verifier::external_body]
fn read_i16_le(b: &[u8]) -> (r: i16)
    requires
        b@.len() == 2,
    ensures
        r as int == le_i16(b@[0], b@[1]),
{
    byteorder::LittleEndian::read_i16(b)
}

/// Relies on byteorder's `LittleEndian::read_u32`: the first four bytes, low
/// byte first, as a `u32`.
#[verifier::external_body]
fn read_u32_le(b: &[u8]) -> (r: u32)
    requires
        b@.len() == 4,
    ensures
        r as int == le_u32(b@[0], b@[1], b@[2], b@[3]),
{
    byteorder::LittleEndian::read_u32(b)
}

/// The component stored in `b`, which holds exactly one component.
pub open spec fn raw_value(format: FileFormat, b: Seq<u8>) -> RawValue {
    match format {
        FileFormat::ComplexFloat32 => RawValue::Float32(le_u32(b[0], b[1], b[2], b[3]) as u32),
        FileFormat::ComplexInt8 => RawValue::Int8(b[0] as i8),
        FileFormat::ComplexUint8 => RawValue::Uint8(b[0]),
        FileFormat::ComplexInt16 => RawValue::Int16(le_i16(b[0], b[1]) as i16),
    }
}

/// The `i`-th sample of `bytes`: real part first, then imaginary.
pub open spec fn raw_pair(format: FileFormat, bytes: Seq<u8>, i: int) -> (RawValue, RawValue) {
    let t = format.spec_type_bytes() as int;
    let at = i * 2 * t;
    (raw_value(format, bytes.subrange(at, at + t)), raw_value(format, bytes.subrange(at + t, at + 2 * t)))
}

fn read_raw(format: FileFormat, b: &[u8]) -> (r: RawValue)
    requires
        b@.len() == format.spec_type_bytes(),
    ensures
        r == raw_value(format, b@),
{
    match format {
        FileFormat::ComplexFloat32 => RawValue::Float32(read_u32_le(b)),
        FileFormat::ComplexInt8 => RawValue::Int8(b[0] as i8),
        FileFormat::ComplexUint8 => RawValue::Uint8(b[0]),
        FileFormat::ComplexInt16 => RawValue::Int16(read_i16_le(b)),
    }
}

/// Splits raw file bytes into samples; a trailing partial sample is dropped.
pub fn decode_pairs(format: FileFormat, bytes: &[u8]) -> (r: Vec<(RawValue, RawValue)>)
    ensures
        r@ == decoded(format, bytes@),
{
    let t = format.type_bytes() as usize;
    let pb = 2 * t;
    let n = bytes.len();
    let count = n / pb;
    let mut out: Vec<(RawValue, RawValue)> = Vec::new();
    let mut i: usize = 0;
    while i < count
        invariant
            t == format.spec_type_bytes(),
            pb == 2 * t,
            n == bytes@.len(),
            count == bytes@.len() / (pb as nat),
            i <= count,
            out@.len() == i,
            forall|j: int| 0 <= j < i ==> #[trigger] out@[j] == raw_pair(format, bytes@, j),
        decreases count - i,
    {
        assert(i * pb + pb <= bytes@.len()) by (nonlinear_arith)
            requires i < count, count == bytes@.len() / (pb as nat), pb > 0;
        let at = i * pb;
        assert(at == i * 2 * t) by (nonlinear_arith)
            requires at == i * pb, pb == 2 * t;
        let re = read_raw(format, &bytes[at..at + t]);
        let im = read_raw(format, &bytes[at + t..at + pb]);
        out.push((re, im));
        i = i + 1;
    }
    assert(out@ =~= decoded(format, bytes@));
    out
}

/// Samples in a file of `file_len` bytes: whole pairs only.
pub fn file_samples(format: FileFormat, file_len: u64) -> (r: u64)
    ensures
        r == file_len as nat / format.spec_pair_bytes(),
{
    file_len / format.pair_bytes()
}

/// Byte position and byte count of a read of `buf_len` samples at sample
/// offset `off`; `None` when either does not fit.
pub fn byte_window(format: FileFormat, off: u64, buf_len: usize) -> (r: Option<(u64, usize)>)
    ensures
        r is Some <==> off * format.spec_pair_bytes() <= u64::MAX
            && buf_len * format.spec_pair_bytes() <= usize::MAX,
        r matches Some((at, n)) ==> (at == off * format.spec_pair_bytes()
            && n == buf_len * format.spec_pair_bytes()),
{
    let pb = format.pair_bytes();
    match off.checked_mul(pb) {
        None => None,
        Some(at) => match buf_len.checked_mul(pb as usize) {
            None => None,
            Some(n) => Some((at, n)),
        },
    }
}

/// The name a stream is written under: `<prefix>.sr<sample_rate>.cf32`.
pub open spec fn output_name(prefix: Seq<char>, sample_rate: nat) -> Seq<char> {
    prefix + ".sr"@ + decimal_text(sample_rate) + ".cf32"@
}

/// The file name for writing a stream; writing to standard output (prefix
/// `-`) is not supported.
pub fn output_filename(prefix: &str, sample_rate: u64) -> (r: Result<String, ErrorKind>)
    ensures
        prefix@ == "-"@ ==> r == Err::<String, ErrorKind>(ErrorKind::Unsupported),
        prefix@ != "-"@ ==> (r matches Ok(name) && name@ == output_name(prefix@, sample_rate as nat)),
{
    if str_eq(prefix, "-") {
        return Err(ErrorKind::Unsupported);
    }
    let mut name = String::new();
    push_str(&mut name, prefix);
    push_str(&mut name, ".sr");
    push_decimal(&mut name, sample_rate);
    push_str(&mut name, ".cf32");
    assert(name@ =~= output_name(prefix@, sample_rate as nat));
    Ok(name)
}

/// Relies on byteorder's `LittleEndian::write_u32`: the four bytes of `n`,
/// low byte first.
#[verifier::external_body]
fn u32_le_bytes(n: u32) -> (r: Vec<u8>)
    ensures
        r@.len() == 4,
        le_u32(r@[0], r@[1], r@[2], r@[3]) == n as int,
{
    let mut b = vec![0u8; 4];
    byteorder::LittleEndian::write_u32(&mut b, n);
    b
}

/// `bytes` holds the samples `s` as little-endian 32-bit pairs, each given
/// by its IEEE-754 bit patterns.
pub open spec fn encodes_cf32(bytes: Seq<u8>, s: Seq<(u32, u32)>) -> bool {
    &&& bytes.len() == 8 * s.len()
    &&& forall|i: int|
        0 <= i < s.len() ==> {
            &&& le_u32(bytes[8 * i], bytes[8 * i + 1], bytes[8 * i + 2], bytes[8 * i + 3]) == (#[trigger] s[i]).0
            &&& le_u32(bytes[8 * i + 4], bytes[8 * i + 5], bytes[8 * i + 6], bytes[8 * i + 7]) == s[i].1
        }
}

/// Serialises samples, given as bit patterns, in the `cf32` layout.
pub fn encode_cf32(samples: &[(u32, u32)]) -> (r: Vec<u8>)
    ensures
        encodes_cf32(r@, samples@),
{
    let mut out: Vec<u8> = Vec::new();
    let mut i: usize = 0;
    while i < samples.len()
        invariant
            i <= samples@.len(),
            encodes_cf32(out@, samples@.take(i as int)),
        decreases samples.len() - i,
    {
        let (re, im) = samples[i];
        let a = u32_le_bytes(re);
        let b = u32_le_bytes(im);
        let ghost before = out@;
        out.push(a[0]);
        out.push(a[1]);
        out.push(a[2]);
        out.push(a[3]);
        out.push(b[0]);
        out.push(b[1]);
        out.push(b[2]);
        out.push(b[3]);
        i = i + 1;
        assert(encodes_cf32(out@, samples@.take(i as int))) by {
            let t = samples@.take(i as int);
            assert forall|k: int| 0 <= k < t.len() implies {
                &&& le_u32(out@[8 * k], out@[8 * k + 1], out@[8 * k + 2], out@[8 * k + 3]) == (#[trigger] t[k]).0
                &&& le_u32(out@[8 * k + 4], out@[8 * k + 5], out@[8 * k + 6], out@[8 * k + 7]) == t[k].1
            } by {
                if k < i - 1 {
                    assert(samples@.take(i - 1)[k] == t[k]);
                }
            }
        }
    }
    assert(samples@.take(i as int) =~= samples@);
    out
}

/// Writing samples as `cf32` and reading the bytes back gives the same bit
/// patterns, sample for sample.
pub proof fn lemma_cf32_round_trip(bytes: Seq<u8>, s: Seq<(u32, u32)>)
    requires
        encodes_cf32(bytes, s),
    ensures
        bytes.len() / FileFormat::ComplexFloat32.spec_pair_bytes() == s.len(),
        forall|i: int|
            0 <= i < s.len() ==> #[trigger] raw_pair(FileFormat::ComplexFloat32, bytes, i) == (
                RawValue::Float32(s[i].0),
                RawValue::Float32(s[i].1),
            ),
{
    assert(bytes.len() / 8 == s.len()) by (nonlinear_arith)
        requires bytes.len() == 8 * s.len();
    assert forall|i: int| 0 <= i < s.len() implies #[trigger] raw_pair(FileFormat::ComplexFloat32, bytes, i)
        == (RawValue::Float32(s[i].0), RawValue::Float32(s[i].1)) by {
        assert(i * 2 * 4 == 8 * i);
        let lo = bytes.subrange(8 * i, 8 * i + 4);
        let hi = bytes.subrange(8 * i + 4, 8 * i + 8);
        assert(lo[0] == bytes[8 * i] && lo[1] == bytes[8 * i + 1] && lo[2] == bytes[8 * i + 2] && lo[3]
            == bytes[8 * i + 3]);
        assert(hi[0] == bytes[8 * i + 4] && hi[1] == bytes[8 * i + 5] && hi[2] == bytes[8 * i + 6] && hi[3]
            == bytes[8 * i + 7]);
    }
}

/// The samples a `cf32` file holding the bit patterns `s` reads back as.
pub open spec fn float_pairs(s: Seq<(u32, u32)>) -> Seq<(RawValue, RawValue)> {
    s.map_values(|p: (u32, u32)| (RawValue::Float32(p.0), RawValue::Float32(p.1)))
}

/// Blocks written one after another encode the samples one after another.
pub proof fn lemma_encodes_concat(a: Seq<u8>, s: Seq<(u32, u32)>, b: Seq<u8>, t: Seq<(u32, u32)>)
    requires
        encodes_cf32(a, s),
        encodes_cf32(b, t),
    ensures
        encodes_cf32(a + b, s + t),
{
    let ab = a + b;
    let st = s + t;
    assert forall|i: int| 0 <= i < st.len() implies {
        &&& le_u32(ab[8 * i], ab[8 * i + 1], ab[8 * i + 2], ab[8 * i + 3]) == (#[trigger] st[i]).0
        &&& le_u32(ab[8 * i + 4], ab[8 * i + 5], ab[8 * i + 6], ab[8 * i + 7]) == st[i].1
    } by {
        if i >= s.len() {
            let j = i - s.len();
            assert(8 * i == 8 * j + a.len());
            assert(t[j] == st[i]);
        }
    }
}

/// A written `cf32` file, read back whole from offset 0, gives exactly the
/// bit patterns that were written.
pub proof fn lemma_cf32_reload(bytes: Seq<u8>, s: Seq<(u32, u32)>)
    requires
        encodes_cf32(bytes, s),
    ensures
        read_window(FileFormat::ComplexFloat32, bytes, 0, s.len()) == float_pairs(s),
{
    lemma_cf32_round_trip(bytes, s);
    let pb = FileFormat::ComplexFloat32.spec_pair_bytes();
    assert(pb == 8);
    assert((0 + s.len()) * pb == bytes.len());
    assert(0 * pb == 0);
    assert(bytes.subrange(0, bytes.len() as int) =~= bytes);
    let w = read_window(FileFormat::ComplexFloat32, bytes, 0, s.len());
    assert(w == decoded(FileFormat::ComplexFloat32, bytes));
    assert forall|i: int| 0 <= i < s.len() implies #[trigger] w[i] == float_pairs(s)[i] by {}
    assert(read_window(FileFormat::ComplexFloat32, bytes, 0, s.len()) =~= float_pairs(s));
}

/// The samples of a whole file's bytes, trailing partial sample dropped.
pub open spec fn decoded(format: FileFormat, bytes: Seq<u8>) -> Seq<(RawValue, RawValue)> {
    Seq::new(bytes.len() / format.spec_pair_bytes(), |i: int| raw_pair(format, bytes, i))
}

/// What a read of up to `count` samples at sample offset `off` of a file
/// returns: the bytes from `off` whole samples in, as far as the file goes.
pub open spec fn read_window(format: FileFormat, file: Seq<u8>, off: nat, count: nat) -> Seq<(RawValue, RawValue)> {
    let pb = format.spec_pair_bytes();
    let end: int = if (off + count) * pb <= file.len() { ((off + count) * pb) as int } else { file.len() as int };
    decoded(format, file.subrange((off * pb) as int, end))
}

proof fn lemma_raw_pair_shift(format: FileFormat, file: Seq<u8>, a: int, end: int, i: int)
    requires
        0 <= a <= end <= file.len(),
        a % (format.spec_pair_bytes() as int) == 0,
        0 <= i,
        (i + 1) * format.spec_pair_bytes() <= end - a,
    ensures
        raw_pair(format, file.subrange(a, end), i) == raw_pair(
            format,
            file,
            i + a / (format.spec_pair_bytes() as int),
        ),
{
    let t = format.spec_type_bytes() as int;
    let pb = 2 * t;
    let q = a / pb;
    vstd::arithmetic::div_mod::lemma_fundamental_div_mod(a, pb);
    assert((i + q) * 2 * t == i * 2 * t + a) by (nonlinear_arith)
        requires a == pb * q, pb == 2 * t;
    assert(i * 2 * t + 2 * t <= end - a) by (nonlinear_arith)
        requires (i + 1) * pb <= end - a, pb == 2 * t;
    let sub = file.subrange(a, end);
    let at = i * 2 * t;
    assert(sub.subrange(at, at + t) =~= file.subrange(at + a, at + a + t));
    assert(sub.subrange(at + t, at + 2 * t) =~= file.subrange(at + a + t, at + a + 2 * t));
}

/// Reads compose: `n` samples from offset 0 followed by `m` samples from
/// offset `n` are the `n + m` samples from offset 0, when the first read
/// is not cut short by the end of the file.
pub proof fn lemma_read_offsets_compose(format: FileFormat, file: Seq<u8>, n: nat, m: nat)
    requires
        n * format.spec_pair_bytes() <= file.len(),
    ensures
        read_window(format, file, 0, n) + read_window(format, file, n, m) == read_window(format, file, 0, n + m),
{
    let pb = format.spec_pair_bytes() as int;
    let whole = read_window(format, file, 0, n + m);
    let first = read_window(format, file, 0, n);
    let second = read_window(format, file, n, m);
    let end2 = if (n + m) * pb <= file.len() { (n + m) * pb } else { file.len() as int };
    assert(0 * pb == 0);
    assert((n * pb) / pb == n) by (nonlinear_arith)
        requires pb > 0;
    assert(first.len() == n);
    assert((n * pb) % pb == 0) by (nonlinear_arith)
        requires pb > 0;
    assert(n * pb <= end2) by (nonlinear_arith)
        requires pb > 0, n * pb <= file.len(), end2 == (if (n + m) * pb <= file.len() { (n + m) * pb } else {
            file.len() as int
        });
    assert(end2 / pb == n + (end2 - n * pb) / pb) by (nonlinear_arith)
        requires pb > 0, n * pb <= end2;
    assert(whole.len() == first.len() + second.len());
    assert forall|i: int| 0 <= i < whole.len() implies #[trigger] whole[i] == (first + second)[i] by {
        assert((i + 1) * pb <= end2) by (nonlinear_arith)
            requires i < end2 / pb, pb > 0, end2 >= 0;
        lemma_raw_pair_shift(format, file, 0, end2, i);
        assert(0int / pb == 0);
        if i < n {
            assert((i + 1) * pb <= n * pb) by (nonlinear_arith)
                requires i < n, pb > 0;
            lemma_raw_pair_shift(format, file, 0, n * pb, i);
        } else {
            let j = i - n;
            assert((j + 1) * pb <= end2 - n * pb) by (nonlinear_arith)
                requires (i + 1) * pb <= end2, j == i - n, pb > 0;
            lemma_raw_pair_shift(format, file, n * pb, end2, j);
        }
    }
    assert(first + second =~= whole);
}

/// Reading is deterministic: two reads of the same samples of the same
/// bytes yield identical samples, whatever the reads before them.
pub proof fn lemma_read_deterministic(
    format: FileFormat,
    file: Seq<u8>,
    off: nat,
    count: nat,
    first: Seq<(RawValue, RawValue)>,
    second: Seq<(RawValue, RawValue)>,
)
    requires
        first == read_window(format, file, off, count),
        second == read_window(format, file, off, count),
    ensures
        first == second,
{
}

} // verus!
