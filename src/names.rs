//! What a sample file's name says about its sample rate and format.

use vstd::prelude::*;

use crate::error::ErrorKind;
use crate::format::{extension_format, guess_from_extension, FileDetails, FileFormat};
use crate::pattern::{capture_first, first_capture, opt_view};
use crate::si::{parse_si_u64, si_u64};

verus! {

/// Index of the last `.` in `s`.
pub open spec fn last_dot(s: Seq<char>) -> Option<int>
    decreases s.len(),
{
    if s.len() == 0 {
        None
    } else if s.last() == '.' {
        Some(s.len() - 1)
    } else {
        last_dot(s.drop_last())
    }
}

/// The sample rate text and format that a file name suggests, given what
/// the three name patterns captured: `-sr<rate>` marks, gqrx recordings
/// (`gqrx_<date>_<time>_<freq>_<rate>_fc.raw`, complex floats) and rtl_433
/// captures (`g<n>_<freq>M_<rate>k.cu8`), in that order of precedence; a
/// known extension then settles the format.
pub open spec fn name_guess(
    filename: Seq<char>,
    sr: Option<Seq<char>>,
    gqrx: Option<Seq<char>>,
    rtl: Option<Seq<char>>,
) -> (Option<Seq<char>>, Option<FileFormat>) {
    let (rate1, fmt1) = match gqrx {
        Some(g) => (Some(g), Some(FileFormat::ComplexFloat32)),
        None => (sr, None::<FileFormat>),
    };
    let (rate2, fmt2) = match rtl {
        Some(x) => (Some(x), Some(FileFormat::ComplexUint8)),
        None => (rate1, fmt1),
    };
    let fmt3 = match last_dot(filename) {
        Some(d) => match extension_format(filename.skip(d + 1)) {
            Some(f) => Some(f),
            None => fmt2,
        },
        None => fmt2,
    };
    (rate2, fmt3)
}

fn find_last_dot(s: &str) -> (r: Option<usize>)
    ensures
        opt_int(r) == last_dot(s@),
        r matches Some(d) ==> d < s@.len(),
{
    let n = s.unicode_len();
    let mut i: usize = n;
    assert(s@.take(n as int) =~= s@);
    while i > 0
        invariant
            n == s@.len(),
            i <= n,
            last_dot(s@) == last_dot(s@.take(i as int)),
        decreases i,
    {
        assert(s@.take(i as int).drop_last() =~= s@.take(i - 1));
        if s.get_char(i - 1) == '.' {
            return Some(i - 1);
        }
        i = i - 1;
    }
    None
}

pub open spec fn opt_int(o: Option<usize>) -> Option<int> {
    match o {
        Some(v) => Some(v as int),
        None => None,
    }
}

/// Combines what the name patterns captured with the file's extension.
pub fn guess_from_name_parts(
    filename: &str,
    sr: Option<String>,
    gqrx: Option<String>,
    rtl: Option<String>,
) -> (r: (Option<String>, Option<FileFormat>))
    ensures
        (opt_view(r.0), r.1) == name_guess(filename@, opt_view(sr), opt_view(gqrx), opt_view(rtl)),
{
    let mut rate = sr;
    let mut format: Option<FileFormat> = None;
    if let Some(g) = gqrx {
        rate = Some(g);
        format = Some(FileFormat::ComplexFloat32);
    }
    if let Some(x) = rtl {
        rate = Some(x);
        format = Some(FileFormat::ComplexUint8);
    }
    if let Some(dot) = find_last_dot(filename) {
        let n = filename.unicode_len();
        let ext = filename.substring_char(dot + 1, n);
        assert(ext@ =~= filename@.skip(dot + 1));
        if let Some(f) = guess_from_extension(ext) {
            format = Some(f);
        }
    }
    (rate, format)
}

/// The name guess for `filename` as the patterns' engine reads it.
pub open spec fn name_guess_of(filename: Seq<char>) -> (Option<Seq<char>>, Option<FileFormat>) {
    name_guess(
        filename,
        first_capture("\\bsr([0-9]+[kMG]?)\\b"@, filename),
        first_capture("gqrx_.*?_[0-9]+_([0-9]+)_fc.raw"@, filename),
        first_capture("g\\d+_\\d+(?:\\.\\d+)?M_(\\d+k).cu8"@, filename),
    )
}

/// Guesses the sample rate text and the format from a file name.
pub fn guess_format_from_name(filename: &str) -> (r: (Option<String>, Option<FileFormat>))
    ensures
        (opt_view(r.0), r.1) == name_guess_of(filename@),
{
    let sr = capture_first("\\bsr([0-9]+[kMG]?)\\b", filename);
    let gqrx = capture_first("gqrx_.*?_[0-9]+_([0-9]+)_fc.raw", filename);
    let rtl = capture_first("g\\d+_\\d+(?:\\.\\d+)?M_(\\d+k).cu8", filename);
    guess_from_name_parts(filename, sr, gqrx, rtl)
}

/// File details from a name guess and the values given explicitly, which
/// win over the guess. The sample rate is settled first, then the format.
pub open spec fn details_spec(
    guess: (Option<Seq<char>>, Option<FileFormat>),
    sample_rate: Option<Seq<char>>,
    format: Option<Seq<char>>,
) -> Result<FileDetails, ErrorKind> {
    let rate = match sample_rate {
        Some(s) => Some(s),
        None => guess.0,
    };
    let fmt: Result<Option<FileFormat>, ErrorKind> = match format {
        Some(f) => match extension_format(f) {
            Some(x) => Ok(Some(x)),
            None => Err(ErrorKind::UnknownExtension),
        },
        None => Ok(guess.1),
    };
    match fmt {
        Err(e) => Err(e),
        Ok(fm) => match rate {
            None => Err(ErrorKind::UnknownSampleRate),
            Some(rt) => match si_u64(rt) {
                Err(e) => Err(e),
                Ok(v) => match fm {
                    None => Err(ErrorKind::UnknownFormat),
                    Some(f) => Ok(FileDetails { format: f, sample_rate: v }),
                },
            },
        },
    }
}

/// Settles file details from a name guess and explicit overrides.
pub fn details_from_guess(
    guess: (Option<String>, Option<FileFormat>),
    override_sample_rate: Option<String>,
    override_format: Option<String>,
) -> (r: Result<FileDetails, ErrorKind>)
    ensures
        r == details_spec((opt_view(guess.0), guess.1), opt_view(override_sample_rate), opt_view(override_format)),
{
    let (mut sample_rate, mut format) = guess;
    if let Some(provided) = override_sample_rate {
        sample_rate = Some(provided);
    }
    if let Some(provided) = override_format {
        match guess_from_extension(provided.as_str()) {
            Some(f) => {
                format = Some(f);
            },
            None => {
                return Err(ErrorKind::UnknownExtension);
            },
        }
    }
    let rate = match sample_rate {
        None => return Err(ErrorKind::UnknownSampleRate),
        Some(s) => s,
    };
    let v = match parse_si_u64(rate.as_str()) {
        Err(e) => return Err(e),
        Ok(v) => v,
    };
    match format {
        None => Err(ErrorKind::UnknownFormat),
        Some(f) => Ok(FileDetails { format: f, sample_rate: v }),
    }
}

/// Details of a sample file from its name, with optional explicit sample
/// rate and format (an extension name such as `cu8`).
pub fn guess_details(
    filename: &str,
    override_sample_rate: Option<String>,
    override_format: Option<String>,
) -> (r: Result<FileDetails, ErrorKind>)
    ensures
        r == details_spec(name_guess_of(filename@), opt_view(override_sample_rate), opt_view(override_format)),
{
    let guess = guess_format_from_name(filename);
    details_from_guess(guess, override_sample_rate, override_format)
}

} // verus!
