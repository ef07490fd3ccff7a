//! The user-visible stages of a pipeline and the rule for chaining them.

use vstd::prelude::*;

use crate::error::ErrorKind;
use crate::format::FileDetails;
use crate::si::Decimal;

verus! {

/// One stage of a pipeline, as given on the command line.
#[derive(Debug, Clone)]
pub enum Operation {
    /// Read samples from a file.
    From { details: FileDetails, filename: String },
    /// Shift by `frequency` Hz.
    Shift { frequency: i64 },
    /// Low-pass at `frequency` Hz with a kernel of `size` taps, keeping one
    /// sample in `decimate`.
    LowPass { size: usize, decimate: u64, frequency: u64 },
    /// Print a sparkline per FFT window; magnitudes outside `min..max` clip.
    SparkFft { width: usize, stride: u64, min: Option<Decimal>, max: Option<Decimal> },
    /// Print one level per FFT window.
    Bucket { fft_width: usize, stride: u64, levels: usize },
    /// Write the stream to `<prefix>.sr<rate>.cf32`.
    Write { overwrite: bool, prefix: String },
    /// Generate a sum of cosines.
    Gen { seconds: Decimal, sample_rate: u64, cos: Vec<i64> },
}

/// What an [`Operation`] holds, with strings and lists as sequences.
pub ghost enum OperationView {
    From { details: FileDetails, filename: Seq<char> },
    Shift { frequency: i64 },
    LowPass { size: usize, decimate: u64, frequency: u64 },
    SparkFft { width: usize, stride: u64, min: Option<Decimal>, max: Option<Decimal> },
    Bucket { fft_width: usize, stride: u64, levels: usize },
    Write { overwrite: bool, prefix: Seq<char> },
    Gen { seconds: Decimal, sample_rate: u64, cos: Seq<i64> },
}

impl View for Operation {
    type V = OperationView;

    open spec fn view(&self) -> OperationView {
        match self {
            Operation::From { details, filename } => OperationView::From {
                details: *details,
                filename: filename@,
            },
            Operation::Shift { frequency } => OperationView::Shift { frequency: *frequency },
            Operation::LowPass { size, decimate, frequency } => OperationView::LowPass {
                size: *size,
                decimate: *decimate,
                frequency: *frequency,
            },
            Operation::SparkFft { width, stride, min, max } => OperationView::SparkFft {
                width: *width,
                stride: *stride,
                min: *min,
                max: *max,
            },
            Operation::Bucket { fft_width, stride, levels } => OperationView::Bucket {
                fft_width: *fft_width,
                stride: *stride,
                levels: *levels,
            },
            Operation::Write { overwrite, prefix } => OperationView::Write {
                overwrite: *overwrite,
                prefix: prefix@,
            },
            Operation::Gen { seconds, sample_rate, cos } => OperationView::Gen {
                seconds: *seconds,
                sample_rate: *sample_rate,
                cos: cos@,
            },
        }
    }
}

/// Whether a stage consumes the stream built so far.
pub open spec fn consumes_input(op: OperationView) -> bool {
    !(op is From || op is Gen)
}

impl Operation {
    /// Whether this stage consumes the stream built so far (all but `From`
    /// and `Gen`, which start a new one).
    pub fn needs_input(&self) -> (r: bool)
        ensures
            r == consumes_input(self@),
    {
        match self {
            Operation::From { .. } | Operation::Gen { .. } => false,
            _ => true,
        }
    }

    /// Refuses a stage that consumes a stream when there is none yet.
    pub fn check_input(&self, has_input: bool) -> (r: Result<(), ErrorKind>)
        ensures
            consumes_input(self@) && !has_input <==> r is Err,
            r matches Err(e) ==> e == ErrorKind::NoInput,
    {
        if self.needs_input() && !has_input {
            Err(ErrorKind::NoInput)
        } else {
            Ok(())
        }
    }
}

/// One command of the command line.
#[derive(Debug, Clone)]
pub enum Command {
    /// A pipeline stage.
    Octagon(Operation),
    /// The legacy viewer.
    Ui,
    /// The spectrogram viewer, on an optional file.
    Eui { filename: Option<String> },
}

/// What a [`Command`] holds.
pub ghost enum CommandView {
    Octagon(OperationView),
    Ui,
    Eui { filename: Option<Seq<char>> },
}

impl View for Command {
    type V = CommandView;

    open spec fn view(&self) -> CommandView {
        match self {
            Command::Octagon(op) => CommandView::Octagon(op@),
            Command::Ui => CommandView::Ui,
            Command::Eui { filename } => CommandView::Eui {
                filename: match filename {
                    Some(f) => Some(f@),
                    None => None,
                },
            },
        }
    }
}

} // verus!
