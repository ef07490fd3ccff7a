//! The library's error type.

use vstd::prelude::*;

verus! {

/// Why an operation was refused.
#[derive(Debug, Clone, Copy, PartialEq, Eq, Structural)]
pub enum ErrorKind {
    /// Text that should hold a number does not.
    InvalidNumber,
    /// A number, with its unit applied, does not fit its type.
    OutOfRange,
    /// Text that should hold a yes/no value does not.
    InvalidBool,
    /// A format name that no file format answers to.
    UnknownExtension,
    /// No sample rate was given, and none could be read from the file name.
    UnknownSampleRate,
    /// No format was given, and none could be read from the file name.
    UnknownFormat,
    /// A flag was given without a value, or with an empty one.
    MissingValue,
    /// A flag that may appear once was given more than once.
    DuplicateFlag,
    /// A flag that the command does not take.
    InvalidFlags,
    /// A positional argument of a command is missing.
    MissingArgument,
    /// A command name that is not known.
    UnknownCommand,
    /// A stage that consumes a stream ran with none before it.
    NoInput,
    /// Parameters of a stage are out of range.
    Configuration,
    /// A requested feature is not implemented.
    Unsupported,
    /// A source returned fewer samples than asked for before its end.
    ShortRead,
}

} // verus!
