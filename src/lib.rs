//! Verified core of an I/Q sample pipeline: command-line surface, file
//! naming and sizing, the integer geometry of each pipeline stage, and the
//! run-length bit scanner.

pub mod analysis;
pub mod args;
pub mod bits;
pub mod error;
pub mod format;
pub mod hexbits;
pub mod names;
pub mod pattern;
pub mod pipeline;
pub mod si;
pub mod stages;
pub mod text;
