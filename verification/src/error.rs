//! The errors of this crate.

use vstd::prelude::*;

verus! {

/// Why a stream could not be opened as a jitdump file.
#[derive(Debug, Clone, Copy, PartialEq, Eq)]
pub enum JitDumpError {
    /// The first chunk of the stream ends before the file header does.
    NotEnoughDataForHeader,
    /// The stream starts with these four bytes, which are not those of a jitdump file.
    InvalidMagicBytes([u8; 4]),
}

/// A record ends before all of its fields could be read.
#[derive(Debug, Clone, Copy, PartialEq, Eq)]
pub struct UnexpectedEof;

/// The size that the header of a record gives for the record, which does not cover the header
/// itself.
#[derive(Debug, Clone, Copy, PartialEq, Eq)]
pub struct RecordSizeTooSmall(pub u32);

} // verus!
