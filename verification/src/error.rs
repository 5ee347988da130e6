//! The fatal conditions the machine and its loaders can report.

use vstd::prelude::*;

verus! {

/// Decoding failed: the opcode field of the word lies outside the fourteen
/// legal instruction kinds.
#[derive(Clone, Copy, Debug, PartialEq, Eq, Structural)]
pub struct DecodeError {
    /// The offending word.
    pub word: u32,
}

/// A program image could not be turned into words: its byte count is not a
/// multiple of four.
#[derive(Clone, Copy, Debug, PartialEq, Eq, Structural)]
pub struct LoadError {
    /// The byte count of the rejected image.
    pub n_bytes: usize,
}

/// A fatal machine fault. Execution stops at the first such fault; none is
/// retried or recovered from.
#[derive(Clone, Copy, Debug, PartialEq, Eq, Structural)]
pub enum MachineError {
    /// The fetched word's opcode field lies outside the legal range.
    Decode {
        /// The offending word.
        word: u32,
        /// The program counter at which it was fetched.
        pc: u32,
    },
    /// An address was out of range: the program counter ran past segment 0,
    /// a segment handle named no allocated segment, a cell offset lay beyond
    /// its segment's length, or the segment table itself is full.
    OutOfBounds {
        /// The offending address (program counter, handle, or offset).
        addr: u32,
    },
    /// A Division instruction found zero in its divisor register.
    DivideByZero,
}

} // verus!
