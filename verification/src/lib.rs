//! A register-based virtual machine over 32-bit words ("plates").
//!
//! The machine owns eight general-purpose registers, a table of
//! variable-length memory segments (segment 0 is the running program), and a
//! program counter. Words decode into one of fourteen instructions; the
//! fetch-decode-execute step and the allocation policy are specified by a
//! mathematical transition function and the executable machine is proved to
//! follow it.

pub mod error;
pub mod machine;
pub mod operator;
pub mod plate;
pub mod program;
pub mod semantics;
