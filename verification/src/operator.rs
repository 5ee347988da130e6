//! The decoded instruction forms.

use vstd::prelude::*;

verus! {

/// The three 3-bit register operands of a standard-form instruction.
#[derive(Clone, Copy, Debug, PartialEq, Eq, Structural)]
pub struct Data {
    /// Register operand A (bits 6-8 of the word).
    pub a: u32,
    /// Register operand B (bits 3-5 of the word).
    pub b: u32,
    /// Register operand C (bits 0-2 of the word).
    pub c: u32,
}

/// The operands of the literal-load (Orthography) instruction.
#[derive(Clone, Copy, Debug, PartialEq, Eq, Structural)]
pub struct Ort {
    /// Target register (bits 25-27 of the word).
    pub a: u32,
    /// Unsigned immediate value (bits 0-24 of the word).
    pub data: u32,
}

/// An instruction, decoded fresh from a word on every fetch.
#[derive(Clone, Copy, Debug, PartialEq, Eq, Structural)]
pub enum Operator {
    /// Opcode 0: if `reg[C] != 0` then `reg[A] := reg[B]`.
    ConditionalMove(Data),
    /// Opcode 1: `reg[A] := mem[reg[B]][reg[C]]`.
    ArrayIndex(Data),
    /// Opcode 2: `mem[reg[A]][reg[B]] := reg[C]`.
    ArrayAmendment(Data),
    /// Opcode 3: `reg[A] := reg[B] + reg[C]`, wrapping.
    Addition(Data),
    /// Opcode 4: `reg[A] := reg[B] * reg[C]`, wrapping.
    Multiplication(Data),
    /// Opcode 5: `reg[A] := reg[B] / reg[C]`, unsigned; zero divisor is a fault.
    Division(Data),
    /// Opcode 6: `reg[A] := !(reg[B] & reg[C])`.
    NotAnd(Data),
    /// Opcode 7: stop execution.
    Halt,
    /// Opcode 8: create a zero-filled segment of length `reg[C]`; `reg[B] :=` its handle.
    Allocation(Data),
    /// Opcode 9: release the handle in `reg[C]` for reuse.
    Abandonment(Data),
    /// Opcode 10: emit the low 8 bits of `reg[C]` as a byte.
    Output(Data),
    /// Opcode 11: read a byte into `reg[C]`; on end-of-input `reg[C] := 0xFFFF_FFFF`.
    Input(Data),
    /// Opcode 12: `pc := reg[C]`; if `reg[B] != 0`, first copy segment `reg[B]` over segment 0.
    LoadProgram(Data),
    /// Opcode 13: `reg[target] := immediate`.
    Orthography(Ort),
}

} // verus!
