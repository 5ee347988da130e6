//! The 32-bit word type ("plate"), its field layout, and its arithmetic.

use vstd::prelude::*;

use crate::error::{DecodeError, MachineError};
use crate::operator::{Data, Operator, Ort};

verus! {

/// Opcode field: bits 28-31 of a word.
pub open spec fn opcode_of(p: u32) -> u32 {
    (p >> 28) & 0xF
}

/// Standard operand A: bits 6-8 of a word.
pub open spec fn field_a(p: u32) -> u32 {
    (p >> 6) & 7
}

/// Standard operand B: bits 3-5 of a word.
pub open spec fn field_b(p: u32) -> u32 {
    (p >> 3) & 7
}

/// Standard operand C: bits 0-2 of a word.
pub open spec fn field_c(p: u32) -> u32 {
    p & 7
}

/// Literal-load target register: bits 25-27 of a word.
pub open spec fn ort_reg(p: u32) -> u32 {
    (p >> 25) & 7
}

/// Literal-load immediate: bits 0-24 of a word.
pub open spec fn ort_imm(p: u32) -> u32 {
    p & 0x1FF_FFFF
}

/// The standard operand triple of a word.
pub open spec fn standard_operands(p: u32) -> Data {
    Data { a: field_a(p), b: field_b(p), c: field_c(p) }
}

/// What decoding a word yields: one of the fourteen instruction kinds for
/// opcode fields 0 through 13, and a decode fault for 14 and 15.
pub open spec fn decode_spec(p: u32) -> Result<Operator, DecodeError> {
    let op = opcode_of(p);
    let data = standard_operands(p);
    if op == 0 {
        Ok(Operator::ConditionalMove(data))
    } else if op == 1 {
        Ok(Operator::ArrayIndex(data))
    } else if op == 2 {
        Ok(Operator::ArrayAmendment(data))
    } else if op == 3 {
        Ok(Operator::Addition(data))
    } else if op == 4 {
        Ok(Operator::Multiplication(data))
    } else if op == 5 {
        Ok(Operator::Division(data))
    } else if op == 6 {
        Ok(Operator::NotAnd(data))
    } else if op == 7 {
        Ok(Operator::Halt)
    } else if op == 8 {
        Ok(Operator::Allocation(data))
    } else if op == 9 {
        Ok(Operator::Abandonment(data))
    } else if op == 10 {
        Ok(Operator::Output(data))
    } else if op == 11 {
        Ok(Operator::Input(data))
    } else if op == 12 {
        Ok(Operator::LoadProgram(data))
    } else if op == 13 {
        Ok(Operator::Orthography(Ort { a: ort_reg(p), data: ort_imm(p) }))
    } else {
        Err(DecodeError { word: p })
    }
}

/// Addition modulo 2^32.
pub open spec fn wrap_add(x: u32, y: u32) -> u32 {
    ((x + y) % 0x1_0000_0000) as u32
}

/// Multiplication modulo 2^32.
pub open spec fn wrap_mul(x: u32, y: u32) -> u32 {
    ((x * y) % 0x1_0000_0000) as u32
}

/// The unsigned 32-bit word read big-endian from four bytes.
pub open spec fn be_word(b0: u8, b1: u8, b2: u8, b3: u8) -> u32 {
    (b0 * 0x100_0000 + b1 * 0x1_0000 + b2 * 0x100 + b3) as u32
}

/// Every decoded register field lies below 8, the opcode below 16, and the
/// immediate below 2^25.
pub proof fn lemma_fields_in_range(p: u32)
    by (bit_vector)
    ensures
        opcode_of(p) < 16,
        field_a(p) < 8,
        field_b(p) < 8,
        field_c(p) < 8,
        ort_reg(p) < 8,
        ort_imm(p) < 0x200_0000,
{
}

/// The bit fields agree with their arithmetic readings: the opcode is the
/// quotient by 2^28, each register operand is a base-8 digit, and the
/// immediate is the remainder modulo 2^25.
pub proof fn lemma_field_arithmetic(p: u32)
    by (bit_vector)
    ensures
        opcode_of(p) == p / 0x1000_0000,
        field_a(p) == (p / 0x40) % 8,
        field_b(p) == (p / 8) % 8,
        field_c(p) == p % 8,
        ort_reg(p) == (p / 0x200_0000) % 8,
        ort_imm(p) == p % 0x200_0000,
{
}

/// The decoded form of a word carries exactly the word's own fields.
pub open spec fn operands_match_layout(p: u32, op: Operator) -> bool {
    match op {
        Operator::ConditionalMove(d) => opcode_of(p) == 0 && d == standard_operands(p),
        Operator::ArrayIndex(d) => opcode_of(p) == 1 && d == standard_operands(p),
        Operator::ArrayAmendment(d) => opcode_of(p) == 2 && d == standard_operands(p),
        Operator::Addition(d) => opcode_of(p) == 3 && d == standard_operands(p),
        Operator::Multiplication(d) => opcode_of(p) == 4 && d == standard_operands(p),
        Operator::Division(d) => opcode_of(p) == 5 && d == standard_operands(p),
        Operator::NotAnd(d) => opcode_of(p) == 6 && d == standard_operands(p),
        Operator::Halt => opcode_of(p) == 7,
        Operator::Allocation(d) => opcode_of(p) == 8 && d == standard_operands(p),
        Operator::Abandonment(d) => opcode_of(p) == 9 && d == standard_operands(p),
        Operator::Output(d) => opcode_of(p) == 10 && d == standard_operands(p),
        Operator::Input(d) => opcode_of(p) == 11 && d == standard_operands(p),
        Operator::LoadProgram(d) => opcode_of(p) == 12 && d == standard_operands(p),
        Operator::Orthography(o) => opcode_of(p) == 13 && o == (Ort {
            a: ort_reg(p),
            data: ort_imm(p),
        }),
    }
}

/// Decoding succeeds exactly on opcode fields 0 through 13, fails exactly on
/// 14 and 15, and a successful decode reproduces the word's fields.
pub proof fn lemma_decode_layout(p: u32)
    ensures
        decode_spec(p) is Ok <==> opcode_of(p) <= 13,
        decode_spec(p) is Err <==> opcode_of(p) >= 14,
        decode_spec(p) is Err ==> decode_spec(p) == Err::<Operator, DecodeError>(
            DecodeError { word: p },
        ),
        decode_spec(p) matches Ok(op) ==> operands_match_layout(p, op),
{
}

/// NOT-AND of a value with itself is bitwise NOT, and NOT-AND of all-ones
/// with itself is zero.
pub proof fn lemma_notand_self(x: u32)
    by (bit_vector)
    ensures
        !(x & x) == !x,
        !(0xFFFF_FFFFu32 & 0xFFFF_FFFFu32) == 0,
{
}

/// The machine's single 32-bit unsigned word type, used for registers,
/// memory cells, and addresses. Its view is the raw unsigned value.
#[derive(Clone, Copy, Debug, PartialEq, Eq, Structural)]
pub struct Plate {
    plate: u32,
}

impl View for Plate {
    type V = u32;

    closed spec fn view(&self) -> u32 {
        self.plate
    }
}

impl Plate {
    /// Reads a word from four bytes in big-endian order.
    pub fn new(buf: [u8; 4]) -> (r: Plate)
        ensures
            r@ == be_word(buf[0], buf[1], buf[2], buf[3]),
    {
        let value: u32 = (buf[0] as u32) * 0x100_0000 + (buf[1] as u32) * 0x1_0000 + (buf[2]
            as u32) * 0x100 + (buf[3] as u32);
        Plate { plate: value }
    }

    /// Wraps a raw value as a word.
    pub fn from(value: u32) -> (r: Plate)
        ensures
            r@ == value,
    {
        Plate { plate: value }
    }

    /// The raw value of the word.
    pub fn unwrap(&self) -> (r: u32)
        ensures
            r == self@,
    {
        self.plate
    }

    /// Decodes the word's opcode and operand fields into an instruction, or
    /// reports a decode fault for opcode fields outside the legal range.
    pub fn get_operator_data(&self) -> (r: Result<Operator, DecodeError>)
        ensures
            r == decode_spec(self@),
    {
        let p = self.plate;
        let operator = (p >> 28) & 0xF;
        let data = Data { a: (p >> 6) & 7, b: (p >> 3) & 7, c: p & 7 };
        match operator {
            0 => Ok(Operator::ConditionalMove(data)),
            1 => Ok(Operator::ArrayIndex(data)),
            2 => Ok(Operator::ArrayAmendment(data)),
            3 => Ok(Operator::Addition(data)),
            4 => Ok(Operator::Multiplication(data)),
            5 => Ok(Operator::Division(data)),
            6 => Ok(Operator::NotAnd(data)),
            7 => Ok(Operator::Halt),
            8 => Ok(Operator::Allocation(data)),
            9 => Ok(Operator::Abandonment(data)),
            10 => Ok(Operator::Output(data)),
            11 => Ok(Operator::Input(data)),
            12 => Ok(Operator::LoadProgram(data)),
            13 => Ok(Operator::Orthography(Ort { a: (p >> 25) & 7, data: p & 0x1FF_FFFF })),
            _ => Err(DecodeError { word: p }),
        }
    }

    /// Addition modulo 2^32.
    pub fn add(&self, other: &Plate) -> (r: Plate)
        ensures
            r@ == wrap_add(self@, other@),
            r@ == (self@ + other@) % 0x1_0000_0000,
    {
        Plate { plate: self.plate.wrapping_add(other.plate) }
    }

    /// Multiplication modulo 2^32.
    pub fn mul(&self, other: &Plate) -> (r: Plate)
        ensures
            r@ == wrap_mul(self@, other@),
            r@ == (self@ * other@) % 0x1_0000_0000,
    {
        Plate { plate: self.plate.wrapping_mul(other.plate) }
    }

    /// Unsigned division. A zero divisor is reported as a fault, never
    /// computed.
    pub fn div(&self, other: &Plate) -> (r: Result<Plate, MachineError>)
        ensures
            other@ == 0 ==> r == Err::<Plate, MachineError>(MachineError::DivideByZero),
            other@ != 0 ==> (r matches Ok(q) && q@ == self@ / other@),
    {
        if other.plate == 0 {
            Err(MachineError::DivideByZero)
        } else {
            Ok(Plate { plate: self.plate / other.plate })
        }
    }

    /// Bitwise NOT.
    pub fn not(&self) -> (r: Plate)
        ensures
            r@ == !self@,
    {
        Plate { plate: !self.plate }
    }

    /// Bitwise AND.
    pub fn bitand(&self, other: &Plate) -> (r: Plate)
        ensures
            r@ == (self@ & other@),
    {
        Plate { plate: self.plate & other.plate }
    }
}

} // verus!
