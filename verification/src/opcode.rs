//! The instruction set: a closed enumeration of opcodes with a stable
//! one-byte encoding. The decode table is proved to be the exact inverse of
//! the encode table.

use vstd::prelude::*;

verus! {

/// An instruction kind. Jump-carrying instructions (`If`, `Else`) keep their
/// operand outside the enum, so "unresolved" is a distinct state of the
/// surrounding token rather than a sentinel value inside the opcode.
#[derive(Debug, Clone, Copy, PartialEq, Eq, Structural)]
pub enum OpCode {
    Push,
    Dup,
    Add,
    Sub,
    Mul,
    Div,
    Lt,
    Lte,
    Gt,
    Gte,
    Eq,
    Ne,
    If,
    Else,
    While,
    Do,
    Dump,
    Halt,
    LBrace,
    RBrace,
}

/// The stable one-byte encoding of each opcode.
pub open spec fn opcode_byte(op: OpCode) -> u8 {
    match op {
        OpCode::Push => 0,
        OpCode::Dup => 1,
        OpCode::Add => 2,
        OpCode::Sub => 3,
        OpCode::Mul => 4,
        OpCode::Div => 5,
        OpCode::Lt => 6,
        OpCode::Lte => 7,
        OpCode::Gt => 8,
        OpCode::Gte => 9,
        OpCode::Eq => 10,
        OpCode::Ne => 11,
        OpCode::If => 12,
        OpCode::Else => 13,
        OpCode::While => 14,
        OpCode::Do => 15,
        OpCode::Dump => 16,
        OpCode::Halt => 17,
        OpCode::LBrace => 18,
        OpCode::RBrace => 19,
    }
}

/// The decode table: defined as the inverse of [`opcode_byte`]; bytes outside
/// the instruction set decode to `None`.
pub open spec fn opcode_of_byte(b: u8) -> Option<OpCode> {
    if b == 0 {
        Some(OpCode::Push)
    } else if b == 1 {
        Some(OpCode::Dup)
    } else if b == 2 {
        Some(OpCode::Add)
    } else if b == 3 {
        Some(OpCode::Sub)
    } else if b == 4 {
        Some(OpCode::Mul)
    } else if b == 5 {
        Some(OpCode::Div)
    } else if b == 6 {
        Some(OpCode::Lt)
    } else if b == 7 {
        Some(OpCode::Lte)
    } else if b == 8 {
        Some(OpCode::Gt)
    } else if b == 9 {
        Some(OpCode::Gte)
    } else if b == 10 {
        Some(OpCode::Eq)
    } else if b == 11 {
        Some(OpCode::Ne)
    } else if b == 12 {
        Some(OpCode::If)
    } else if b == 13 {
        Some(OpCode::Else)
    } else if b == 14 {
        Some(OpCode::While)
    } else if b == 15 {
        Some(OpCode::Do)
    } else if b == 16 {
        Some(OpCode::Dump)
    } else if b == 17 {
        Some(OpCode::Halt)
    } else if b == 18 {
        Some(OpCode::LBrace)
    } else if b == 19 {
        Some(OpCode::RBrace)
    } else {
        None
    }
}

/// Width in bytes of a decoded instruction: one opcode byte, plus an eight
/// byte operand for the instructions that carry one (a constant-pool index
/// for `Push`, a jump target for `If`, `Else`, and the reserved `Do` and
/// `RBrace` encodings).
pub open spec fn instr_width(op: OpCode) -> nat {
    if has_operand(op) {
        9
    } else {
        1
    }
}

/// Whether a decoded instruction carries an eight-byte operand.
pub open spec fn has_operand(op: OpCode) -> bool {
    op is Push || op is If || op is Else || op is Do || op is RBrace
}

impl OpCode {
    /// The stable one-byte encoding of this opcode.
    pub fn as_byte(&self) -> (b: u8)
        ensures
            b == opcode_byte(*self),
    {
        match self {
            OpCode::Push => 0,
            OpCode::Dup => 1,
            OpCode::Add => 2,
            OpCode::Sub => 3,
            OpCode::Mul => 4,
            OpCode::Div => 5,
            OpCode::Lt => 6,
            OpCode::Lte => 7,
            OpCode::Gt => 8,
            OpCode::Gte => 9,
            OpCode::Eq => 10,
            OpCode::Ne => 11,
            OpCode::If => 12,
            OpCode::Else => 13,
            OpCode::While => 14,
            OpCode::Do => 15,
            OpCode::Dump => 16,
            OpCode::Halt => 17,
            OpCode::LBrace => 18,
            OpCode::RBrace => 19,
        }
    }

    /// Decode one opcode byte; bytes outside the instruction set yield `None`.
    pub fn from_byte(b: u8) -> (r: Option<OpCode>)
        ensures
            r == opcode_of_byte(b),
    {
        match b {
            0 => Some(OpCode::Push),
            1 => Some(OpCode::Dup),
            2 => Some(OpCode::Add),
            3 => Some(OpCode::Sub),
            4 => Some(OpCode::Mul),
            5 => Some(OpCode::Div),
            6 => Some(OpCode::Lt),
            7 => Some(OpCode::Lte),
            8 => Some(OpCode::Gt),
            9 => Some(OpCode::Gte),
            10 => Some(OpCode::Eq),
            11 => Some(OpCode::Ne),
            12 => Some(OpCode::If),
            13 => Some(OpCode::Else),
            14 => Some(OpCode::While),
            15 => Some(OpCode::Do),
            16 => Some(OpCode::Dump),
            17 => Some(OpCode::Halt),
            18 => Some(OpCode::LBrace),
            19 => Some(OpCode::RBrace),
            _ => None,
        }
    }

    /// Whether this instruction carries an eight-byte operand.
    pub fn has_operand(&self) -> (r: bool)
        ensures
            r == has_operand(*self),
    {
        matches!(self, OpCode::Push | OpCode::If | OpCode::Else | OpCode::Do | OpCode::RBrace)
    }
}

/// Decoding is the exact inverse of encoding: every opcode decodes back from
/// its own byte, and every byte that decodes at all re-encodes to itself.
pub proof fn lemma_opcode_byte_round_trip()
    ensures
        forall|op: OpCode| opcode_of_byte(opcode_byte(op)) == Some(op),
        forall|b: u8|
            #[trigger] opcode_of_byte(b) matches Some(op) ==> opcode_byte(op) == b,
        forall|b: u8| opcode_of_byte(b) is Some <==> b < 20,
{
}

} // verus!
