//! The disassembler: renders an instruction stream as readable text. It
//! shares the opcode width table with the compiler's emission and the
//! machine's fetch loop, and advances through the stream by exactly the
//! same strides, so the per-instruction trace and the whole-stream dump are
//! proved to produce identical text.

use vstd::prelude::*;
use vstd::string::{StrSliceExecFns, StringExecFns};

use crate::bytecode::{read_u64_le, ByteCode, ByteCodeV};
use crate::opcode::{has_operand, instr_width, opcode_of_byte, OpCode};
use crate::text::{dec_pad4, push_dec_pad4, push_dec_pad4_u64};
use crate::value::value_text;
use crate::virtual_machine::operand_at;

verus! {

/// The display name of each opcode.
pub open spec fn opcode_name(op: OpCode) -> Seq<char> {
    match op {
        OpCode::Push => "Push"@,
        OpCode::Dup => "Dup"@,
        OpCode::Add => "Add"@,
        OpCode::Sub => "Sub"@,
        OpCode::Mul => "Mul"@,
        OpCode::Div => "Div"@,
        OpCode::Lt => "Lt"@,
        OpCode::Lte => "Lte"@,
        OpCode::Gt => "Gt"@,
        OpCode::Gte => "Gte"@,
        OpCode::Eq => "Eq"@,
        OpCode::Ne => "Ne"@,
        OpCode::If => "If"@,
        OpCode::Else => "Else"@,
        OpCode::While => "While"@,
        OpCode::Do => "Do"@,
        OpCode::Dump => "Dump"@,
        OpCode::Halt => "Halt"@,
        OpCode::LBrace => "LBrace"@,
        OpCode::RBrace => "RBrace"@,
    }
}

impl OpCode {
    /// The display name of this opcode.
    pub fn name(&self) -> (r: String)
        ensures
            r@ == opcode_name(*self),
    {
        match self {
            OpCode::Push => String::from_str("Push"),
            OpCode::Dup => String::from_str("Dup"),
            OpCode::Add => String::from_str("Add"),
            OpCode::Sub => String::from_str("Sub"),
            OpCode::Mul => String::from_str("Mul"),
            OpCode::Div => String::from_str("Div"),
            OpCode::Lt => String::from_str("Lt"),
            OpCode::Lte => String::from_str("Lte"),
            OpCode::Gt => String::from_str("Gt"),
            OpCode::Gte => String::from_str("Gte"),
            OpCode::Eq => String::from_str("Eq"),
            OpCode::Ne => String::from_str("Ne"),
            OpCode::If => String::from_str("If"),
            OpCode::Else => String::from_str("Else"),
            OpCode::While => String::from_str("While"),
            OpCode::Do => String::from_str("Do"),
            OpCode::Dump => String::from_str("Dump"),
            OpCode::Halt => String::from_str("Halt"),
            OpCode::LBrace => String::from_str("LBrace"),
            OpCode::RBrace => String::from_str("RBrace"),
        }
    }
}

/// The rendered line of the instruction at `offset`, and its width in
/// bytes, or `None` if no well-formed instruction starts there: an unknown
/// opcode byte, an operand reaching past the end of the stream, or a
/// constant-pool index out of range.
pub open spec fn disasm_instr_spec(bc: ByteCodeV, offset: int) -> Option<(Seq<char>, nat)> {
    if offset < 0 || offset >= bc.bytes.len() {
        None
    } else {
        match opcode_of_byte(bc.bytes[offset]) {
            Option::None => None,
            Option::Some(op) => {
                if !has_operand(op) {
                    Some((dec_pad4(offset) + " ["@ + opcode_name(op) + "] "@ + seq!['\n'], 1nat))
                } else if offset + 9 > bc.bytes.len() {
                    None
                } else {
                    let operand = operand_at(bc.bytes, offset + 1);
                    if op is Push {
                        if operand >= bc.constants.len() {
                            None
                        } else {
                            Some(
                                (
                                    dec_pad4(offset) + " [Push] "@ + dec_pad4(operand as int)
                                        + " '"@ + value_text(bc.constants[operand as int])
                                        + seq!['\'', '\n'],
                                    9nat,
                                ),
                            )
                        }
                    } else {
                        Some(
                            (
                                dec_pad4(offset) + " ["@ + opcode_name(op) + "] "@ + dec_pad4(
                                    offset,
                                ) + " -> "@ + dec_pad4(operand as i64 as int) + seq!['\n'],
                                9nat,
                            ),
                        )
                    }
                }
            },
        }
    }
}

/// The whole-stream dump from `offset`: every instruction's line in order,
/// or `None` if the stream is malformed anywhere.
pub open spec fn disasm_all_spec(bc: ByteCodeV, offset: int) -> Option<Seq<char>>
    decreases bc.bytes.len() - offset,
{
    if offset < 0 || offset >= bc.bytes.len() {
        Some(Seq::empty())
    } else {
        match opcode_of_byte(bc.bytes[offset]) {
            Option::None => None,
            Option::Some(op) => {
                let w = instr_width(op);
                match disasm_instr_spec(bc, offset) {
                    Option::None => None,
                    Option::Some(tw) => {
                        match disasm_all_spec(bc, offset + w) {
                            Option::None => None,
                            Option::Some(rest) => Some(tw.0 + rest),
                        }
                    },
                }
            },
        }
    }
}

/// The stateless disassembler.
pub struct Disassembler {}

impl Disassembler {
    /// Renders the one instruction at `offset` and advances the offset past
    /// it, by exactly the stride the machine's fetch loop would take; a
    /// malformed instruction renders as `None` and leaves the offset alone.
    pub fn disassemble_instruction(byte_code: &ByteCode, offset: &mut usize) -> (r: Option<String>)
        ensures
            match disasm_instr_spec(byte_code@, *old(offset) as int) {
                Option::Some(tw) => (r matches Some(s) && s@ == tw.0 && *final(offset) == *old(
                    offset,
                ) + tw.1),
                Option::None => r is None && *final(offset) == *old(offset),
            },
    {
        let n = byte_code.bytes.len();
        if *offset >= n {
            return None;
        }
        let b = byte_code.bytes[*offset];
        let op = match OpCode::from_byte(b) {
            Some(op) => op,
            None => {
                return None;
            },
        };
        let mut line = String::new();
        push_dec_pad4_u64(&mut line, *offset as u64);
        if !op.has_operand() {
            line.append(" [");
            let name = op.name();
            line.append(name.as_str());
            line.append("] ");
            crate::text::string_push(&mut line, '\n');
            proof {
                assert(line@ =~= (disasm_instr_spec(byte_code@, *old(offset) as int)->0).0);
            }
            *offset = *offset + 1;
            return Some(line);
        }
        if n < 9 || *offset > n - 9 {
            return None;
        }
        let operand = read_u64_le(&byte_code.bytes, *offset + 1);
        if matches!(op, OpCode::Push) {
            if operand >= byte_code.constants.len() as u64 {
                return None;
            }
            line.append(" [Push] ");
            push_dec_pad4_u64(&mut line, operand);
            line.append(" '");
            let vt = byte_code.constants[operand as usize].text();
            line.append(vt.as_str());
            crate::text::string_push(&mut line, '\'');
            crate::text::string_push(&mut line, '\n');
            proof {
                assert(line@ =~= (disasm_instr_spec(byte_code@, *old(offset) as int)->0).0);
            }
            *offset = *offset + 9;
            return Some(line);
        }
        line.append(" [");
        let name = op.name();
        line.append(name.as_str());
        line.append("] ");
        push_dec_pad4_u64(&mut line, *offset as u64);
        line.append(" -> ");
        push_dec_pad4(&mut line, #[verifier::truncate] (operand as i64));
        crate::text::string_push(&mut line, '\n');
        proof {
            assert(line@ =~= (disasm_instr_spec(byte_code@, *old(offset) as int)->0).0);
        }
        *offset = *offset + 9;
        Some(line)
    }

    /// Renders the whole instruction stream, one line per instruction, or
    /// `None` if the stream is malformed anywhere.
    pub fn disassemble_byte_code(byte_code: &ByteCode) -> (r: Option<String>)
        ensures
            match disasm_all_spec(byte_code@, 0) {
                Option::Some(t) => (r matches Some(s) && s@ == t),
                Option::None => r is None,
            },
    {
        let n = byte_code.bytes.len();
        let mut out = String::new();
        let mut offset: usize = 0;
        while offset < n
            invariant
                n == byte_code@.bytes.len(),
                offset <= n,
                match disasm_all_spec(byte_code@, offset as int) {
                    Option::Some(rest) => disasm_all_spec(byte_code@, 0) == Some(out@ + rest),
                    Option::None => disasm_all_spec(byte_code@, 0) is None,
                },
            decreases n - offset,
        {
            let ghost off0 = offset as int;
            let ghost out0 = out@;
            match Disassembler::disassemble_instruction(byte_code, &mut offset) {
                None => {
                    proof {
                        assert(disasm_all_spec(byte_code@, off0) is None);
                    }
                    return None;
                },
                Some(line) => {
                    out.append(line.as_str());
                    proof {
                        let tw = disasm_instr_spec(byte_code@, off0)->0;
                        assert(tw.1 == 1 || tw.1 == 9);
                        match disasm_all_spec(byte_code@, off0 + tw.1) {
                            Option::Some(rest2) => {
                                assert(disasm_all_spec(byte_code@, off0) == Some(tw.0 + rest2));
                                assert(out@ + rest2 =~= out0 + (tw.0 + rest2));
                            },
                            Option::None => {
                                assert(disasm_all_spec(byte_code@, off0) is None);
                            },
                        }
                    }
                },
            }
        }
        proof {
            assert(disasm_all_spec(byte_code@, offset as int) == Some(Seq::<char>::empty()));
            assert(out@ + Seq::<char>::empty() =~= out@);
        }
        Some(out)
    }
}

/// Disassembling instruction by instruction, as the machine's trace hook
/// does, produces exactly the whole-stream dump: each step's line is the
/// next piece of the dump, and the strides agree.
pub proof fn lemma_disassembly_idempotent(bc: ByteCodeV, offset: int)
    requires
        0 <= offset < bc.bytes.len(),
        disasm_all_spec(bc, offset) is Some,
    ensures
        disasm_instr_spec(bc, offset) is Some,
        disasm_all_spec(bc, offset + (disasm_instr_spec(bc, offset)->0).1) is Some,
        disasm_all_spec(bc, offset)->0 == (disasm_instr_spec(bc, offset)->0).0 + disasm_all_spec(
            bc,
            offset + (disasm_instr_spec(bc, offset)->0).1,
        )->0,
{
    let op = opcode_of_byte(bc.bytes[offset])->0;
    assert(opcode_of_byte(bc.bytes[offset]) is Some);
    assert((disasm_instr_spec(bc, offset)->0).1 == instr_width(op));
}

} // verus!
