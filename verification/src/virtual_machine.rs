//! The virtual machine: a stack machine that decodes and executes an
//! instruction stream against its constant pool. Every fault — an
//! out-of-bounds jump, a stack underflow, mismatched operand types, division
//! by zero — surfaces as a typed failure value, never a silent result.

use vstd::bytes::spec_u64_from_le_bytes;
use vstd::prelude::*;
use vstd::string::StringExecFns;
use vstd::utf8::{decode_utf8, valid_utf8};

use crate::bytecode::{parse_constants, parse_container, parsed_prefix, read_u32_le, read_u64_le,
    ByteCode, ByteCodeV};
use crate::error::{Error, ErrorV};
use crate::opcode::{opcode_of_byte, OpCode};
use crate::value::{add_spec, div_spec, mul_spec, sub_spec, truthy, value_eq_spec, value_lt_spec,
    Value, ValueV};

verus! {

/// The machine state: the value stack, the loaded bytecode, the instruction
/// pointer, and the flag that records whether the last `if` took its truthy
/// branch (so that the matching `else` knows to skip its body).
pub struct VirtualMachine {
    stack: Vec<Value>,
    byte_code: ByteCode,
    ip: usize,
    jmp_to_end: bool,
}

/// The mathematical model of a [`VirtualMachine`].
#[verifier::ext_equal]
pub struct VmV {
    pub stack: Seq<ValueV>,
    pub code: ByteCodeV,
    pub ip: int,
    pub jmp_to_end: bool,
}

impl View for VirtualMachine {
    type V = VmV;

    closed spec fn view(&self) -> VmV {
        VmV {
            stack: Seq::new(self.stack@.len(), |i: int| self.stack@[i]@),
            code: self.byte_code@,
            ip: self.ip as int,
            jmp_to_end: self.jmp_to_end,
        }
    }
}

/// What one execution step does.
#[verifier::ext_equal]
pub enum StepV {
    /// The machine advanced to a new state.
    Next(VmV),
    /// The machine advanced and printed one value.
    Output(VmV, ValueV),
    /// The machine stopped: a `Halt` instruction, or the end of the stream.
    Halted(VmV),
    /// The machine hit a fatal fault in the given state.
    Fault(VmV, ErrorV),
}

pub open spec fn msg_invalid_opcode() -> Seq<char> {
    "invalid opcode"@
}

pub open spec fn msg_reserved_opcode() -> Seq<char> {
    "unimplemented instruction"@
}

pub open spec fn msg_stack_underflow() -> Seq<char> {
    "stack underflow"@
}

pub open spec fn msg_truncated_operand() -> Seq<char> {
    "instruction operand past the end of the stream"@
}

pub open spec fn msg_bad_constant() -> Seq<char> {
    "constant index out of range"@
}

pub open spec fn msg_string_condition() -> Seq<char> {
    "a string cannot be used as a condition"@
}

pub open spec fn msg_restricted_memory() -> Seq<char> {
    "attempting to access restricted memory"@
}

/// The eight-byte operand at `pos`.
pub open spec fn operand_at(bytes: Seq<u8>, pos: int) -> u64 {
    spec_u64_from_le_bytes(bytes.subrange(pos, pos + 8))
}

/// The comparison result an opcode pushes: one for true, zero for false.
pub open spec fn cmp_result(b: bool) -> ValueV {
    if b {
        ValueV::Int32(1)
    } else {
        ValueV::Int32(0)
    }
}

/// One fetch-decode-dispatch step of the machine, exactly as `step` performs
/// it: fetch the opcode byte, advance past it, read any operand, pop the
/// operands, and either advance, print, stop, or fault.
pub open spec fn step_spec(s: VmV) -> StepV {
    let len = s.code.bytes.len() as int;
    if s.ip < 0 || s.ip >= len {
        StepV::Halted(s)
    } else {
        let ip1 = s.ip + 1;
        let s1 = VmV { ip: ip1, ..s };
        match opcode_of_byte(s.code.bytes[s.ip]) {
            Option::None => StepV::Fault(s1, ErrorV::RuntimeError(msg_invalid_opcode())),
            Option::Some(op) => match op {
                OpCode::Push => {
                    if ip1 + 8 > len {
                        StepV::Fault(
                            s1,
                            ErrorV::SegFault(ip1 as nat, msg_truncated_operand()),
                        )
                    } else {
                        let idx = operand_at(s.code.bytes, ip1);
                        let s2 = VmV { ip: ip1 + 8, ..s };
                        if idx >= s.code.constants.len() {
                            StepV::Fault(s2, ErrorV::RuntimeError(msg_bad_constant()))
                        } else {
                            StepV::Next(
                                VmV { stack: s.stack.push(s.code.constants[idx as int]), ..s2 },
                            )
                        }
                    }
                },
                OpCode::Add => arith_step(s1, add_spec(peek2(s).0, peek2(s).1)),
                OpCode::Sub => arith_step(s1, sub_spec(peek2(s).0, peek2(s).1)),
                OpCode::Mul => arith_step(s1, mul_spec(peek2(s).0, peek2(s).1)),
                OpCode::Div => arith_step(s1, div_spec(peek2(s).0, peek2(s).1)),
                OpCode::Lt => cmp_step(s1, cmp_result(value_lt_spec(peek2(s).0, peek2(s).1))),
                OpCode::Lte => cmp_step(s1, cmp_result(!value_lt_spec(peek2(s).1, peek2(s).0))),
                OpCode::Gt => cmp_step(s1, cmp_result(value_lt_spec(peek2(s).1, peek2(s).0))),
                OpCode::Gte => cmp_step(s1, cmp_result(!value_lt_spec(peek2(s).0, peek2(s).1))),
                OpCode::Eq => cmp_step(s1, cmp_result(value_eq_spec(peek2(s).0, peek2(s).1))),
                OpCode::Ne => cmp_step(s1, cmp_result(!value_eq_spec(peek2(s).0, peek2(s).1))),
                OpCode::If => {
                    if s.stack.len() == 0 {
                        StepV::Fault(s1, ErrorV::RuntimeError(msg_stack_underflow()))
                    } else {
                        let cond = s.stack.last();
                        let sp = VmV { stack: s.stack.drop_last(), ip: ip1, ..s };
                        if ip1 + 8 > len {
                            StepV::Fault(
                                sp,
                                ErrorV::SegFault(ip1 as nat, msg_truncated_operand()),
                            )
                        } else {
                            let t = operand_at(s.code.bytes, ip1) as i64;
                            let s2 = VmV { ip: ip1 + 8, ..sp };
                            if cond is Str {
                                StepV::Fault(s2, ErrorV::RuntimeError(msg_string_condition()))
                            } else if truthy(cond) {
                                StepV::Next(VmV { jmp_to_end: true, ..s2 })
                            } else if t < 0 || t as int >= len {
                                StepV::Fault(
                                    s2,
                                    ErrorV::SegFault(s2.ip as nat, msg_restricted_memory()),
                                )
                            } else {
                                StepV::Next(VmV { ip: t as int, jmp_to_end: false, ..s2 })
                            }
                        }
                    }
                },
                OpCode::Else => {
                    if ip1 + 8 > len {
                        StepV::Fault(
                            s1,
                            ErrorV::SegFault(ip1 as nat, msg_truncated_operand()),
                        )
                    } else {
                        let t = operand_at(s.code.bytes, ip1) as i64;
                        let s2 = VmV { ip: ip1 + 8, ..s };
                        if s.jmp_to_end {
                            if t < 0 || t as int >= len {
                                StepV::Fault(
                                    s2,
                                    ErrorV::SegFault(s2.ip as nat, msg_restricted_memory()),
                                )
                            } else {
                                StepV::Next(VmV { ip: t as int, ..s2 })
                            }
                        } else {
                            StepV::Next(s2)
                        }
                    }
                },
                OpCode::Dump => {
                    if s.stack.len() == 0 {
                        StepV::Fault(s1, ErrorV::RuntimeError(msg_stack_underflow()))
                    } else {
                        StepV::Output(
                            VmV { stack: s.stack.drop_last(), ip: ip1, ..s },
                            s.stack.last(),
                        )
                    }
                },
                OpCode::Halt => StepV::Halted(s1),
                _ => StepV::Fault(s1, ErrorV::RuntimeError(msg_reserved_opcode())),
            },
        }
    }
}

/// The two operands of a binary instruction: left below right on the stack.
pub open spec fn peek2(s: VmV) -> (ValueV, ValueV)
    recommends
        s.stack.len() >= 2,
{
    (s.stack[s.stack.len() - 2], s.stack.last())
}

/// A binary arithmetic step on the state just past the opcode byte: the
/// right operand pops first, then the left; the result, or a fault.
pub open spec fn arith_step(s1: VmV, r: Result<ValueV, Seq<char>>) -> StepV {
    if s1.stack.len() < 2 {
        StepV::Fault(s1, ErrorV::RuntimeError(msg_stack_underflow()))
    } else {
        match r {
            Ok(v) => StepV::Next(
                VmV { stack: s1.stack.drop_last().drop_last().push(v), ..s1 },
            ),
            Err(m) => StepV::Fault(
                VmV { stack: s1.stack.drop_last().drop_last(), ..s1 },
                ErrorV::RuntimeError(m),
            ),
        }
    }
}

/// A comparison step: both operands pop and the boolean result is pushed as
/// an integer.
pub open spec fn cmp_step(s1: VmV, v: ValueV) -> StepV {
    if s1.stack.len() < 2 {
        StepV::Fault(s1, ErrorV::RuntimeError(msg_stack_underflow()))
    } else {
        StepV::Next(VmV { stack: s1.stack.drop_last().drop_last().push(v), ..s1 })
    }
}

/// What one step of `step` reports to the driver.
pub enum StepOutcome {
    /// Execution continues.
    Continue,
    /// Execution continues; this value was dumped for printing.
    Output(Value),
    /// Execution stopped normally.
    Halted,
    /// Execution aborted on this fault.
    Fault(Error),
}

/// How a bounded run ended.
#[derive(Debug)]
pub enum RunStatus {
    /// The program ran to its end.
    Halted,
    /// The program aborted on this fault.
    Faulted(Error),
    /// The step budget ran out first: the program may loop forever, which
    /// the machine does not detect.
    Exhausted,
}

/// The mathematical model of a [`RunStatus`].
#[verifier::ext_equal]
pub enum RunStatusV {
    Halted,
    Faulted(ErrorV),
    Exhausted,
}

impl View for RunStatus {
    type V = RunStatusV;

    open spec fn view(&self) -> RunStatusV {
        match self {
            RunStatus::Halted => RunStatusV::Halted,
            RunStatus::Faulted(e) => RunStatusV::Faulted(e@),
            RunStatus::Exhausted => RunStatusV::Exhausted,
        }
    }
}

/// Runs up to `fuel` steps from `s`: the values dumped in order, how the run
/// ended, and the final state.
pub open spec fn run_spec(s: VmV, fuel: nat) -> (Seq<ValueV>, RunStatusV, VmV)
    decreases fuel,
{
    if fuel == 0 {
        (Seq::empty(), RunStatusV::Exhausted, s)
    } else {
        match step_spec(s) {
            StepV::Halted(s2) => (Seq::empty(), RunStatusV::Halted, s2),
            StepV::Fault(s2, e) => (Seq::empty(), RunStatusV::Faulted(e), s2),
            StepV::Next(s2) => run_spec(s2, (fuel - 1) as nat),
            StepV::Output(s2, v) => {
                let r = run_spec(s2, (fuel - 1) as nat);
                (seq![v] + r.0, r.1, r.2)
            },
        }
    }
}

impl VirtualMachine {
    /// A machine with no program loaded: empty stack, empty bytecode, the
    /// instruction pointer at the start.
    pub fn new() -> (r: VirtualMachine)
        ensures
            r@.stack == Seq::<ValueV>::empty(),
            r@.code.bytes == Seq::<u8>::empty(),
            r@.code.constants == Seq::<ValueV>::empty(),
            r@.ip == 0,
            r@.jmp_to_end == false,
    {
        let r = VirtualMachine {
            stack: Vec::new(),
            byte_code: ByteCode::new(),
            ip: 0,
            jmp_to_end: false,
        };
        proof {
            assert(r@.stack =~= Seq::<ValueV>::empty());
        }
        r
    }

    /// Whether the instruction pointer has left the instruction stream.
    pub fn is_at_end(&self) -> (r: bool)
        ensures
            r == (self@.ip >= self@.code.bytes.len()),
    {
        self.ip >= self.byte_code.bytes.len()
    }

    /// Consumes the opcode byte position: returns the current instruction
    /// pointer and advances it by one.
    pub fn advance(&mut self) -> (r: usize)
        requires
            old(self)@.ip < old(self)@.code.bytes.len(),
        ensures
            r == old(self)@.ip,
            final(self)@ == (VmV { ip: old(self)@.ip + 1, ..old(self)@ }),
    {
        let n = self.byte_code.bytes.len();
        self.ip = self.ip + 1;
        proof {
            assert(self@ =~= (VmV { ip: old(self)@.ip + 1, ..old(self)@ }));
        }
        self.ip - 1
    }

    /// Jumps to the given target: an offset outside the instruction stream
    /// is a segmentation fault naming the current instruction pointer.
    pub fn jmp(&mut self, to: i64) -> (r: Result<(), Error>)
        ensures
            to < 0 || to as int >= old(self)@.code.bytes.len() ==> (r matches Err(e) && e@
                == ErrorV::SegFault(old(self)@.ip as nat, msg_restricted_memory()) && final(self)@
                == old(self)@),
            0 <= to as int && (to as int) < old(self)@.code.bytes.len() ==> r is Ok && final(self)@ == (VmV { ip: to as int, ..old(self)@ }),
    {
        if to < 0 || to as u64 >= self.byte_code.bytes.len() as u64 {
            return Err(
                Error::SegFault(
                    self.ip,
                    String::from_str("attempting to access restricted memory"),
                ),
            );
        }
        self.ip = to as usize;
        proof {
            assert(self@ =~= (VmV { ip: to as int, ..old(self)@ }));
        }
        Ok(())
    }

    /// Reads the eight-byte constant-pool index at the instruction pointer
    /// and hands back a copy of that constant, advancing past the operand.
    pub fn read_constant(&mut self) -> (r: Result<Value, Error>)
        ensures
            old(self)@.ip < 0 || old(self)@.ip + 8 > old(self)@.code.bytes.len() ==> (r matches
            Err(e) && e@ == ErrorV::SegFault(old(self)@.ip as nat, msg_truncated_operand())
                && final(self)@ == old(self)@),
            0 <= old(self)@.ip && old(self)@.ip + 8 <= old(self)@.code.bytes.len() ==> ({
                let idx = operand_at(old(self)@.code.bytes, old(self)@.ip);
                let s2 = VmV { ip: old(self)@.ip + 8, ..old(self)@ };
                &&& final(self)@ == s2
                &&& (idx >= old(self)@.code.constants.len() ==> (r matches Err(e) && e@
                    == ErrorV::RuntimeError(msg_bad_constant())))
                &&& (idx < old(self)@.code.constants.len() ==> (r matches Ok(v) && v@ == old(self)@.code.constants[idx as int]))
            }),
    {
        let n = self.byte_code.bytes.len();
        if n < 8 || self.ip > n - 8 {
            return Err(
                Error::SegFault(
                    self.ip,
                    String::from_str("instruction operand past the end of the stream"),
                ),
            );
        }
        let idx = read_u64_le(&self.byte_code.bytes, self.ip);
        self.ip = self.ip + 8;
        proof {
            assert(self@ =~= (VmV { ip: old(self)@.ip + 8, ..old(self)@ }));
        }
        if idx >= self.byte_code.constants.len() as u64 {
            return Err(Error::RuntimeError(String::from_str("constant index out of range")));
        }
        let v = self.byte_code.constants[idx as usize].clone();
        Ok(v)
    }

    /// Reads the eight-byte signed operand at the instruction pointer and
    /// advances past it.
    pub fn read_isize(&mut self) -> (r: Result<i64, Error>)
        ensures
            old(self)@.ip < 0 || old(self)@.ip + 8 > old(self)@.code.bytes.len() ==> (r matches
            Err(e) && e@ == ErrorV::SegFault(old(self)@.ip as nat, msg_truncated_operand())
                && final(self)@ == old(self)@),
            0 <= old(self)@.ip && old(self)@.ip + 8 <= old(self)@.code.bytes.len() ==> ({
                &&& final(self)@ == (VmV { ip: old(self)@.ip + 8, ..old(self)@ })
                &&& r matches Ok(t) && t == operand_at(old(self)@.code.bytes, old(self)@.ip) as i64
            }),
    {
        let n = self.byte_code.bytes.len();
        if n < 8 || self.ip > n - 8 {
            return Err(
                Error::SegFault(
                    self.ip,
                    String::from_str("instruction operand past the end of the stream"),
                ),
            );
        }
        let u = read_u64_le(&self.byte_code.bytes, self.ip);
        self.ip = self.ip + 8;
        proof {
            assert(self@ =~= (VmV { ip: old(self)@.ip + 8, ..old(self)@ }));
        }
        Ok(#[verifier::truncate] (u as i64))
    }

    /// The current instruction pointer.
    pub fn ip(&self) -> (r: usize)
        ensures
            r == self@.ip,
    {
        self.ip
    }

    /// The bytecode currently loaded in the machine.
    pub fn code(&self) -> (r: &ByteCode)
        ensures
            r@ == self@.code,
    {
        &self.byte_code
    }

    /// A copy of the current stack, bottom first.
    pub fn stack_values(&self) -> (r: &Vec<Value>)
        ensures
            Seq::new(r@.len(), |i: int| r@[i]@) == self@.stack,
    {
        proof {
            assert(Seq::new(self.stack@.len(), |i: int| self.stack@[i]@) =~= self@.stack);
        }
        &self.stack
    }
}

/// Relies on `String::from_utf8`: returns the string decoded from the given
/// bytes exactly when they are valid UTF-8, and nothing otherwise.
#[verifier::external_body]
fn string_from_utf8(bytes: Vec<u8>) -> (r: Option<String>)
    ensures
        r matches Some(s) ==> valid_utf8(bytes@) && s@ == decode_utf8(bytes@),
        r is None ==> !valid_utf8(bytes@),
{
    String::from_utf8(bytes).ok()
}

/// The rendering of the stack's contents, bottom first, that the trace
/// option prints after each step.
pub open spec fn stack_items_text(stack: Seq<ValueV>) -> Seq<char>
    decreases stack.len(),
{
    if stack.len() == 0 {
        Seq::empty()
    } else {
        stack_items_text(stack.drop_last()) + "[ "@ + crate::value::value_text(stack.last())
            + " ] "@
    }
}

/// The trace line for a stack: its items, or an empty pair of brackets.
pub open spec fn stack_text_spec(stack: Seq<ValueV>) -> Seq<char> {
    if stack.len() == 0 {
        "[ ]"@
    } else {
        stack_items_text(stack)
    }
}

impl VirtualMachine {
    /// One fetch-decode-dispatch step, exactly as [`step_spec`] describes it.
    pub fn step(&mut self) -> (r: StepOutcome)
        ensures
            match step_spec(old(self)@) {
                StepV::Halted(s2) => r is Halted && final(self)@ == s2,
                StepV::Fault(s2, e) => (r matches StepOutcome::Fault(err) && err@ == e && final(self)@ == s2),
                StepV::Next(s2) => r is Continue && final(self)@ == s2,
                StepV::Output(s2, v) => (r matches StepOutcome::Output(val) && val@ == v && final(self)@ == s2),
            },
    {
        let ghost s0 = self@;
        if self.is_at_end() {
            return StepOutcome::Halted;
        }
        let ip0 = self.advance();
        let b = self.byte_code.bytes[ip0];
        let op = match OpCode::from_byte(b) {
            Some(op) => op,
            None => {
                return StepOutcome::Fault(Error::RuntimeError(String::from_str("invalid opcode")));
            },
        };
        match op {
            OpCode::Push => {
                match self.read_constant() {
                    Ok(v) => {
                        let ghost before = self@;
                        self.stack.push(v);
                        proof {
                            assert(self@ =~= (VmV { stack: before.stack.push(v@), ..before }));
                            assert(step_spec(s0) matches StepV::Next(s2) && self@ =~= s2);
                        }
                        StepOutcome::Continue
                    },
                    Err(e) => StepOutcome::Fault(e),
                }
            },
            OpCode::Add | OpCode::Sub | OpCode::Mul | OpCode::Div | OpCode::Lt | OpCode::Lte
                | OpCode::Gt | OpCode::Gte | OpCode::Eq | OpCode::Ne => {
                if self.stack.len() < 2 {
                    return StepOutcome::Fault(
                        Error::RuntimeError(String::from_str("stack underflow")),
                    );
                }
                let ghost before = self@;
                let rhs = match self.stack.pop() {
                    Some(v) => v,
                    None => {
                        return StepOutcome::Halted;
                    },
                };
                let lhs = match self.stack.pop() {
                    Some(v) => v,
                    None => {
                        return StepOutcome::Halted;
                    },
                };
                proof {
                    assert(self@ =~= (VmV {
                        stack: before.stack.drop_last().drop_last(),
                        ..before
                    }));
                    assert(rhs@ == before.stack.last());
                    assert(lhs@ == before.stack[before.stack.len() - 2]);
                }
                let res: Result<Value, Error> = match op {
                    OpCode::Add => crate::value::value_add(&lhs, &rhs),
                    OpCode::Sub => crate::value::value_sub(&lhs, &rhs),
                    OpCode::Mul => crate::value::value_mul(&lhs, &rhs),
                    OpCode::Div => crate::value::value_div(&lhs, &rhs),
                    OpCode::Lt => Ok(bool_value(crate::value::value_lt(&lhs, &rhs))),
                    OpCode::Lte => Ok(bool_value(!crate::value::value_lt(&rhs, &lhs))),
                    OpCode::Gt => Ok(bool_value(crate::value::value_lt(&rhs, &lhs))),
                    OpCode::Gte => Ok(bool_value(!crate::value::value_lt(&lhs, &rhs))),
                    OpCode::Eq => Ok(bool_value(crate::value::value_eq(&lhs, &rhs))),
                    _ => Ok(bool_value(!crate::value::value_eq(&lhs, &rhs))),
                };
                match res {
                    Ok(v) => {
                        let ghost mid = self@;
                        self.stack.push(v);
                        proof {
                            assert(self@ =~= (VmV { stack: mid.stack.push(v@), ..mid }));
                            assert(step_spec(s0) matches StepV::Next(s2) && self@ =~= s2);
                        }
                        StepOutcome::Continue
                    },
                    Err(e) => {
                        proof {
                            assert(step_spec(s0) matches StepV::Fault(s2, ev) && self@ =~= s2
                                && e@ == ev);
                        }
                        StepOutcome::Fault(e)
                    },
                }
            },
            OpCode::If => {
                if self.stack.len() == 0 {
                    return StepOutcome::Fault(
                        Error::RuntimeError(String::from_str("stack underflow")),
                    );
                }
                let ghost before = self@;
                let cond = match self.stack.pop() {
                    Some(v) => v,
                    None => {
                        return StepOutcome::Halted;
                    },
                };
                proof {
                    assert(self@ =~= (VmV { stack: before.stack.drop_last(), ..before }));
                    assert(cond@ == before.stack.last());
                }
                match self.read_isize() {
                    Err(e) => StepOutcome::Fault(e),
                    Ok(t) => {
                        if matches!(&cond, Value::String(..)) {
                            StepOutcome::Fault(
                                Error::RuntimeError(
                                    String::from_str("a string cannot be used as a condition"),
                                ),
                            )
                        } else if cond.is_truthy() {
                            self.jmp_to_end = true;
                            proof {
                                assert(step_spec(s0) matches StepV::Next(s2) && self@ =~= s2);
                            }
                            StepOutcome::Continue
                        } else {
                            match self.jmp(t) {
                                Ok(..) => {
                                    self.jmp_to_end = false;
                                    proof {
                                        assert(step_spec(s0) matches StepV::Next(s2) && self@
                                            =~= s2);
                                    }
                                    StepOutcome::Continue
                                },
                                Err(e) => StepOutcome::Fault(e),
                            }
                        }
                    },
                }
            },
            OpCode::Else => {
                match self.read_isize() {
                    Err(e) => StepOutcome::Fault(e),
                    Ok(t) => {
                        if self.jmp_to_end {
                            match self.jmp(t) {
                                Ok(..) => {
                                    proof {
                                        assert(step_spec(s0) matches StepV::Next(s2) && self@
                                            =~= s2);
                                    }
                                    StepOutcome::Continue
                                },
                                Err(e) => StepOutcome::Fault(e),
                            }
                        } else {
                            proof {
                                assert(step_spec(s0) matches StepV::Next(s2) && self@ =~= s2);
                            }
                            StepOutcome::Continue
                        }
                    },
                }
            },
            OpCode::Dump => {
                if self.stack.len() == 0 {
                    return StepOutcome::Fault(
                        Error::RuntimeError(String::from_str("stack underflow")),
                    );
                }
                let ghost before = self@;
                let v = match self.stack.pop() {
                    Some(v) => v,
                    None => {
                        return StepOutcome::Halted;
                    },
                };
                proof {
                    assert(self@ =~= (VmV { stack: before.stack.drop_last(), ..before }));
                    assert(v@ == before.stack.last());
                    assert(step_spec(s0) matches StepV::Output(s2, ov) && self@ =~= s2 && v@ == ov);
                }
                StepOutcome::Output(v)
            },
            OpCode::Halt => StepOutcome::Halted,
            OpCode::Dup | OpCode::While | OpCode::Do | OpCode::LBrace | OpCode::RBrace => {
                StepOutcome::Fault(
                    Error::RuntimeError(String::from_str("unimplemented instruction")),
                )
            },
        }
    }

    /// Runs up to `max_steps` steps, collecting every dumped value in order,
    /// and reports how the run ended. The step budget exists because a
    /// corrupted binary can jump backward forever, which the machine does
    /// not otherwise detect.
    pub fn execute(&mut self, max_steps: u64) -> (r: (Vec<Value>, RunStatus))
        ensures
            ({
                let (os, st, sf) = run_spec(old(self)@, max_steps as nat);
                &&& Seq::new(r.0@.len(), |i: int| r.0@[i]@) == os
                &&& r.1@ == st
                &&& final(self)@ == sf
            }),
    {
        let ghost s_init = self@;
        let mut outputs: Vec<Value> = Vec::new();
        let mut fuel: u64 = max_steps;
        proof {
            assert(Seq::new(outputs@.len(), |i: int| outputs@[i]@) =~= Seq::<ValueV>::empty());
        }
        while fuel > 0
            invariant
                s_init == old(self)@,
                ({
                    let whole = run_spec(s_init, max_steps as nat);
                    let part = run_spec(self@, fuel as nat);
                    let outv = Seq::new(outputs@.len(), |i: int| outputs@[i]@);
                    &&& whole.0 == outv + part.0
                    &&& whole.1 == part.1
                    &&& whole.2 == part.2
                }),
            decreases fuel,
        {
            let ghost s_cur = self@;
            let ghost pre_out = Seq::new(outputs@.len(), |i: int| outputs@[i]@);
            match self.step() {
                StepOutcome::Continue => {
                    fuel = fuel - 1;
                },
                StepOutcome::Output(v) => {
                    let ghost vv = v@;
                    outputs.push(v);
                    fuel = fuel - 1;
                    proof {
                        assert(Seq::new(outputs@.len(), |i: int| outputs@[i]@) =~= pre_out.push(
                            vv,
                        ));
                        let part2 = run_spec(self@, fuel as nat);
                        assert(pre_out.push(vv) + part2.0 =~= pre_out + (seq![vv] + part2.0));
                    }
                },
                StepOutcome::Halted => {
                    proof {
                        let outv = Seq::new(outputs@.len(), |i: int| outputs@[i]@);
                        assert(outv + Seq::<ValueV>::empty() =~= outv);
                    }
                    return (outputs, RunStatus::Halted);
                },
                StepOutcome::Fault(e) => {
                    proof {
                        let outv = Seq::new(outputs@.len(), |i: int| outputs@[i]@);
                        assert(outv + Seq::<ValueV>::empty() =~= outv);
                    }
                    return (outputs, RunStatus::Faulted(e));
                },
            }
        }
        (outputs, RunStatus::Exhausted)
    }

    /// The trace rendering of the current stack.
    pub fn stack_text(&self) -> (r: String)
        ensures
            r@ == stack_text_spec(self@.stack),
    {
        let n = self.stack.len();
        if n == 0 {
            return String::from_str("[ ]");
        }
        let mut s = String::new();
        let mut i: usize = 0;
        proof {
            assert(self@.stack.subrange(0, 0) =~= Seq::<ValueV>::empty());
        }
        while i < n
            invariant
                n == self.stack@.len(),
                n == self@.stack.len(),
                i <= n,
                s@ == stack_items_text(self@.stack.subrange(0, i as int)),
            decreases n - i,
        {
            s.append("[ ");
            let vt = self.stack[i].text();
            s.append(vt.as_str());
            s.append(" ] ");
            proof {
                assert(self@.stack.subrange(0, i as int + 1).drop_last() =~= self@.stack.subrange(
                    0,
                    i as int,
                ));
                assert(self@.stack.subrange(0, i as int + 1).last() == self@.stack[i as int]);
                assert(self@.stack[i as int] == self.stack@[i as int]@);
                assert(s@ =~= stack_items_text(self@.stack.subrange(0, i as int + 1)));
            }
            i = i + 1;
        }
        proof {
            assert(self@.stack.subrange(0, n as int) =~= self@.stack);
        }
        s
    }

    /// Parses the serialized constant pool that starts at `from` and appends
    /// the decoded constants to the pool, in order. A truncated entry or an
    /// unknown tag is a corrupted binary; string bytes that are not valid
    /// UTF-8 are an invalid string encoding. On a fault, everything but the
    /// pool is untouched, and the pool has grown by exactly the entries
    /// decoded before the malformed one.
    pub fn load_constants(&mut self, bytes: &Vec<u8>, from: usize) -> (r: Result<(), Error>)
        requires
            from <= bytes@.len(),
        ensures
            match parse_constants(bytes@.skip(from as int)) {
                Ok(cs) => r is Ok && final(self)@ == (VmV {
                    code: ByteCodeV {
                        bytes: old(self)@.code.bytes,
                        constants: old(self)@.code.constants + cs,
                    },
                    ..old(self)@
                }),
                Err(e) => (r matches Err(err) && err@ == e) && final(self)@ == (VmV {
                    code: ByteCodeV {
                        bytes: old(self)@.code.bytes,
                        constants: old(self)@.code.constants + parsed_prefix(
                            bytes@.skip(from as int),
                        ),
                    },
                    ..old(self)@
                }),
            },
    {
        let ghost s_init = self@;
        let n = bytes.len();
        let mut pos: usize = from;
        let ghost mut acc: Seq<ValueV> = Seq::empty();
        proof {
            assert(self@.code.constants =~= s_init.code.constants + acc);
            assert(acc + parsed_prefix(bytes@.skip(from as int)) =~= parsed_prefix(
                bytes@.skip(from as int),
            ));
        }
        while pos < n
            invariant
                s_init == old(self)@,
                n == bytes@.len(),
                from <= pos <= n,
                self@.code.bytes == s_init.code.bytes,
                self@.stack == s_init.stack,
                self@.ip == s_init.ip,
                self@.jmp_to_end == s_init.jmp_to_end,
                self@.code.constants == s_init.code.constants + acc,
                parse_constants(bytes@.skip(from as int)) == (match parse_constants(
                    bytes@.skip(pos as int),
                ) {
                    Ok(rest) => Ok::<Seq<ValueV>, ErrorV>(acc + rest),
                    Err(e) => Err(e),
                }),
                parsed_prefix(bytes@.skip(from as int)) == acc + parsed_prefix(
                    bytes@.skip(pos as int),
                ),
            decreases n - pos,
        {
            let ghost bs = bytes@.skip(pos as int);
            let ghost acc0 = acc;
            proof {
                assert(bs[0] == bytes@[pos as int]);
                assert(bs.len() == n - pos);
            }
            let tag = bytes[pos];
            if tag == 0 {
                if n - pos < 5 {
                    proof {
                        assert(parse_constants(bs) == Err::<Seq<ValueV>, ErrorV>(
                            ErrorV::CorruptedBinary,
                        ));
                        assert(parsed_prefix(bs) =~= Seq::<ValueV>::empty());
                        assert(acc + parsed_prefix(bs) =~= acc);
                        assert(self@ =~= (VmV {
                            code: ByteCodeV {
                                bytes: s_init.code.bytes,
                                constants: s_init.code.constants + parsed_prefix(
                                    bytes@.skip(from as int),
                                ),
                            },
                            ..s_init
                        }));
                    }
                    return Err(Error::CorruptedBinary);
                }
                let x = read_u32_le(bytes, pos + 1);
                let v = Value::Int32(#[verifier::truncate] (x as i32));
                let ghost vv = v@;
                let ghost before_c = self@.code.constants;
                self.byte_code.constants.push(v);
                proof {
                    assert(self@.code.constants =~= before_c.push(vv));
                    assert(bs.subrange(1, 5) =~= bytes@.subrange(pos + 1, pos + 5));
                    assert(bs.skip(5) =~= bytes@.skip(pos + 5));
                    acc = acc0.push(vv);
                    assert(self@.code.constants =~= s_init.code.constants + acc);
                    lemma_parse_step(bytes@, from as int, pos as int, pos + 5, acc0, vv);
                    assert(parsed_prefix(bs) == seq![vv] + parsed_prefix(bytes@.skip(pos + 5)));
                    lemma_prefix_step(bytes@, from as int, pos as int, pos + 5, acc0, vv);
                }
                pos = pos + 5;
            } else if tag == 1 {
                if n - pos < 5 {
                    proof {
                        assert(parse_constants(bs) == Err::<Seq<ValueV>, ErrorV>(
                            ErrorV::CorruptedBinary,
                        ));
                        assert(parsed_prefix(bs) =~= Seq::<ValueV>::empty());
                        assert(acc + parsed_prefix(bs) =~= acc);
                        assert(self@ =~= (VmV {
                            code: ByteCodeV {
                                bytes: s_init.code.bytes,
                                constants: s_init.code.constants + parsed_prefix(
                                    bytes@.skip(from as int),
                                ),
                            },
                            ..s_init
                        }));
                    }
                    return Err(Error::CorruptedBinary);
                }
                let x = read_u32_le(bytes, pos + 1);
                let v = Value::UInt32(x);
                let ghost vv = v@;
                let ghost before_c = self@.code.constants;
                self.byte_code.constants.push(v);
                proof {
                    assert(self@.code.constants =~= before_c.push(vv));
                    assert(bs.subrange(1, 5) =~= bytes@.subrange(pos + 1, pos + 5));
                    assert(bs.skip(5) =~= bytes@.skip(pos + 5));
                    acc = acc0.push(vv);
                    assert(self@.code.constants =~= s_init.code.constants + acc);
                    lemma_parse_step(bytes@, from as int, pos as int, pos + 5, acc0, vv);
                    assert(parsed_prefix(bs) == seq![vv] + parsed_prefix(bytes@.skip(pos + 5)));
                    lemma_prefix_step(bytes@, from as int, pos as int, pos + 5, acc0, vv);
                }
                pos = pos + 5;
            } else if tag == 2 {
                if n - pos < 9 {
                    proof {
                        assert(parse_constants(bs) == Err::<Seq<ValueV>, ErrorV>(
                            ErrorV::CorruptedBinary,
                        ));
                        assert(parsed_prefix(bs) =~= Seq::<ValueV>::empty());
                        assert(acc + parsed_prefix(bs) =~= acc);
                        assert(self@ =~= (VmV {
                            code: ByteCodeV {
                                bytes: s_init.code.bytes,
                                constants: s_init.code.constants + parsed_prefix(
                                    bytes@.skip(from as int),
                                ),
                            },
                            ..s_init
                        }));
                    }
                    return Err(Error::CorruptedBinary);
                }
                let len64 = read_u64_le(bytes, pos + 1);
                proof {
                    assert(bs.subrange(1, 9) =~= bytes@.subrange(pos + 1, pos + 9));
                }
                if len64 > (n - pos - 9) as u64 {
                    proof {
                        assert(parse_constants(bs) == Err::<Seq<ValueV>, ErrorV>(
                            ErrorV::CorruptedBinary,
                        ));
                        assert(parsed_prefix(bs) =~= Seq::<ValueV>::empty());
                        assert(acc + parsed_prefix(bs) =~= acc);
                        assert(self@ =~= (VmV {
                            code: ByteCodeV {
                                bytes: s_init.code.bytes,
                                constants: s_init.code.constants + parsed_prefix(
                                    bytes@.skip(from as int),
                                ),
                            },
                            ..s_init
                        }));
                    }
                    return Err(Error::CorruptedBinary);
                }
                let slen = len64 as usize;
                let mut sb: Vec<u8> = Vec::new();
                let mut j: usize = 0;
                while j < slen
                    invariant
                        j <= slen,
                        pos + 9 + slen <= n == bytes@.len(),
                        sb@ =~= bytes@.subrange(pos + 9, pos + 9 + j as int),
                    decreases slen - j,
                {
                    sb.push(bytes[pos + 9 + j]);
                    proof {
                        assert(sb@ =~= bytes@.subrange(pos + 9, pos + 9 + j as int + 1));
                    }
                    j = j + 1;
                }
                let ghost sbv = sb@;
                match string_from_utf8(sb) {
                    None => {
                        proof {
                            assert(bs.subrange(9, 9 + slen as int) =~= sbv);
                            assert(parse_constants(bs) == Err::<Seq<ValueV>, ErrorV>(
                                ErrorV::InvalidUTF8String,
                            ));
                            assert(parsed_prefix(bs) =~= Seq::<ValueV>::empty());
                            assert(acc + parsed_prefix(bs) =~= acc);
                            assert(self@ =~= (VmV {
                                code: ByteCodeV {
                                    bytes: s_init.code.bytes,
                                    constants: s_init.code.constants + parsed_prefix(
                                        bytes@.skip(from as int),
                                    ),
                                },
                                ..s_init
                            }));
                        }
                        return Err(Error::InvalidUTF8String);
                    },
                    Some(st) => {
                        let v = Value::String(st);
                        let ghost vv = v@;
                        let ghost before_c = self@.code.constants;
                        self.byte_code.constants.push(v);
                        proof {
                            assert(self@.code.constants =~= before_c.push(vv));
                            assert(bs.subrange(1, 9) =~= bytes@.subrange(pos + 1, pos + 9));
                            assert(bs.subrange(9, 9 + slen as int) =~= sbv);
                            assert(bs.skip(9 + slen as int) =~= bytes@.skip(pos + 9 + slen as int));
                            acc = acc0.push(vv);
                            assert(self@.code.constants =~= s_init.code.constants + acc);
                            lemma_parse_step(
                                bytes@,
                                from as int,
                                pos as int,
                                pos + 9 + slen as int,
                                acc0,
                                vv,
                            );
                            assert(parsed_prefix(bs) == seq![vv] + parsed_prefix(
                                bytes@.skip(pos + 9 + slen as int),
                            ));
                            lemma_prefix_step(
                                bytes@,
                                from as int,
                                pos as int,
                                pos + 9 + slen as int,
                                acc0,
                                vv,
                            );
                        }
                        pos = pos + 9 + slen;
                    },
                }
            } else {
                proof {
                    assert(parse_constants(bs) == Err::<Seq<ValueV>, ErrorV>(
                        ErrorV::CorruptedBinary,
                    ));
                    assert(parsed_prefix(bs) =~= Seq::<ValueV>::empty());
                    assert(acc + parsed_prefix(bs) =~= acc);
                    assert(self@ =~= (VmV {
                        code: ByteCodeV {
                            bytes: s_init.code.bytes,
                            constants: s_init.code.constants + parsed_prefix(
                                bytes@.skip(from as int),
                            ),
                        },
                        ..s_init
                    }));
                }
                return Err(Error::CorruptedBinary);
            }
        }
        proof {
            assert(bytes@.skip(n as int) =~= Seq::<u8>::empty());
            assert(parse_constants(bytes@.skip(pos as int)) == Ok::<Seq<ValueV>, ErrorV>(
                Seq::empty(),
            ));
            assert(acc + Seq::<ValueV>::empty() =~= acc);
            assert(self@ =~= (VmV {
                code: ByteCodeV {
                    bytes: s_init.code.bytes,
                    constants: s_init.code.constants + acc,
                },
                ..s_init
            }));
        }
        Ok(())
    }

    /// Loads a binary container: rejects an empty or truncated file and a
    /// halt index inconsistent with the stream length as corrupted, strips
    /// the header, installs the instruction bytes, and decodes the trailing
    /// constant pool. A fault leaves the machine untouched when the framing
    /// itself is bad, and otherwise leaves the instruction bytes installed
    /// with the pool grown by the entries decoded before the malformed one;
    /// either way no instruction has executed.
    pub fn load_binary(&mut self, data: Vec<u8>) -> (r: Result<(), Error>)
        ensures
            match parse_container(data@) {
                Ok(bc) => r is Ok && final(self)@ == (VmV {
                    code: ByteCodeV {
                        bytes: bc.bytes,
                        constants: old(self)@.code.constants + bc.constants,
                    },
                    ..old(self)@
                }),
                Err(e) => (r matches Err(err) && err@ == e) && ({
                    let halt = spec_u64_from_le_bytes(data@.subrange(0, 8)) as int;
                    if data@.len() < 8 || 8 + halt + 1 > data@.len() {
                        final(self)@ == old(self)@
                    } else {
                        final(self)@ == (VmV {
                            code: ByteCodeV {
                                bytes: data@.subrange(8, 8 + halt + 1),
                                constants: old(self)@.code.constants + parsed_prefix(
                                    data@.skip(8 + halt + 1),
                                ),
                            },
                            ..old(self)@
                        })
                    }
                }),
            },
    {
        let ghost s_init = self@;
        let n = data.len();
        if n < 8 {
            return Err(Error::CorruptedBinary);
        }
        let halt = read_u64_le(&data, 0);
        if n < 9 || halt > (n - 9) as u64 {
            return Err(Error::CorruptedBinary);
        }
        let end = 8 + (halt as usize) + 1;
        let mut instr: Vec<u8> = Vec::new();
        let mut i: usize = 8;
        while i < end
            invariant
                8 <= i <= end <= n == data@.len(),
                instr@ =~= data@.subrange(8, i as int),
            decreases end - i,
        {
            instr.push(data[i]);
            proof {
                assert(instr@ =~= data@.subrange(8, i as int + 1));
            }
            i = i + 1;
        }
        self.byte_code.bytes = instr;
        let ghost s_mid = self@;
        proof {
            assert(s_mid =~= (VmV {
                code: ByteCodeV {
                    bytes: data@.subrange(8, end as int),
                    constants: s_init.code.constants,
                },
                ..s_init
            }));
        }
        match self.load_constants(&data, end) {
            Ok(..) => {
                proof {
                    let bc = parse_container(data@)->Ok_0;
                    assert(self@ =~= (VmV {
                        code: ByteCodeV {
                            bytes: bc.bytes,
                            constants: s_init.code.constants + bc.constants,
                        },
                        ..s_init
                    }));
                }
                Ok(())
            },
            Err(e) => {
                proof {
                    assert(self@ =~= (VmV {
                        code: ByteCodeV {
                            bytes: data@.subrange(8, end as int),
                            constants: s_init.code.constants + parsed_prefix(
                                data@.skip(end as int),
                            ),
                        },
                        ..s_init
                    }));
                }
                Err(e)
            },
        }
    }
}

/// One decoded constant extends the accumulated pool exactly as one
/// unfolding of the pool parser says it does.
proof fn lemma_parse_step(
    data: Seq<u8>,
    from: int,
    pos: int,
    pos2: int,
    acc: Seq<ValueV>,
    v: ValueV,
)
    requires
        parse_constants(data.skip(from)) == (match parse_constants(data.skip(pos)) {
            Ok(rest) => Ok::<Seq<ValueV>, ErrorV>(acc + rest),
            Err(e) => Err(e),
        }),
        parse_constants(data.skip(pos)) == (match parse_constants(data.skip(pos2)) {
            Ok(rest) => Ok::<Seq<ValueV>, ErrorV>(seq![v] + rest),
            Err(e) => Err(e),
        }),
    ensures
        parse_constants(data.skip(from)) == (match parse_constants(data.skip(pos2)) {
            Ok(rest) => Ok::<Seq<ValueV>, ErrorV>(acc.push(v) + rest),
            Err(e) => Err(e),
        }),
{
    match parse_constants(data.skip(pos2)) {
        Ok(rest) => {
            assert(acc + (seq![v] + rest) =~= acc.push(v) + rest);
        },
        Err(..) => {},
    }
}

/// One decoded constant extends the installed prefix exactly as one
/// unfolding of the prefix function says it does.
proof fn lemma_prefix_step(
    data: Seq<u8>,
    from: int,
    pos: int,
    pos2: int,
    acc: Seq<ValueV>,
    v: ValueV,
)
    requires
        parsed_prefix(data.skip(from)) == acc + parsed_prefix(data.skip(pos)),
        parsed_prefix(data.skip(pos)) == seq![v] + parsed_prefix(data.skip(pos2)),
    ensures
        parsed_prefix(data.skip(from)) == acc.push(v) + parsed_prefix(data.skip(pos2)),
{
    assert(acc + (seq![v] + parsed_prefix(data.skip(pos2))) =~= acc.push(v) + parsed_prefix(
        data.skip(pos2),
    ));
}

/// The integer a comparison pushes: one for true, zero for false.
fn bool_value(b: bool) -> (r: Value)
    ensures
        r@ == cmp_result(b),
{
    if b {
        Value::Int32(1)
    } else {
        Value::Int32(0)
    }
}

} // verus!
