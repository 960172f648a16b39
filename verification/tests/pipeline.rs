//! End-to-end tests over the whole toolchain: compile, frame, load, and
//! execute, with the faults each stage owes.

use nere::compiler::Compiler;
use nere::error::Error;
use nere::value::Value;
use nere::virtual_machine::{RunStatus, VirtualMachine};

fn compile_to_binary(source: &str) -> Vec<u8> {
    let compiler = Compiler::default();
    let byte_code = compiler.compile("test.nere", source).expect("program should compile");
    compiler.to_binary(&byte_code)
}

fn run_program(source: &str) -> (Vec<Value>, RunStatus, VirtualMachine) {
    let binary = compile_to_binary(source);
    let mut vm = VirtualMachine::new();
    vm.load_binary(binary).expect("binary should load");
    let (outputs, status) = vm.execute(100_000);
    (outputs, status, vm)
}

#[test]
fn stack_addition_yields_seven() {
    let (_, status, vm) = run_program("3 4 +");
    assert!(matches!(status, RunStatus::Halted));
    assert_eq!(vm.stack_values(), &vec![Value::Int32(7)]);
}

#[test]
fn division_by_zero_is_a_fault() {
    let (_, status, _) = run_program("10 0 /");
    match status {
        RunStatus::Faulted(Error::RuntimeError(m)) => assert_eq!(m, "division by zero"),
        other => panic!("expected a division fault, got {other:?}"),
    }
}

#[test]
fn subtraction_pops_rhs_then_lhs() {
    let (_, status, vm) = run_program("10 3 -");
    assert!(matches!(status, RunStatus::Halted));
    assert_eq!(vm.stack_values(), &vec![Value::Int32(7)]);
}

#[test]
fn signed_division_truncates_toward_zero() {
    let (_, _, vm) = run_program("0 7 - 2 /");
    assert_eq!(vm.stack_values(), &vec![Value::Int32(-3)]);
}

#[test]
fn comparisons_push_one_or_zero() {
    let (_, _, vm) = run_program("1 2 < 2 1 < 3 3 = 3 4 !");
    assert_eq!(
        vm.stack_values(),
        &vec![Value::Int32(1), Value::Int32(0), Value::Int32(1), Value::Int32(1)]
    );
}

#[test]
fn dump_outputs_values_in_order() {
    let (outputs, status, vm) = run_program("1 . 2 . 3 .");
    assert!(matches!(status, RunStatus::Halted));
    assert_eq!(outputs, vec![Value::Int32(1), Value::Int32(2), Value::Int32(3)]);
    assert!(vm.stack_values().is_empty());
}

#[test]
fn string_concatenation() {
    let (outputs, _, _) = run_program("\"answer: \" 42 + .");
    assert_eq!(outputs, vec![Value::String(String::from("answer: 42"))]);
}

#[test]
fn string_literal_compiles_to_tagged_pool_entry() {
    // one string constant: the pool entry is tag 2, an eight-byte length of
    // two, then the raw bytes of "ab"
    let binary = compile_to_binary("\"ab\" .");
    // layout: 8-byte header, Push (9), Dump (1), Halt (1), then the pool
    assert_eq!(u64::from_le_bytes(binary[0..8].try_into().unwrap()), 10);
    let pool = &binary[8 + 11..];
    assert_eq!(pool[0], 2);
    assert_eq!(u64::from_le_bytes(pool[1..9].try_into().unwrap()), 2);
    assert_eq!(&pool[9..11], &[0x61, 0x62]);
    assert_eq!(pool.len(), 11);
    // reloading the binary and dumping it prints the same text back
    let mut vm = VirtualMachine::new();
    vm.load_binary(binary).unwrap();
    let (outputs, status) = vm.execute(100);
    assert!(matches!(status, RunStatus::Halted));
    assert_eq!(outputs.len(), 1);
    assert_eq!(outputs[0].text(), "ab");
}

#[test]
fn true_branch_executes_if_body() {
    let (outputs, status, _) = run_program("1 if { 10 . } 20 .");
    assert!(matches!(status, RunStatus::Halted));
    assert_eq!(outputs, vec![Value::Int32(10), Value::Int32(20)]);
}

#[test]
fn false_branch_skips_if_body() {
    let (outputs, _, _) = run_program("0 if { 10 . } 20 .");
    assert_eq!(outputs, vec![Value::Int32(20)]);
}

#[test]
fn false_condition_takes_else_branch() {
    let (outputs, _, _) = run_program("0 if { 1 . } else { 2 . } 3 .");
    assert_eq!(outputs, vec![Value::Int32(2), Value::Int32(3)]);
}

#[test]
fn true_condition_skips_else_branch() {
    let (outputs, _, _) = run_program("1 if { 1 . } else { 2 . } 3 .");
    assert_eq!(outputs, vec![Value::Int32(1), Value::Int32(3)]);
}

#[test]
fn if_jump_target_is_offset_after_closing_brace() {
    // layout: Push(9) If(9) Push(9) Dump(1) Push(9) Dump(1) Halt(1); the
    // `if` target is the offset just past the closing brace: 9+9+9+1 = 28
    let compiler = Compiler::default();
    let bc = compiler.compile("test.nere", "1 if { 2 . } 3 .").unwrap();
    let target = u64::from_le_bytes(bc.bytes[10..18].try_into().unwrap());
    assert_eq!(target, 28);
}

#[test]
fn if_else_jump_targets() {
    // layout: Push(9) If(9) Push(9) Dump(1) Else(9) Push(9) Dump(1) Halt(1):
    // the `if` target is the `else` instruction's own offset (28); the
    // `else` target is the offset just past the else-body (47)
    let compiler = Compiler::default();
    let bc = compiler.compile("test.nere", "0 if { 1 . } else { 2 . }").unwrap();
    let if_target = u64::from_le_bytes(bc.bytes[10..18].try_into().unwrap());
    assert_eq!(if_target, 28);
    assert_eq!(bc.bytes[28], 13);
    let else_target = u64::from_le_bytes(bc.bytes[29..37].try_into().unwrap());
    assert_eq!(else_target, 47);
}

#[test]
fn empty_binary_is_corrupted() {
    // the fault comes before any instruction runs: the machine is untouched
    let mut vm = VirtualMachine::new();
    let r = vm.load_binary(Vec::new());
    assert!(matches!(r, Err(Error::CorruptedBinary)));
    assert!(vm.code().bytes.is_empty());
    assert!(vm.code().constants.is_empty());
    assert!(vm.stack_values().is_empty());
    assert_eq!(vm.ip(), 0);
}

#[test]
fn truncated_header_is_corrupted() {
    let mut vm = VirtualMachine::new();
    assert!(matches!(vm.load_binary(vec![1, 2, 3]), Err(Error::CorruptedBinary)));
    assert!(vm.code().bytes.is_empty());
    assert!(vm.code().constants.is_empty());
}

#[test]
fn inconsistent_halt_index_is_corrupted() {
    // a header that claims more instruction bytes than the file holds
    let mut data = Vec::new();
    data.extend_from_slice(&100u64.to_le_bytes());
    data.push(17);
    let mut vm = VirtualMachine::new();
    assert!(matches!(vm.load_binary(data), Err(Error::CorruptedBinary)));
    assert!(vm.code().bytes.is_empty());
    assert!(vm.code().constants.is_empty());
}

#[test]
fn invalid_utf8_constant_is_a_load_fault() {
    // instructions: a single Halt; pool: a string entry whose byte is not
    // valid UTF-8
    let mut data = Vec::new();
    data.extend_from_slice(&0u64.to_le_bytes());
    data.push(17);
    data.push(2);
    data.extend_from_slice(&1u64.to_le_bytes());
    data.push(0xff);
    let mut vm = VirtualMachine::new();
    assert!(matches!(vm.load_binary(data), Err(Error::InvalidUTF8String)));
}

#[test]
fn pool_fault_keeps_the_entries_decoded_before_it() {
    // pool: a good integer entry, then a string entry with bad UTF-8; the
    // fault leaves the instruction bytes installed and exactly the good
    // entry appended, and no instruction has executed
    let mut data = Vec::new();
    data.extend_from_slice(&0u64.to_le_bytes());
    data.push(17);
    data.push(0);
    data.extend_from_slice(&41i32.to_le_bytes());
    data.push(2);
    data.extend_from_slice(&1u64.to_le_bytes());
    data.push(0xff);
    let mut vm = VirtualMachine::new();
    assert!(matches!(vm.load_binary(data), Err(Error::InvalidUTF8String)));
    assert_eq!(vm.code().bytes, vec![17]);
    assert_eq!(vm.code().constants, vec![Value::Int32(41)]);
    assert!(vm.stack_values().is_empty());
    assert_eq!(vm.ip(), 0);
}

#[test]
fn jump_to_stream_length_names_the_faulting_ip() {
    // Push a falsy condition, then an `if` whose target equals the
    // instruction-stream length (18): an out-of-bounds fault at ip 18
    let mut instr = Vec::new();
    instr.push(0u8);
    instr.extend_from_slice(&0u64.to_le_bytes());
    instr.push(12u8);
    instr.extend_from_slice(&18u64.to_le_bytes());
    let mut data = Vec::new();
    data.extend_from_slice(&((instr.len() - 1) as u64).to_le_bytes());
    data.extend_from_slice(&instr);
    data.push(0);
    data.extend_from_slice(&0i32.to_le_bytes());
    let mut vm = VirtualMachine::new();
    vm.load_binary(data).unwrap();
    let (_, status) = vm.execute(100);
    match status {
        RunStatus::Faulted(Error::SegFault(ip, m)) => {
            assert_eq!(ip, 18);
            assert_eq!(m, "attempting to access restricted memory");
        },
        other => panic!("expected an out-of-bounds fault, got {other:?}"),
    }
}

#[test]
fn backward_jump_exhausts_the_step_budget() {
    // a falsy `if` that jumps back to the start loops forever; the bounded
    // driver reports exhaustion instead of hanging
    let mut instr = Vec::new();
    instr.push(0u8);
    instr.extend_from_slice(&0u64.to_le_bytes());
    instr.push(12u8);
    instr.extend_from_slice(&0u64.to_le_bytes());
    let mut data = Vec::new();
    data.extend_from_slice(&((instr.len() - 1) as u64).to_le_bytes());
    data.extend_from_slice(&instr);
    data.push(0);
    data.extend_from_slice(&0i32.to_le_bytes());
    let mut vm = VirtualMachine::new();
    vm.load_binary(data).unwrap();
    let (_, status) = vm.execute(1000);
    assert!(matches!(status, RunStatus::Exhausted));
}

#[test]
fn stack_underflow_is_a_fault() {
    let (_, status, _) = run_program("1 +");
    match status {
        RunStatus::Faulted(Error::RuntimeError(m)) => assert_eq!(m, "stack underflow"),
        other => panic!("expected a stack underflow, got {other:?}"),
    }
}

#[test]
fn mismatched_operand_types_are_a_fault() {
    let (_, status, _) = run_program("1 \"x\" +");
    match status {
        RunStatus::Faulted(Error::RuntimeError(m)) => assert_eq!(m, "unsupported operand types"),
        other => panic!("expected a type fault, got {other:?}"),
    }
}

#[test]
fn stack_trace_rendering() {
    let (_, _, vm) = run_program("1 2");
    assert_eq!(vm.stack_text(), "[ 1 ] [ 2 ] ");
    let empty = VirtualMachine::new();
    assert_eq!(empty.stack_text(), "[ ]");
}

#[test]
fn empty_source_compiles_to_a_lone_halt() {
    let (outputs, status, vm) = run_program("");
    assert!(matches!(status, RunStatus::Halted));
    assert!(outputs.is_empty());
    assert!(vm.stack_values().is_empty());
    assert_eq!(vm.code().bytes, vec![17]);
}

#[test]
fn nested_if_blocks_resolve_independently() {
    let (outputs, _, _) = run_program("1 if { 1 if { 5 . } 6 . } 7 .");
    assert_eq!(outputs, vec![Value::Int32(5), Value::Int32(6), Value::Int32(7)]);
    let (outputs, _, _) = run_program("0 if { 1 if { 5 . } 6 . } 7 .");
    assert_eq!(outputs, vec![Value::Int32(7)]);
}

#[test]
fn consecutive_if_else_constructs() {
    let (outputs, status, _) = run_program("1 if { 1 . } else { 2 . } 0 if { 3 . } else { 4 . }");
    assert!(matches!(status, RunStatus::Halted));
    assert_eq!(outputs, vec![Value::Int32(1), Value::Int32(4)]);
}

#[test]
fn reserved_opcodes_fault_at_dispatch() {
    let (_, status, _) = run_program("dup");
    match status {
        RunStatus::Faulted(Error::RuntimeError(m)) => assert_eq!(m, "unimplemented instruction"),
        other => panic!("expected a reserved-opcode fault, got {other:?}"),
    }
}

#[test]
fn nested_if_jump_targets() {
    // layout: Push(9) If(9) Push(9) If(9) Push(9) Dump(1) Push(9) Dump(1)
    // Halt(1): the inner `if` resolves to the offset after its own brace
    // (46), the outer to the offset after the outer brace (56)
    let compiler = Compiler::default();
    let bc = compiler.compile("test.nere", "1 if { 1 if { 2 . } 3 . } 4 .").unwrap();
    let outer = u64::from_le_bytes(bc.bytes[10..18].try_into().unwrap());
    let inner = u64::from_le_bytes(bc.bytes[28..36].try_into().unwrap());
    assert_eq!(inner, 46);
    assert_eq!(outer, 56);
}
