//! Unit tests of the value model, the opcode tables, the disassembler, the
//! error rendering, and the path helpers.

use nere::bytecode::ByteCode;
use nere::compiler::Compiler;
use nere::disassembler::Disassembler;
use nere::error::Error;
use nere::opcode::OpCode;
use nere::token::Location;
use nere::utils;
use nere::value::{value_add, value_div, value_eq, value_lt, Value};
use nere::virtual_machine::VirtualMachine;

const ALL_OPCODES: [OpCode; 20] = [
    OpCode::Push,
    OpCode::Dup,
    OpCode::Add,
    OpCode::Sub,
    OpCode::Mul,
    OpCode::Div,
    OpCode::Lt,
    OpCode::Lte,
    OpCode::Gt,
    OpCode::Gte,
    OpCode::Eq,
    OpCode::Ne,
    OpCode::If,
    OpCode::Else,
    OpCode::While,
    OpCode::Do,
    OpCode::Dump,
    OpCode::Halt,
    OpCode::LBrace,
    OpCode::RBrace,
];

#[test]
fn opcode_decode_is_the_inverse_of_encode() {
    for (i, op) in ALL_OPCODES.iter().enumerate() {
        assert_eq!(op.as_byte(), i as u8);
        assert_eq!(OpCode::from_byte(i as u8), Some(*op));
    }
    assert_eq!(OpCode::from_byte(20), None);
    assert_eq!(OpCode::from_byte(255), None);
}

#[test]
fn constant_type_tags() {
    assert_eq!(Value::Int32(1).constant_type(), 0);
    assert_eq!(Value::UInt32(1).constant_type(), 1);
    assert_eq!(Value::String(String::from("x")).constant_type(), 2);
}

#[test]
fn payload_getters() {
    assert_eq!(Value::Int32(-7).as_i32(), -7);
    assert_eq!(Value::UInt32(9).as_i32(), 0);
    assert_eq!(Value::UInt32(9).as_u32(), 9);
    assert_eq!(Value::Int32(9).as_u32(), 0);
    assert_eq!(Value::String(String::from("hi")).as_string(), "hi");
    assert_eq!(Value::Int32(9).as_string(), "");
    assert_eq!(Value::UInt32(0x8000_0000).as_i32_implicit(), i32::MIN);
}

#[test]
fn value_display_text() {
    assert_eq!(Value::Int32(-5).text(), "-5");
    assert_eq!(Value::Int32(0).text(), "0");
    assert_eq!(Value::UInt32(4_000_000_000).text(), "4000000000");
    assert_eq!(Value::String(String::from("raw text")).text(), "raw text");
}

#[test]
fn addition_concatenates_strings_with_numbers() {
    let r = value_add(&Value::String(String::from("n=")), &Value::Int32(-3)).unwrap();
    assert_eq!(r, Value::String(String::from("n=-3")));
    let r = value_add(&Value::String(String::from("a")), &Value::String(String::from("b")))
        .unwrap();
    assert_eq!(r, Value::String(String::from("ab")));
}

#[test]
fn integer_addition_wraps() {
    let r = value_add(&Value::Int32(i32::MAX), &Value::Int32(1)).unwrap();
    assert_eq!(r, Value::Int32(i32::MIN));
}

#[test]
fn mixed_tag_arithmetic_is_an_error() {
    assert!(matches!(
        value_add(&Value::Int32(1), &Value::UInt32(1)),
        Err(Error::RuntimeError(_))
    ));
}

#[test]
fn overflowing_signed_quotient_is_an_error() {
    match value_div(&Value::Int32(i32::MIN), &Value::Int32(-1)) {
        Err(Error::RuntimeError(m)) => assert_eq!(m, "arithmetic overflow"),
        other => panic!("expected an overflow fault, got {other:?}"),
    }
}

#[test]
fn value_order_is_tag_first_then_payload() {
    assert!(value_lt(&Value::Int32(100), &Value::UInt32(0)));
    assert!(value_lt(&Value::Int32(1), &Value::Int32(2)));
    assert!(value_lt(
        &Value::String(String::from("ab")),
        &Value::String(String::from("abc"))
    ));
    assert!(value_lt(
        &Value::String(String::from("abc")),
        &Value::String(String::from("abd"))
    ));
    assert!(!value_lt(
        &Value::String(String::from("b")),
        &Value::String(String::from("ab"))
    ));
    assert!(value_eq(
        &Value::String(String::from("same")),
        &Value::String(String::from("same"))
    ));
    assert!(!value_eq(&Value::Int32(1), &Value::UInt32(1)));
}

#[test]
fn error_messages() {
    assert_eq!(
        Error::CorruptedBinary.message(),
        "corrupted binary: failed to read bytecode"
    );
    assert_eq!(
        Error::InvalidUTF8String.message(),
        "invalid utf-8 string: failed to read binary string"
    );
    assert_eq!(
        Error::SegFault(18, String::from("gone")).message(),
        "segmentation fault: at ip: 18, gone"
    );
    assert_eq!(
        Error::InvalidExtension(String::from("txt")).message(),
        "invalid extension: 'txt'"
    );
    let loc = Location { path: String::from("a.nere"), line: 3, column: 7 };
    assert_eq!(loc.text(), "<a.nere:3:7>");
    assert_eq!(
        Error::CompileError(String::from("bad block"), loc).message(),
        "<a.nere:3:7> compile error: bad block"
    );
}

#[test]
fn path_helpers() {
    assert_eq!(utils::filename_from_path("dir/sub/prog.nere"), "prog.nere");
    assert_eq!(utils::filename_from_path("prog.nere"), "prog.nere");
    assert_eq!(utils::extension_from_path("dir/prog.nere"), "nere");
    assert_eq!(utils::extension_from_path("dir.d/prog"), "");
}

#[test]
fn keyword_table_contents() {
    let set = utils::get_instruction_set();
    let names: Vec<&str> = set.iter().map(|(k, _)| k.as_str()).collect();
    assert_eq!(names, vec!["dup", "if", "else", "while", "do"]);
    assert_eq!(set[1].1, OpCode::If);
}

#[test]
fn disassembles_simple_instructions() {
    let compiler = Compiler::default();
    let bc = compiler.compile("t.nere", "3 4 + .").unwrap();
    let text = Disassembler::disassemble_byte_code(&bc).expect("well-formed stream");
    assert_eq!(
        text,
        "0000 [Push] 0000 '3'\n0009 [Push] 0001 '4'\n0018 [Add] \n0019 [Dump] \n0020 [Halt] \n"
    );
}

#[test]
fn disassembles_jumps_with_targets() {
    let compiler = Compiler::default();
    let bc = compiler.compile("t.nere", "1 if { 2 . } 3 .").unwrap();
    let text = Disassembler::disassemble_byte_code(&bc).unwrap();
    assert!(text.contains("0009 [If] 0009 -> 0028\n"));
}

#[test]
fn instruction_by_instruction_trace_equals_the_whole_dump() {
    let compiler = Compiler::default();
    let bc = compiler.compile("t.nere", "0 if { \"yes\" . } else { \"no\" . } 5 .").unwrap();
    let dump = Disassembler::disassemble_byte_code(&bc).unwrap();
    let mut trace = String::new();
    let mut offset = 0usize;
    while offset < bc.bytes.len() {
        let line = Disassembler::disassemble_instruction(&bc, &mut offset)
            .expect("well-formed stream");
        trace.push_str(&line);
    }
    assert_eq!(trace, dump);
}

#[test]
fn reloaded_binary_disassembles_identically() {
    let compiler = Compiler::default();
    let bc = compiler.compile("t.nere", "0 if { \"yes\" . } else { 2 . } 5 .").unwrap();
    let before = Disassembler::disassemble_byte_code(&bc).unwrap();
    let again = Disassembler::disassemble_byte_code(&bc).unwrap();
    assert_eq!(before, again);
    let binary = compiler.to_binary(&bc);
    let mut vm = VirtualMachine::new();
    vm.load_binary(binary).unwrap();
    let after = Disassembler::disassemble_byte_code(vm.code()).unwrap();
    assert_eq!(before, after);
}

#[test]
fn malformed_stream_does_not_disassemble() {
    let bc = ByteCode { bytes: vec![99], constants: Vec::new() };
    assert!(Disassembler::disassemble_byte_code(&bc).is_none());
    let truncated = ByteCode { bytes: vec![12, 1, 2], constants: Vec::new() };
    assert!(Disassembler::disassemble_byte_code(&truncated).is_none());
}
