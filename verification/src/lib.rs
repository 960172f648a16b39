//! A minimal stack-language toolchain: a lexer, a two-pass compiler that
//! resolves control-flow jump targets, a binary bytecode container, a stack
//! virtual machine, and a disassembler that renders bytecode as text.

pub mod bytecode;
pub mod compiler_args;
pub mod runtime_args;
pub mod utils;
pub mod compiler;
pub mod disassembler;
pub mod error;
pub mod lexer;
pub mod opcode;
pub mod text;
pub mod token;
pub mod virtual_machine;
pub mod value;

pub use bytecode::ByteCode;
pub use compiler_args::CompilerArgs;
pub use runtime_args::RuntimeArgs;
pub use compiler::Compiler;
pub use disassembler::Disassembler;
pub use error::Error;
pub use lexer::Lexer;
pub use opcode::OpCode;
pub use token::{Location, Token, TokenType};
pub use value::Value;
pub use virtual_machine::VirtualMachine;
