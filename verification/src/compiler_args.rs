//! The options the compiler driver hands to a compilation.

use vstd::prelude::*;

verus! {

/// The compiler's invocation: the source file, the optional output file,
/// and the listing options.
#[derive(Debug)]
pub struct CompilerArgs {
    /// The source file to be compiled.
    pub input: String,
    /// The output file of the compiler.
    pub output: Option<String>,
    /// Display language tokens during compilation.
    pub display_tokens: bool,
    /// Override the default output file.
    pub override_output: bool,
    /// Show a breakdown of the bytecode after compilation.
    pub disassemble: bool,
}

} // verus!
