//! The options the runtime driver hands to an execution.

use vstd::prelude::*;

verus! {

/// The runtime's invocation: the compiled program and the trace options.
#[derive(Debug)]
pub struct RuntimeArgs {
    /// The compiled program to run.
    pub binary: String,
    /// Show a breakdown of the bytecode during execution.
    pub disassemble: bool,
    /// Show a breakdown of the stack during execution.
    pub stack_trace: bool,
}

} // verus!
