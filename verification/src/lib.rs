//! A small stack-based virtual machine.
//!
//! Programs are linear sequences of instructions operating on a stack of
//! 32-bit integers, a named-variable store, and a single non-nesting counted
//! loop. A translator turns line-oriented source text into instructions, and
//! the engine dispatches them until a return instruction halts the run or a
//! typed failure aborts it.

pub mod errors;
pub mod simpleloop;
pub mod state;
pub mod commands;
pub mod bytecode;
pub mod laws;
pub mod parser;
