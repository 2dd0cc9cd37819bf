//! A stack-based virtual machine for a prime-field instruction set.
//!
//! The processor executes a tree of code blocks over a field-element operand
//! stack, keeping per-cycle histories of the stack, the memory and the system
//! registers so that the state at any past clock cycle can be reconstructed,
//! and emits a column-oriented execution trace. Beside the processor live the
//! assembler's error type and the standard-library documentation parser.

pub mod advice;
pub mod assembly;
pub mod debug;
pub mod decoder;
pub mod docs;
pub mod errors;
pub mod field;
pub mod memory;
pub mod overflow;
pub mod process;
pub mod program;
pub mod stack;
pub mod system;
pub mod text;
pub mod trace;
