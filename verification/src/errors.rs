//! The closed taxonomy of execution failures. Every error is fatal: the
//! first one aborts execution and is surfaced as-is.

use vstd::prelude::*;

use crate::advice::AdviceSetError;
use crate::field::Felt;

verus! {

/// Why an execution failed. Each variant carries the cycle or the offending
/// value, so the cause can be pinpointed.
#[derive(Clone, Copy, Debug)]
pub enum ExecutionError {
    /// A block variant the executor does not know.
    UnsupportedCodeBlock,
    /// A proxy block was reached; proxies cannot be executed. Carries the
    /// hash identifying the block.
    UnexecutableCodeBlock([u8; 32]),
    /// A control-flow predicate was neither zero nor one.
    NotBinaryValue(Felt),
    /// An operation needed more elements than the stack held: the site and
    /// the cycle.
    StackUnderflow(&'static str, usize),
    /// A field division by zero, at the given cycle.
    DivideByZero(usize),
    /// An assertion operation saw a top element other than one.
    FailedAssertion(usize),
    /// An advice read past the end of the tape.
    EmptyAdviceTape(usize),
    /// No advice set bears the given root.
    AdviceSetNotFound([u8; 32]),
    /// An advice-set lookup failed.
    AdviceSetLookupFailed(AdviceSetError),
    /// An advice-set update failed.
    AdviceSetUpdateFailed(AdviceSetError),
    /// The free-memory pointer left its valid range: the old and the
    /// rejected new value.
    InvalidFmpValue(Felt, Felt),
    /// A 32-bit operation saw a value of 32 bits or more.
    NotU32Value(Felt),
}

} // verus!
