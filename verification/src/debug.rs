//! The debug iterator: a lazy, finite sequence of per-cycle snapshots
//! reconstructed from the histories a finished process recorded.

use vstd::prelude::*;

use crate::errors::ExecutionError;
use crate::field::Felt;
use crate::field::Word;
use crate::process::state_memory_spec;
use crate::process::state_stack_spec;
use crate::process::Process;

verus! {

/// The process state at one clock cycle.
#[derive(Clone, Debug)]
pub struct VmState {
    /// The cycle this snapshot belongs to.
    pub clk: usize,
    /// The free-memory pointer at that cycle.
    pub fmp: Felt,
    /// The full logical stack at that cycle.
    pub stack: Vec<Felt>,
    /// Every written address with its word at that cycle.
    pub memory: Vec<(u64, Word)>,
}

/// Steps through the state of a finished execution, one clock cycle per
/// call; when the execution failed, its error is yielded once after the
/// last recorded cycle, and the sequence then ends.
pub struct VmStateIterator {
    process: Process,
    error: Option<ExecutionError>,
    clk: usize,
}

impl VmStateIterator {
    /// The recorded process.
    pub closed spec fn process_view(self) -> Process {
        self.process
    }

    /// The stored error, if the execution failed.
    pub closed spec fn error_view(self) -> Option<ExecutionError> {
        self.error
    }

    /// The next cycle to yield.
    pub closed spec fn clk_view(self) -> int {
        self.clk as int
    }

    /// The iterator's invariant.
    pub open spec fn wf(self) -> bool {
        &&& self.process_view().wf()
        &&& 0 <= self.clk_view() <= self.process_view().clk() + 1
    }

    /// An iterator over the given finished process; `result` is what its
    /// execution returned.
    pub fn new(process: Process, result: Result<(), ExecutionError>) -> (r: VmStateIterator)
        requires
            process.wf(),
        ensures
            r.wf(),
            r.process_view() == process,
            r.clk_view() == 0,
            (match result {
                Ok(_) => r.error_view() is None,
                Err(e) => r.error_view() == Some(e),
            }),
    {
        proof {
            process.stack.lemma_clk_bound();
        }
        let error = match result {
            Ok(_) => None,
            Err(e) => Some(e),
        };
        VmStateIterator { process, error, clk: 0 }
    }

    /// Yields the state at the next cycle. Past the last recorded cycle it
    /// yields the stored error exactly once — clearing it, so that every
    /// later call returns nothing — or nothing at all when the execution
    /// succeeded: the sequence is finite.
    pub fn next(&mut self) -> (r: Option<Result<VmState, ExecutionError>>)
        requires
            old(self).wf(),
        ensures
            final(self).wf(),
            final(self).process_view() == old(self).process_view(),
            old(self).clk_view() <= old(self).process_view().clk() ==> {
                &&& final(self).clk_view() == old(self).clk_view() + 1
                &&& final(self).error_view() == old(self).error_view()
                &&& r matches Some(item) && item matches Ok(state) && {
                    &&& state.clk == old(self).clk_view()
                    &&& state.fmp == old(self).process_view().system.fmp_at(
                        old(self).clk_view(),
                    )
                    &&& state.stack@ == state_stack_spec(
                        old(self).process_view(),
                        state.clk,
                    )
                    &&& state_memory_spec(old(self).process_view(), state.clk, state.memory@)
                }
            },
            old(self).clk_view() > old(self).process_view().clk() ==> {
                &&& final(self).clk_view() == old(self).clk_view()
                &&& final(self).error_view() is None
                &&& (match old(self).error_view() {
                    Some(e) => r == Some(Err::<VmState, ExecutionError>(e)),
                    None => r is None,
                })
            },
    {
        proof {
            self.process.stack.lemma_clk_bound();
        }
        let end = self.process.system.clk_value();
        if self.clk > end {
            let stored = self.error;
            self.error = None;
            return match stored {
                Some(e) => Some(Err(e)),
                None => None,
            };
        }
        let clk = self.clk;
        let fmp = self.process.system.get_fmp_at(clk);
        let stack = self.process.stack.get_state_at(clk);
        let memory = self.process.memory.get_values_at(0, u64::MAX, clk);
        self.clk = clk + 1;
        Some(Ok(VmState { clk, fmp, stack, memory }))
    }
}

} // verus!
