//! The processor: the recursive interpreter over the code-block tree.
//!
//! Every micro-operation, structural or user-issued, advances the clock by
//! exactly one cycle; every decoder notification is paired with one such
//! operation, so the decoder stays in lockstep with the clock. The
//! executors are specified against `block_exec`, a fuel-indexed big-step
//! relation over the block tree that pins each block's result, every
//! intermediate state, and the first failure; `execute` and `execute_iter`
//! tie their results to a run of that relation from the fresh state the
//! inputs produce.

use vstd::prelude::*;

use crate::advice::AdviceProvider;
use crate::advice::ProgramInputs;
use crate::decoder::Decoder;
use crate::errors::ExecutionError;
use crate::field::Felt;
use crate::field::FELT_MODULUS;
use crate::memory::latest_at_most;
use crate::memory::Memory;
use crate::overflow::OverflowEvent;
use crate::program::CodeBlock;
use crate::program::Operation;
use crate::stack::row_after_binop;
use crate::stack::row_after_drop;
use crate::stack::row_after_push;
use crate::stack::row_after_set_top;
use crate::stack::row_after_set_word;
use crate::stack::row_after_swap;
use crate::stack::Stack;
use crate::system::System;
use crate::system::INITIAL_FMP;

verus! {

/// The least value the free-memory pointer may hold.
pub const FMP_MIN: u64 = 1073741824;

/// The least value above the free-memory pointer's valid range: `2^32`.
pub const FMP_MAX: u64 = 4294967296;

/// The complete state of one execution.
pub struct Process {
    pub system: System,
    pub decoder: Decoder,
    pub stack: Stack,
    pub memory: Memory,
    pub advice: AdviceProvider,
}

impl Process {
    /// The current clock cycle.
    pub open spec fn clk(self) -> int {
        self.system.clk()
    }

    /// The current logical stack depth.
    pub open spec fn depth(self) -> int {
        self.stack.depth()
    }

    /// The current top-segment row.
    pub open spec fn row(self) -> Seq<Felt> {
        self.stack.top_row()
    }

    /// The element that rises from the overflow table when the stack shrinks
    /// by one: the most recently spilled element, or zero.
    pub open spec fn riser(self) -> Felt {
        if self.depth() > 16 {
            self.stack.overflow_table().active_view().last()
        } else {
            Felt::zero_spec()
        }
    }

    /// The process invariant.
    pub open spec fn wf(self) -> bool {
        &&& self.system.wf()
        &&& self.stack.wf()
        &&& self.decoder.wf()
        &&& self.memory.wf()
        &&& self.advice.wf()
        &&& self.stack.clk() == self.system.clk()
        &&& forall|a: u64, i: int|
            0 <= i < self.memory.history_of(a).len() ==> (
            #[trigger] self.memory.history_of(a)[i]).0 <= self.clk()
        &&& forall|a: u64, i: int, j: int|
            0 <= i < j < self.memory.history_of(a).len() ==> (
            #[trigger] self.memory.history_of(a)[i]).0 <= (
            #[trigger] self.memory.history_of(a)[j]).0
    }

    /// Decoder lockstep: one notification counted per clock cycle.
    pub open spec fn lockstep(self) -> bool {
        self.decoder.op_count() == self.clk()
    }

    /// What every micro-operation (and every block) preserves: the clock
    /// only grows, and every already-recorded cycle keeps its stack row, its
    /// free-memory pointer and its memory contents.
    pub open spec fn history_kept(pre: Process, post: Process) -> bool {
        &&& post.clk() >= pre.clk()
        &&& forall|k: int| 0 <= k <= pre.clk() ==> post.stack.row_at(k) == pre.stack.row_at(k)
        &&& forall|k: int| 0 <= k <= pre.clk() ==> post.system.fmp_at(k) == pre.system.fmp_at(k)
        &&& forall|a: u64, k: usize|
            k <= pre.clk() ==> #[trigger] latest_at_most(post.memory.history_of(a), k)
                == latest_at_most(pre.memory.history_of(a), k)
        &&& post.stack.overflow_table().tracing() == pre.stack.overflow_table().tracing()
        &&& forall|k: usize|
            k <= pre.clk() ==> #[trigger] crate::overflow::snapshot_spec(
                post.stack.overflow_table().trace_view(),
                k,
            ) == crate::overflow::snapshot_spec(
                pre.stack.overflow_table().trace_view(),
                k,
            )
        &&& post.stack.max_overflow_len() >= pre.stack.max_overflow_len()
        &&& post.decoder.max_loop_depth() >= pre.decoder.max_loop_depth()
        &&& post.decoder.max_ctx_depth() >= pre.decoder.max_ctx_depth()
    }

    /// The frame of one successful micro-operation: the clock advanced by
    /// one and the decoder was left alone.
    pub open spec fn op_frame(pre: Process, post: Process) -> bool {
        &&& post.clk() == pre.clk() + 1
        &&& Process::history_kept(pre, post)
        &&& post.decoder == pre.decoder
    }

    /// Nothing observable changed.
    pub open spec fn unchanged(pre: Process, post: Process) -> bool {
        &&& post.clk() == pre.clk()
        &&& post.stack == pre.stack
        &&& post.system == pre.system
        &&& post.decoder == pre.decoder
        &&& post.advice == pre.advice
        &&& forall|a: u64| #[trigger] post.memory.history_of(a) == pre.memory.history_of(a)
    }

    /// The memory kept every chronology.
    pub open spec fn memory_unchanged(pre: Process, post: Process) -> bool {
        forall|a: u64| #[trigger] post.memory.history_of(a) == pre.memory.history_of(a)
    }

    /// The advice provider kept its tape position and sets.
    pub open spec fn advice_unchanged(pre: Process, post: Process) -> bool {
        post.advice == pre.advice
    }

    /// The free-memory pointer carried over to the new cycle.
    pub open spec fn fmp_kept(pre: Process, post: Process) -> bool {
        post.system.fmp() == pre.system.fmp()
    }

    /// The stack row carried over unchanged, same depth, same overflow.
    pub open spec fn stack_noop(pre: Process, post: Process) -> bool {
        &&& post.row() == pre.row()
        &&& post.depth() == pre.depth()
        &&& post.stack.overflow_table() == pre.stack.overflow_table()
    }

    /// The stack after pushing `v`: with a full top segment the bottom slot
    /// spilled into the overflow table at the new cycle.
    pub open spec fn stack_pushed(pre: Process, post: Process, v: Felt) -> bool {
        &&& post.row() == row_after_push(pre.row(), v)
        &&& post.depth() == pre.depth() + 1
        &&& pre.depth() >= 16 ==> post.stack.overflow_table().history_view()
            == pre.stack.overflow_table().history_view().push(
            OverflowEvent::Push { step: (pre.clk() + 1) as usize, value: pre.row()[15] },
        )
        &&& pre.depth() < 16 ==> post.stack.overflow_table() == pre.stack.overflow_table()
    }

    /// The stack after dropping the top element.
    pub open spec fn stack_dropped(pre: Process, post: Process) -> bool {
        &&& post.row() == row_after_drop(pre.row(), pre.riser())
        &&& post.depth() == pre.depth() - 1
        &&& pre.depth() > 16 ==> post.stack.overflow_table().history_view()
            == pre.stack.overflow_table().history_view().push(
            OverflowEvent::Pop { step: (pre.clk() + 1) as usize },
        )
        &&& pre.depth() <= 16 ==> post.stack.overflow_table() == pre.stack.overflow_table()
    }

    /// The stack after a binary operation leaving `v`.
    pub open spec fn stack_binop(pre: Process, post: Process, v: Felt) -> bool {
        &&& post.row() == row_after_binop(pre.row(), v, pre.riser())
        &&& post.depth() == pre.depth() - 1
        &&& pre.depth() > 16 ==> post.stack.overflow_table().history_view()
            == pre.stack.overflow_table().history_view().push(
            OverflowEvent::Pop { step: (pre.clk() + 1) as usize },
        )
        &&& pre.depth() <= 16 ==> post.stack.overflow_table() == pre.stack.overflow_table()
    }

    /// The stack after replacing the top element with `v`.
    pub open spec fn stack_set_top(pre: Process, post: Process, v: Felt) -> bool {
        &&& post.row() == row_after_set_top(pre.row(), v)
        &&& post.depth() == pre.depth()
        &&& post.stack.overflow_table() == pre.stack.overflow_table()
    }

    /// The stack after overwriting the top four elements with `w`.
    pub open spec fn stack_set_word(pre: Process, post: Process, w: Seq<Felt>) -> bool {
        &&& post.row() == row_after_set_word(pre.row(), w)
        &&& post.depth() == pre.depth()
        &&& post.stack.overflow_table() == pre.stack.overflow_table()
    }

    /// The stack after exchanging the top two elements.
    pub open spec fn stack_swapped(pre: Process, post: Process) -> bool {
        &&& post.row() == row_after_swap(pre.row())
        &&& post.depth() == pre.depth()
        &&& post.stack.overflow_table() == pre.stack.overflow_table()
    }

    /// What a successful micro-operation `op` does to the state: the exact
    /// transition of the stack, the memory, the advice tape and the pointer.
    pub open spec fn op_ok_effect(pre: Process, post: Process, op: Operation) -> bool {
        match op {
            Operation::Noop => Process::stack_noop(pre, post) && Process::memory_unchanged(
                pre,
                post,
            ) && Process::advice_unchanged(pre, post) && Process::fmp_kept(pre, post),
            Operation::Drop => Process::stack_dropped(pre, post) && Process::memory_unchanged(
                pre,
                post,
            ) && Process::advice_unchanged(pre, post) && Process::fmp_kept(pre, post),
            Operation::Dup => Process::stack_pushed(pre, post, pre.row()[0])
                && Process::memory_unchanged(pre, post) && Process::advice_unchanged(pre, post)
                && Process::fmp_kept(pre, post),
            Operation::Swap => Process::stack_swapped(pre, post) && Process::memory_unchanged(
                pre,
                post,
            ) && Process::advice_unchanged(pre, post) && Process::fmp_kept(pre, post),
            Operation::Add => Process::stack_binop(pre, post, post.row()[0]) && post.row()[
                0].val() == (pre.row()[0].val() + pre.row()[1].val()) % (FELT_MODULUS as int)
                && Process::memory_unchanged(pre, post) && Process::advice_unchanged(pre, post)
                && Process::fmp_kept(pre, post),
            Operation::Mul => Process::stack_binop(pre, post, post.row()[0]) && post.row()[
                0].val() == (pre.row()[0].val() * pre.row()[1].val()) % (FELT_MODULUS as int)
                && Process::memory_unchanged(pre, post) && Process::advice_unchanged(pre, post)
                && Process::fmp_kept(pre, post),
            Operation::Neg => Process::stack_set_top(pre, post, post.row()[0]) && post.row()[
                0].val() == (FELT_MODULUS as int - pre.row()[0].val() % (FELT_MODULUS as int)) % (
            FELT_MODULUS as int) && Process::memory_unchanged(pre, post)
                && Process::advice_unchanged(pre, post) && Process::fmp_kept(pre, post),
            Operation::Inv => Process::stack_set_top(pre, post, post.row()[0]) && post.row()[
                0].val() == crate::field::pow_mod(pre.row()[0].val(), (FELT_MODULUS - 2) as nat)
                && Process::memory_unchanged(pre, post) && Process::advice_unchanged(pre, post)
                && Process::fmp_kept(pre, post),
            Operation::Assert => Process::stack_dropped(pre, post) && Process::memory_unchanged(
                pre,
                post,
            ) && Process::advice_unchanged(pre, post) && Process::fmp_kept(pre, post),
            Operation::Push(v) => Process::stack_pushed(pre, post, v)
                && Process::memory_unchanged(pre, post) && Process::advice_unchanged(pre, post)
                && Process::fmp_kept(pre, post),
            Operation::Read => Process::stack_pushed(
                pre,
                post,
                pre.advice.tape_view()[pre.advice.pos_view()],
            ) && Process::memory_unchanged(pre, post) && post.advice.pos_view()
                == pre.advice.pos_view() + 1 && post.advice.tape_view() == pre.advice.tape_view()
                && post.advice.sets_view() == pre.advice.sets_view() && Process::fmp_kept(
                pre,
                post,
            ),
            Operation::StoreW(addr) => Process::stack_noop(pre, post)
                && post.memory.history_of(addr) == pre.memory.history_of(addr).push(
                ((pre.clk() + 1) as usize, pre.row().subrange(0, 4)),
            ) && (forall|a: u64|
                a != addr ==> #[trigger] post.memory.history_of(a) == pre.memory.history_of(a))
                && Process::advice_unchanged(pre, post) && Process::fmp_kept(pre, post),
            Operation::LoadW(addr) => Process::stack_set_word(
                pre,
                post,
                pre.memory.read_spec(addr, pre.clk() as usize),
            ) && Process::memory_unchanged(pre, post) && Process::advice_unchanged(pre, post)
                && Process::fmp_kept(pre, post),
            Operation::FmpAdd => Process::stack_set_top(pre, post, post.row()[0]) && post.row()[
                0].val() == (pre.row()[0].val() + pre.system.fmp().val()) % (FELT_MODULUS as int)
                && Process::memory_unchanged(pre, post) && Process::advice_unchanged(pre, post)
                && Process::fmp_kept(pre, post),
            Operation::FmpUpdate => Process::stack_dropped(pre, post)
                && post.system.fmp().val() == (pre.system.fmp().val() + pre.row()[0].val()) % (
            FELT_MODULUS as int) && Process::memory_unchanged(pre, post)
                && Process::advice_unchanged(pre, post),
            Operation::U32Assert => Process::stack_noop(pre, post) && Process::memory_unchanged(
                pre,
                post,
            ) && Process::advice_unchanged(pre, post) && Process::fmp_kept(pre, post),
            Operation::MTreeGet(root, index) => (exists|i: int|
                {
                    &&& 0 <= i < pre.advice.sets_view().len()
                    &&& (#[trigger] pre.advice.sets_view()[i]).root_view() == root@
                    &&& forall|j: int|
                        0 <= j < i ==> (#[trigger] pre.advice.sets_view()[j]).root_view()
                            != root@
                    &&& index < pre.advice.sets_view()[i].leaves_view().len()
                    &&& Process::stack_set_word(
                        pre,
                        post,
                        pre.advice.sets_view()[i].leaves_view()[index as int]@,
                    )
                }) && Process::memory_unchanged(pre, post) && Process::advice_unchanged(pre, post)
                && Process::fmp_kept(pre, post),
        }
    }

    /// On which states a micro-operation `op` succeeds.
    pub open spec fn op_ok_condition(pre: Process, op: Operation) -> bool {
        match op {
            Operation::Noop => true,
            Operation::Drop => pre.depth() >= 1,
            Operation::Dup => pre.depth() >= 1,
            Operation::Swap => pre.depth() >= 2,
            Operation::Add => pre.depth() >= 2,
            Operation::Mul => pre.depth() >= 2,
            Operation::Neg => pre.depth() >= 1,
            Operation::Inv => pre.depth() >= 1 && pre.row()[0].val() != 0,
            Operation::Assert => pre.depth() >= 1 && pre.row()[0].val() == 1,
            Operation::Push(_) => true,
            Operation::Read => pre.advice.pos_view() < pre.advice.tape_view().len(),
            Operation::StoreW(_) => pre.depth() >= 4,
            Operation::LoadW(_) => pre.depth() >= 4,
            Operation::FmpAdd => pre.depth() >= 1,
            Operation::FmpUpdate => pre.depth() >= 1 && {
                let nv = (pre.system.fmp().val() + pre.row()[0].val()) % (FELT_MODULUS as int);
                FMP_MIN <= nv < FMP_MAX
            },
            Operation::U32Assert => pre.depth() >= 1 && pre.row()[0].val() < FMP_MAX,
            Operation::MTreeGet(root, index) => pre.depth() >= 4 && exists|i: int|
                {
                    &&& 0 <= i < pre.advice.sets_view().len()
                    &&& (#[trigger] pre.advice.sets_view()[i]).root_view() == root@
                    &&& forall|j: int|
                        0 <= j < i ==> (#[trigger] pre.advice.sets_view()[j]).root_view()
                            != root@
                    &&& index < pre.advice.sets_view()[i].leaves_view().len()
                },
        }
    }

    /// Which error a failing micro-operation surfaces, on the state it was
    /// attempted in.
    pub open spec fn op_err_matches(pre: Process, op: Operation, e: ExecutionError) -> bool {
        match op {
            Operation::Noop => false,
            Operation::Push(_) => false,
            Operation::Drop => e matches ExecutionError::StackUnderflow(_, c) && c == pre.clk(),
            Operation::Dup => e matches ExecutionError::StackUnderflow(_, c) && c == pre.clk(),
            Operation::Swap => e matches ExecutionError::StackUnderflow(_, c) && c == pre.clk(),
            Operation::Add => e matches ExecutionError::StackUnderflow(_, c) && c == pre.clk(),
            Operation::Mul => e matches ExecutionError::StackUnderflow(_, c) && c == pre.clk(),
            Operation::Neg => e matches ExecutionError::StackUnderflow(_, c) && c == pre.clk(),
            Operation::Inv => if pre.depth() < 1 {
                e matches ExecutionError::StackUnderflow(_, c) && c == pre.clk()
            } else {
                e matches ExecutionError::DivideByZero(c) && c == pre.clk()
            },
            Operation::Assert => if pre.depth() < 1 {
                e matches ExecutionError::StackUnderflow(_, c) && c == pre.clk()
            } else {
                e matches ExecutionError::FailedAssertion(c) && c == pre.clk()
            },
            Operation::Read => e matches ExecutionError::EmptyAdviceTape(c) && c == pre.clk(),
            Operation::StoreW(_) => e matches ExecutionError::StackUnderflow(_, c) && c
                == pre.clk(),
            Operation::LoadW(_) => e matches ExecutionError::StackUnderflow(_, c) && c
                == pre.clk(),
            Operation::FmpAdd => e matches ExecutionError::StackUnderflow(_, c) && c == pre.clk(),
            Operation::FmpUpdate => if pre.depth() < 1 {
                e matches ExecutionError::StackUnderflow(_, c) && c == pre.clk()
            } else {
                e matches ExecutionError::InvalidFmpValue(o, n) && o == pre.system.fmp()
                    && n.val() == (pre.system.fmp().val() + pre.row()[0].val()) % (
                FELT_MODULUS as int)
            },
            Operation::U32Assert => if pre.depth() < 1 {
                e matches ExecutionError::StackUnderflow(_, c) && c == pre.clk()
            } else {
                e matches ExecutionError::NotU32Value(v) && v == pre.row()[0]
            },
            Operation::MTreeGet(root, index) => if pre.depth() < 4 {
                e matches ExecutionError::StackUnderflow(_, c) && c == pre.clk()
            } else if forall|i: int|
                0 <= i < pre.advice.sets_view().len() ==> (
                #[trigger] pre.advice.sets_view()[i]).root_view() != root@ {
                e matches ExecutionError::AdviceSetNotFound(rt) && rt@ == root@
            } else {
                e matches ExecutionError::AdviceSetLookupFailed(_)
            },
        }
    }

    /// Executes one user micro-operation: on success the clock advances by
    /// exactly one cycle and the state changes as `op_ok_effect` says; on
    /// failure nothing changes and the error names the cause.
    pub fn execute_op(&mut self, op: Operation) -> (r: Result<(), ExecutionError>)
        requires
            old(self).wf(),
        ensures
            final(self).wf(),
            final(self).decoder == old(self).decoder,
            r is Ok <==> Process::op_ok_condition(*old(self), op),
            r is Err ==> Process::unchanged(*old(self), *final(self)),
            r is Ok ==> Process::op_frame(*old(self), *final(self)) && Process::op_ok_effect(
                *old(self),
                *final(self),
                op,
            ),
            r matches Err(e) ==> Process::op_err_matches(*old(self), op, e),
    {
        proof {
            self.stack.lemma_clk_bound();
            self.stack.lemma_rows_wf();
        }
        let clk = self.system.clk_value();
        let fmp = self.system.fmp_value();
        match op {
            Operation::Noop => {
                self.stack.op_noop();
                self.system.advance(fmp);
                Ok(())
            },
            Operation::Drop => {
                if !self.stack.has_depth(1) {
                    return Err(ExecutionError::StackUnderflow("drop", clk));
                }
                let _ = self.stack.op_drop();
                self.system.advance(fmp);
                Ok(())
            },
            Operation::Dup => {
                if !self.stack.has_depth(1) {
                    return Err(ExecutionError::StackUnderflow("dup", clk));
                }
                let v = self.stack.get(0);
                self.stack.op_push(v);
                self.system.advance(fmp);
                Ok(())
            },
            Operation::Swap => {
                if !self.stack.has_depth(2) {
                    return Err(ExecutionError::StackUnderflow("swap", clk));
                }
                self.stack.op_swap();
                self.system.advance(fmp);
                Ok(())
            },
            Operation::Add => {
                if !self.stack.has_depth(2) {
                    return Err(ExecutionError::StackUnderflow("add", clk));
                }
                let a = self.stack.get(0);
                let b = self.stack.get(1);
                let v = a.add(b);
                self.stack.op_binop(v);
                self.system.advance(fmp);
                Ok(())
            },
            Operation::Mul => {
                if !self.stack.has_depth(2) {
                    return Err(ExecutionError::StackUnderflow("mul", clk));
                }
                let a = self.stack.get(0);
                let b = self.stack.get(1);
                let v = a.mul(b);
                self.stack.op_binop(v);
                self.system.advance(fmp);
                Ok(())
            },
            Operation::Neg => {
                if !self.stack.has_depth(1) {
                    return Err(ExecutionError::StackUnderflow("neg", clk));
                }
                let a = self.stack.get(0);
                let v = a.neg();
                self.stack.op_set_top(v);
                self.system.advance(fmp);
                Ok(())
            },
            Operation::Inv => {
                if !self.stack.has_depth(1) {
                    return Err(ExecutionError::StackUnderflow("inv", clk));
                }
                let a = self.stack.get(0);
                if a.is_zero() {
                    return Err(ExecutionError::DivideByZero(clk));
                }
                let v = a.inv();
                self.stack.op_set_top(v);
                self.system.advance(fmp);
                Ok(())
            },
            Operation::Assert => {
                if !self.stack.has_depth(1) {
                    return Err(ExecutionError::StackUnderflow("assert", clk));
                }
                let a = self.stack.get(0);
                if !a.is_one() {
                    return Err(ExecutionError::FailedAssertion(clk));
                }
                let _ = self.stack.op_drop();
                self.system.advance(fmp);
                Ok(())
            },
            Operation::Push(v) => {
                self.stack.op_push(v);
                self.system.advance(fmp);
                Ok(())
            },
            Operation::Read => {
                if !self.advice.has_next() {
                    return Err(ExecutionError::EmptyAdviceTape(clk));
                }
                let v = match self.advice.read_tape() {
                    Some(v) => v,
                    None => Felt::zero(),
                };
                self.stack.op_push(v);
                self.system.advance(fmp);
                Ok(())
            },
            Operation::StoreW(addr) => {
                if !self.stack.has_depth(4) {
                    return Err(ExecutionError::StackUnderflow("storew", clk));
                }
                let w: [Felt; 4] = [
                    self.stack.get(0),
                    self.stack.get(1),
                    self.stack.get(2),
                    self.stack.get(3),
                ];
                proof {
                    assert(w@ =~= old(self).row().subrange(0, 4));
                }
                self.memory.write(addr, clk + 1, w);
                self.stack.op_noop();
                self.system.advance(fmp);
                proof {
                    crate::memory::lemma_latest_push_above_all(
                        old(self).memory,
                        self.memory,
                        addr,
                        (old(self).clk() + 1) as usize,
                        w@,
                        old(self).clk(),
                    );
                }
                Ok(())
            },
            Operation::LoadW(addr) => {
                if !self.stack.has_depth(4) {
                    return Err(ExecutionError::StackUnderflow("loadw", clk));
                }
                let w = self.memory.read(addr, clk);
                self.stack.op_set_word(w);
                self.system.advance(fmp);
                Ok(())
            },
            Operation::FmpAdd => {
                if !self.stack.has_depth(1) {
                    return Err(ExecutionError::StackUnderflow("fmpadd", clk));
                }
                let a = self.stack.get(0);
                let v = a.add(fmp);
                self.stack.op_set_top(v);
                self.system.advance(fmp);
                Ok(())
            },
            Operation::FmpUpdate => {
                if !self.stack.has_depth(1) {
                    return Err(ExecutionError::StackUnderflow("fmpupdate", clk));
                }
                let a = self.stack.get(0);
                let nv = fmp.add(a);
                let nvu = nv.as_u64();
                if !(FMP_MIN <= nvu && nvu < FMP_MAX) {
                    return Err(ExecutionError::InvalidFmpValue(fmp, nv));
                }
                let _ = self.stack.op_drop();
                self.system.advance(nv);
                Ok(())
            },
            Operation::U32Assert => {
                if !self.stack.has_depth(1) {
                    return Err(ExecutionError::StackUnderflow("u32assert", clk));
                }
                let a = self.stack.get(0);
                if a.as_u64() >= FMP_MAX {
                    return Err(ExecutionError::NotU32Value(a));
                }
                self.stack.op_noop();
                self.system.advance(fmp);
                Ok(())
            },
            Operation::MTreeGet(root, index) => {
                if !self.stack.has_depth(4) {
                    return Err(ExecutionError::StackUnderflow("mtreeget", clk));
                }
                let set_index = match self.advice.find_set(&root) {
                    Some(i) => i,
                    None => {
                        return Err(ExecutionError::AdviceSetNotFound(root));
                    },
                };
                let leaf = match self.advice.get_leaf(set_index, index) {
                    Ok(w) => w,
                    Err(e) => {
                        return Err(ExecutionError::AdviceSetLookupFailed(e));
                    },
                };
                self.stack.op_set_word(leaf);
                self.system.advance(fmp);
                Ok(())
            },
        }
    }

    /// What every block execution guarantees: history kept, call contexts
    /// balanced, on success the clock advanced with the decoder in lockstep
    /// and loops balanced, and every `NotBinaryValue` error truly carrying a
    /// value that is neither zero nor one.
    pub open spec fn block_post(
        pre: Process,
        post: Process,
        r: Result<(), ExecutionError>,
    ) -> bool {
        &&& Process::history_kept(pre, post)
        &&& post.decoder.ctx_depth() == pre.decoder.ctx_depth()
        &&& r is Ok ==> post.clk() > pre.clk() && post.lockstep() && post.decoder.loop_depth()
            == pre.decoder.loop_depth()
        &&& r matches Err(ExecutionError::NotBinaryValue(v)) ==> v.val() != 0 && v.val() != 1
    }

    /// Executes a code block: the recursive dispatch over the tree. The
    /// whole effect is pinned by the execution relation `block_exec`; a
    /// proxy block fails with `UnexecutableCodeBlock`.
    pub fn execute_code_block(&mut self, block: &CodeBlock) -> (r: Result<(), ExecutionError>)
        requires
            old(self).wf(),
            old(self).lockstep(),
            crate::program::block_wf(*block),
        ensures
            final(self).wf(),
            Process::block_post(*old(self), *final(self), r),
            Process::block_runs(*old(self), *final(self), *block, r),
            block matches CodeBlock::Proxy { hash } ==> (r matches
                Err(ExecutionError::UnexecutableCodeBlock(h)) && h@ == hash@
                && Process::unchanged(*old(self), *final(self))),
            block matches CodeBlock::Span { op_batches } ==> exists|
                m1: Process,
                m2: Process,
                m3: Process,
                m4: Process,
                m5: Process,
                r1: Result<(), ExecutionError>,
                r2: Result<(), ExecutionError>,
            |
                #[trigger] Process::span_chain(
                    *old(self),
                    m1,
                    m2,
                    m3,
                    m4,
                    m5,
                    *final(self),
                    op_batches@,
                    r1,
                    r2,
                    r,
                ),
        decreases crate::program::block_height(*block), 0int,
    {
        match block {
            CodeBlock::Span { op_batches } => {
                let r = self.execute_span_block(op_batches);
                proof {
                    let (m1, m2, m3, m4, m5, r1, r2) = choose|
                        m1: Process,
                        m2: Process,
                        m3: Process,
                        m4: Process,
                        m5: Process,
                        r1: Result<(), ExecutionError>,
                        r2: Result<(), ExecutionError>,
                    |
                        #[trigger] Process::span_chain(
                            *old(self),
                            m1,
                            m2,
                            m3,
                            m4,
                            m5,
                            *self,
                            op_batches@,
                            r1,
                            r2,
                            r,
                        );
                    assert(Process::span_chain(
                        *old(self),
                        m1,
                        m2,
                        m3,
                        m4,
                        m5,
                        *self,
                        op_batches@,
                        r1,
                        r2,
                        r,
                    ));
                    assert(Process::block_exec(*old(self), *self, *block, r, false, 1));
                }
                r
            },
            CodeBlock::Join { first, second } => {
                let ghost b = *block;
                self.execute_join_block(first, second, Ghost(b))
            },
            CodeBlock::Split { on_true, on_false } => {
                let ghost b = *block;
                self.execute_split_block(on_true, on_false, Ghost(b))
            },
            CodeBlock::Loop { body } => {
                let ghost b = *block;
                self.execute_loop_block(body, Ghost(b))
            },
            CodeBlock::Proxy { hash } => {
                proof {
                    assert(Process::block_exec(
                        *old(self),
                        *self,
                        *block,
                        Err(ExecutionError::UnexecutableCodeBlock(*hash)),
                        false,
                        1,
                    ));
                }
                Err(ExecutionError::UnexecutableCodeBlock(*hash))
            },
        }
    }

    /// Executes a join block: the first child, then the second, framed by a
    /// start and an end cycle. The whole effect is pinned by the execution
    /// relation: the join succeeds exactly when both children do, and a
    /// failing first child's error is returned with the second never run.
    pub fn execute_join_block(
        &mut self,
        first: &CodeBlock,
        second: &CodeBlock,
        blk: Ghost<CodeBlock>,
    ) -> (r: Result<(), ExecutionError>)
        requires
            old(self).wf(),
            old(self).lockstep(),
            crate::program::block_wf(*first),
            crate::program::block_wf(*second),
            blk@ matches CodeBlock::Join { first: bf, second: bs } && *bf == *first && *bs
                == *second,
        ensures
            final(self).wf(),
            Process::block_post(*old(self), *final(self), r),
            Process::block_runs(*old(self), *final(self), blk@, r),
        decreases
                crate::program::block_height(*first) + crate::program::block_height(*second),
                1int,
    {
        proof {
            self.stack.lemma_clk_bound();
        }
        self.decoder.start_join();
        let ghost g1 = *self;
        self.execute_op(Operation::Noop)?;
        let ghost g2 = *self;
        proof {
            assert(Process::notify_plain(*old(self), g1));
            assert(Process::op_exec_rel(g1, g2, Operation::Noop, Ok(())));
        }
        let r1 = self.execute_code_block(first);
        let ghost g3 = *self;
        match r1 {
            Err(e) => {
                proof {
                    let f1 = choose|f: nat|
                        Process::block_exec(g2, g3, *first, Err(e), false, f);
                    assert(Process::block_exec(g2, g3, *first, Err(e), false, f1));
                    let fuel = (f1 + 1) as nat;
                    assert(Process::step_fuel(g3, Err::<(), ExecutionError>(e), f1, fuel));
                    let ghost _t = Process::notify_plain(g3, g3);
                    assert(Process::block_exec(*old(self), g3, blk@, Err(e), false, fuel));
                }
                return Err(e);
            },
            Ok(_) => {},
        }
        proof {
            Process::lemma_ok_unit(r1);
        }
        let r2 = self.execute_code_block(second);
        let ghost g4 = *self;
        match r2 {
            Err(e) => {
                proof {
                    let f1 = choose|f: nat|
                        Process::block_exec(g2, g3, *first, Ok(()), false, f);
                    assert(Process::block_exec(g2, g3, *first, Ok(()), false, f1));
                    let f2 = choose|f: nat|
                        Process::block_exec(g3, g4, *second, Err(e), false, f);
                    assert(Process::block_exec(g3, g4, *second, Err(e), false, f2));
                    let fuel = (f1 + f2 + 1) as nat;
                    assert(Process::step_fuel(g3, Ok::<(), ExecutionError>(()), f1, fuel));
                    assert(Process::step_fuel(g4, Err::<(), ExecutionError>(e), f2, fuel));
                    let ghost _t = Process::notify_plain(g4, g4);
                    assert(Process::block_exec(*old(self), g4, blk@, Err(e), false, fuel));
                }
                return Err(e);
            },
            Ok(_) => {},
        }
        proof {
            Process::lemma_ok_unit(r2);
            self.stack.lemma_clk_bound();
        }
        self.decoder.end_join();
        let ghost g5 = *self;
        self.execute_op(Operation::Noop)?;
        proof {
            assert(Process::notify_plain(g4, g5));
            assert(Process::op_exec_rel(g5, *self, Operation::Noop, Ok(())));
            let f1 = choose|f: nat| Process::block_exec(g2, g3, *first, Ok(()), false, f);
            assert(Process::block_exec(g2, g3, *first, Ok(()), false, f1));
            let f2 = choose|f: nat| Process::block_exec(g3, g4, *second, Ok(()), false, f);
            assert(Process::block_exec(g3, g4, *second, Ok(()), false, f2));
            let fuel = (f1 + f2 + 1) as nat;
            assert(Process::step_fuel(g3, Ok::<(), ExecutionError>(()), f1, fuel));
            assert(Process::step_fuel(g4, Ok::<(), ExecutionError>(()), f2, fuel));
            assert(Process::block_exec(*old(self), *self, blk@, Ok(()), false, fuel));
        }
        Ok(())
    }

    /// Executes a split block: reads the predicate on top of the stack,
    /// drops it, runs the branch it selects, and finishes with an end
    /// cycle. The whole effect is pinned by the execution relation: on a
    /// binary predicate the block succeeds exactly when the chosen branch
    /// does; a predicate other than zero or one fails with
    /// `NotBinaryValue`.
    pub fn execute_split_block(
        &mut self,
        on_true: &CodeBlock,
        on_false: &CodeBlock,
        blk: Ghost<CodeBlock>,
    ) -> (r: Result<(), ExecutionError>)
        requires
            old(self).wf(),
            old(self).lockstep(),
            crate::program::block_wf(*on_true),
            crate::program::block_wf(*on_false),
            blk@ matches CodeBlock::Split { on_true: bt, on_false: bf } && *bt == *on_true
                && *bf == *on_false,
        ensures
            final(self).wf(),
            Process::block_post(*old(self), *final(self), r),
            Process::block_runs(*old(self), *final(self), blk@, r),
            old(self).depth() == 0 ==> (r matches Err(ExecutionError::StackUnderflow(_, c))
                && c == old(self).clk()),
            old(self).depth() >= 1 && old(self).row()[0].val() != 0 && old(self).row()[0].val()
                != 1 ==> (r matches Err(ExecutionError::NotBinaryValue(v)) && v == old(
                self,
            ).row()[0]),
            r is Ok ==> old(self).depth() >= 1 && (old(self).row()[0].val() == 0 || old(
                self,
            ).row()[0].val() == 1),
        decreases
                crate::program::block_height(*on_true) + crate::program::block_height(
                    *on_false,
                ),
                1int,
    {
        proof {
            self.stack.lemma_clk_bound();
        }
        let clk = self.system.clk_value();
        let condition = match self.stack.peek() {
            Some(t) => t,
            None => {
                proof {
                    assert(Process::block_exec(
                        *old(self),
                        *self,
                        blk@,
                        Err(ExecutionError::StackUnderflow("split", clk)),
                        false,
                        1,
                    ));
                }
                return Err(ExecutionError::StackUnderflow("split", clk));
            },
        };
        self.decoder.start_split(condition);
        let ghost g1 = *self;
        self.execute_op(Operation::Drop)?;
        let ghost g2 = *self;
        proof {
            assert(Process::notify_plain(*old(self), g1));
            assert(Process::op_exec_rel(g1, g2, Operation::Drop, Ok(())));
        }
        if condition.is_one() || condition.is_zero() {
            let rb = if condition.is_one() {
                self.execute_code_block(on_true)
            } else {
                self.execute_code_block(on_false)
            };
            let ghost chosen = if old(self).row()[0].val() == 1 {
                *on_true
            } else {
                *on_false
            };
            let ghost g3 = *self;
            match rb {
                Err(e) => {
                    proof {
                        let fb = choose|f: nat|
                            Process::block_exec(g2, g3, chosen, Err(e), false, f);
                        assert(Process::block_exec(g2, g3, chosen, Err(e), false, fb));
                        let fuel = (fb + 1) as nat;
                        assert(Process::step_fuel(g3, Err::<(), ExecutionError>(e), fb, fuel));
                        let ghost _t = Process::notify_plain(g3, g3);
                        assert(Process::block_exec(*old(self), g3, blk@, Err(e), false, fuel));
                    }
                    return Err(e);
                },
                Ok(_) => {},
            }
            proof {
                Process::lemma_ok_unit(rb);
                self.stack.lemma_clk_bound();
            }
            self.decoder.end_split();
            let ghost g4 = *self;
            self.execute_op(Operation::Noop)?;
            proof {
                assert(Process::notify_plain(g3, g4));
                assert(Process::op_exec_rel(g4, *self, Operation::Noop, Ok(())));
                let fb = choose|f: nat| Process::block_exec(g2, g3, chosen, Ok(()), false, f);
                assert(Process::block_exec(g2, g3, chosen, Ok(()), false, fb));
                let fuel = (fb + 1) as nat;
                assert(Process::step_fuel(g3, Ok::<(), ExecutionError>(()), fb, fuel));
                assert(Process::block_exec(*old(self), *self, blk@, Ok(()), false, fuel));
            }
            Ok(())
        } else {
            proof {
                assert(Process::block_exec(
                    *old(self),
                    g2,
                    blk@,
                    Err(ExecutionError::NotBinaryValue(condition)),
                    false,
                    1,
                ));
            }
            return Err(ExecutionError::NotBinaryValue(condition));
        }
    }

    /// Executes a loop block: while the top of the stack is one, drops it
    /// and runs the body; the terminating zero is dropped and the loop
    /// closed. The whole effect is pinned by the execution relation: one
    /// body run per observed one on top, the first failure aborting the
    /// block; a top other than zero or one fails with `NotBinaryValue`, at
    /// the entry as at the exit of the loop.
    pub fn execute_loop_block(&mut self, body: &CodeBlock, blk: Ghost<CodeBlock>) -> (r: Result<
        (),
        ExecutionError,
    >)
        requires
            old(self).wf(),
            old(self).lockstep(),
            crate::program::block_wf(*body),
            blk@ matches CodeBlock::Loop { body: b } && *b == *body,
        ensures
            final(self).wf(),
            Process::block_post(*old(self), *final(self), r),
            Process::block_runs(*old(self), *final(self), blk@, r),
            old(self).depth() == 0 ==> (r matches Err(ExecutionError::StackUnderflow(_, c))
                && c == old(self).clk()),
            old(self).depth() >= 1 && old(self).row()[0].val() != 0 && old(self).row()[0].val()
                != 1 ==> (r matches Err(ExecutionError::NotBinaryValue(v)) && v == old(
                self,
            ).row()[0]),
            old(self).depth() >= 1 && old(self).row()[0].val() == 0 ==> {
                &&& r is Ok
                &&& final(self).clk() == old(self).clk() + 2
                &&& final(self).depth() == old(self).depth() - 1
                &&& final(self).row() == row_after_drop(old(self).row(), old(self).riser())
                &&& old(self).depth() > 16 ==> final(self).stack.overflow_table().history_view()
                    == old(self).stack.overflow_table().history_view().push(
                    OverflowEvent::Pop { step: (old(self).clk() + 2) as usize },
                )
                &&& old(self).depth() <= 16 ==> final(self).stack.overflow_table() == old(
                    self,
                ).stack.overflow_table()
                &&& Process::memory_unchanged(*old(self), *final(self))
                &&& Process::advice_unchanged(*old(self), *final(self))
                &&& Process::fmp_kept(*old(self), *final(self))
            },
            r is Ok ==> old(self).depth() >= 1 && (old(self).row()[0].val() == 0 || old(
                self,
            ).row()[0].val() == 1),
        decreases crate::program::block_height(*body), 1int,
    {
        proof {
            self.stack.lemma_clk_bound();
        }
        let clk = self.system.clk_value();
        let condition = match self.stack.peek() {
            Some(t) => t,
            None => {
                proof {
                    assert(Process::block_exec(
                        *old(self),
                        *self,
                        blk@,
                        Err(ExecutionError::StackUnderflow("loop", clk)),
                        false,
                        1,
                    ));
                }
                return Err(ExecutionError::StackUnderflow("loop", clk));
            },
        };
        if condition.is_one() {
            self.decoder.start_loop(true);
            let ghost g1 = *self;
            self.execute_op(Operation::Drop)?;
            let ghost g2 = *self;
            proof {
                assert(Process::notify_loop_open(*old(self), g1));
                assert(Process::op_exec_rel(g1, g2, Operation::Drop, Ok(())));
            }
            let rb0 = self.execute_code_block(body);
            let ghost g3 = *self;
            match rb0 {
                Err(e) => {
                    proof {
                        let fb = choose|f: nat|
                            Process::block_exec(g2, g3, *body, Err(e), false, f);
                        assert(Process::block_exec(g2, g3, *body, Err(e), false, fb));
                        let fuel = (fb + 1) as nat;
                        assert(Process::step_fuel(g3, Err::<(), ExecutionError>(e), fb, fuel));
                        assert(Process::block_exec(*old(self), g3, blk@, Err(e), false, fuel));
                    }
                    return Err(e);
                },
                Ok(_) => {},
            }
            proof {
                Process::lemma_ok_unit(rb0);
            }
            let ghost fb0 = choose|f: nat|
                Process::block_exec(g2, g3, *body, Ok(()), false, f);
            proof {
                assert(Process::block_exec(g2, g3, *body, Ok(()), false, fb0));
            }
            let mut top = match self.stack.peek() {
                Some(t) => t,
                None => {
                    let c = self.system.clk_value();
                    proof {
                        let fuel = (fb0 + 1) as nat;
                        assert(Process::step_fuel(g3, Ok::<(), ExecutionError>(()), fb0, fuel));
                        assert(Process::block_exec(
                            *old(self),
                            g3,
                            blk@,
                            Err(ExecutionError::StackUnderflow("loop", c)),
                            false,
                            fuel,
                        ));
                    }
                    return Err(ExecutionError::StackUnderflow("loop", c));
                },
            };
            let ghost anchor = *self;
            let ghost mut n: nat = 0;
            proof {
                assert(Process::iters_prefix(anchor, *self, *body, 0));
                self.stack.lemma_clk_bound();
            }
            while top.is_one()
                invariant
                    self.wf(),
                    self.lockstep(),
                    self.depth() >= 1,
                    top == self.row()[0],
                    self.decoder.ctx_depth() == old(self).decoder.ctx_depth(),
                    self.decoder.loop_depth() == old(self).decoder.loop_depth() + 1,
                    Process::history_kept(*old(self), *self),
                    self.clk() > old(self).clk(),
                    self.clk() < usize::MAX,
                    crate::program::block_wf(*body),
                    old(self).depth() >= 1,
                    old(self).row()[0].val() == 1,
                    blk@ matches CodeBlock::Loop { body: b } && *b == *body,
                    Process::notify_loop_open(*old(self), g1),
                    Process::op_exec_rel(g1, g2, Operation::Drop, Ok(())),
                    Process::block_exec(g2, g3, *body, Ok(()), false, fb0),
                    anchor == g3,
                    anchor.depth() >= 1,
                    Process::iters_prefix(anchor, *self, *body, n),
                decreases usize::MAX - self.clk(),
            {
                proof {
                    self.stack.lemma_clk_bound();
                }
                let ghost pre_it = *self;
                self.execute_op(Operation::Drop)?;
                let ghost x1 = *self;
                self.decoder.repeat();
                let ghost x2 = *self;
                proof {
                    assert(Process::op_exec_rel(pre_it, x1, Operation::Drop, Ok(())));
                    assert(Process::notify_plain(x1, x2));
                }
                let rb = self.execute_code_block(body);
                let ghost x3 = *self;
                match rb {
                    Err(e) => {
                        proof {
                            let fbi = choose|f: nat|
                                Process::block_exec(x2, x3, *body, Err(e), false, f);
                            assert(Process::block_exec(x2, x3, *body, Err(e), false, fbi));
                            Process::lemma_resume_iter_err(
                                anchor,
                                pre_it,
                                x1,
                                x2,
                                x3,
                                blk@,
                                *body,
                                n,
                                fbi,
                                e,
                            );
                            let ft = choose|f: nat|
                                Process::block_exec(anchor, x3, blk@, Err(e), true, f);
                            assert(Process::block_exec(anchor, x3, blk@, Err(e), true, ft));
                            let fuel = (fb0 + ft + 1) as nat;
                            assert(Process::step_fuel(
                                g3,
                                Ok::<(), ExecutionError>(()),
                                fb0,
                                fuel,
                            ));
                            assert(Process::fuel_lt(ft, fuel));
                            assert(Process::block_exec(
                                *old(self),
                                x3,
                                blk@,
                                Err(e),
                                false,
                                fuel,
                            ));
                        }
                        return Err(e);
                    },
                    Ok(_) => {},
                }
                proof {
                    Process::lemma_ok_unit(rb);
                }
                top = match self.stack.peek() {
                    Some(t) => t,
                    None => {
                        let c = self.system.clk_value();
                        proof {
                            let fbi = choose|f: nat|
                                Process::block_exec(x2, x3, *body, Ok(()), false, f);
                            assert(Process::block_exec(x2, x3, *body, Ok(()), false, fbi));
                            Process::lemma_resume_iter_underflow(
                                anchor,
                                pre_it,
                                x1,
                                x2,
                                x3,
                                blk@,
                                *body,
                                n,
                                fbi,
                                Err(ExecutionError::StackUnderflow("loop", c)),
                            );
                            let ft = choose|f: nat|
                                Process::block_exec(
                                    anchor,
                                    x3,
                                    blk@,
                                    Err(ExecutionError::StackUnderflow("loop", c)),
                                    true,
                                    f,
                                );
                            assert(Process::block_exec(
                                anchor,
                                x3,
                                blk@,
                                Err(ExecutionError::StackUnderflow("loop", c)),
                                true,
                                ft,
                            ));
                            let fuel = (fb0 + ft + 1) as nat;
                            assert(Process::step_fuel(
                                g3,
                                Ok::<(), ExecutionError>(()),
                                fb0,
                                fuel,
                            ));
                            assert(Process::fuel_lt(ft, fuel));
                            assert(Process::block_exec(
                                *old(self),
                                x3,
                                blk@,
                                Err(ExecutionError::StackUnderflow("loop", c)),
                                false,
                                fuel,
                            ));
                        }
                        return Err(ExecutionError::StackUnderflow("loop", c));
                    },
                };
                proof {
                    let fbi = choose|f: nat|
                        Process::block_exec(x2, x3, *body, Ok(()), false, f);
                    assert(Process::block_exec(x2, x3, *body, Ok(()), false, fbi));
                    assert(Process::one_iter(pre_it, x1, x2, x3, *body, fbi));
                    Process::lemma_prefix_extend(anchor, pre_it, x1, x2, x3, *body, n, fbi);
                    n = (n + 1) as nat;
                    self.stack.lemma_clk_bound();
                }
            }
            if !top.is_zero() {
                proof {
                    Process::lemma_resume_exit_non_binary(
                        anchor,
                        *self,
                        blk@,
                        *body,
                        n,
                        Err(ExecutionError::NotBinaryValue(top)),
                    );
                    let ft = choose|f: nat|
                        Process::block_exec(
                            anchor,
                            *self,
                            blk@,
                            Err(ExecutionError::NotBinaryValue(top)),
                            true,
                            f,
                        );
                    assert(Process::block_exec(
                        anchor,
                        *self,
                        blk@,
                        Err(ExecutionError::NotBinaryValue(top)),
                        true,
                        ft,
                    ));
                    let fuel = (fb0 + ft + 1) as nat;
                    assert(Process::step_fuel(g3, Ok::<(), ExecutionError>(()), fb0, fuel));
                    assert(Process::fuel_lt(ft, fuel));
                    assert(Process::block_exec(
                        *old(self),
                        *self,
                        blk@,
                        Err(ExecutionError::NotBinaryValue(top)),
                        false,
                        fuel,
                    ));
                }
                return Err(ExecutionError::NotBinaryValue(top));
            }
            let ghost cur = *self;
            self.execute_op(Operation::Drop)?;
            let ghost m5g = *self;
            proof {
                self.stack.lemma_clk_bound();
                old(self).decoder.lemma_nonneg();
            }
            self.decoder.end_loop(true);
            proof {
                assert(Process::op_exec_rel(cur, m5g, Operation::Drop, Ok(())));
                assert(Process::notify_loop_close(m5g, *self));
                Process::lemma_resume_exit_ok(anchor, cur, m5g, *self, blk@, *body, n);
                let ft = choose|f: nat|
                    Process::block_exec(anchor, *self, blk@, Ok(()), true, f);
                assert(Process::block_exec(anchor, *self, blk@, Ok(()), true, ft));
                let fuel = (fb0 + ft + 1) as nat;
                assert(Process::step_fuel(g3, Ok::<(), ExecutionError>(()), fb0, fuel));
                assert(Process::fuel_lt(ft, fuel));
                assert(Process::block_exec(*old(self), *self, blk@, Ok(()), false, fuel));
            }
            Ok(())
        } else if condition.is_zero() {
            self.decoder.start_loop(false);
            let ghost g1 = *self;
            self.execute_op(Operation::Noop)?;
            let ghost g2 = *self;
            self.execute_op(Operation::Drop)?;
            let ghost g3 = *self;
            proof {
                self.stack.lemma_clk_bound();
            }
            self.decoder.end_loop(false);
            proof {
                assert(Process::notify_plain(*old(self), g1));
                assert(Process::op_exec_rel(g1, g2, Operation::Noop, Ok(())));
                assert(Process::op_exec_rel(g2, g3, Operation::Drop, Ok(())));
                assert(Process::notify_plain(g3, *self));
                assert(Process::block_exec(*old(self), *self, blk@, Ok(()), false, 1));
            }
            Ok(())
        } else {
            proof {
                assert(Process::block_exec(
                    *old(self),
                    *self,
                    blk@,
                    Err(ExecutionError::NotBinaryValue(condition)),
                    false,
                    1,
                ));
            }
            Err(ExecutionError::NotBinaryValue(condition))
        }
    }

    /// Executes a span block: each batch's user operations in order, the
    /// first batch after a start cycle, later batches each after a respan
    /// cycle, and an end cycle to finish. The whole effect is pinned by
    /// `span_chain`: the block succeeds exactly when every operation does,
    /// and a failing operation's error is returned with execution stopped at
    /// it.
    pub fn execute_span_block(&mut self, op_batches: &Vec<crate::program::OpBatch>) -> (r:
        Result<(), ExecutionError>)
        requires
            old(self).wf(),
            old(self).lockstep(),
            op_batches@.len() >= 1,
        ensures
            final(self).wf(),
            Process::block_post(*old(self), *final(self), r),
            exists|
                m1: Process,
                m2: Process,
                m3: Process,
                m4: Process,
                m5: Process,
                r1: Result<(), ExecutionError>,
                r2: Result<(), ExecutionError>,
            |
                #[trigger] Process::span_chain(
                    *old(self),
                    m1,
                    m2,
                    m3,
                    m4,
                    m5,
                    *final(self),
                    op_batches@,
                    r1,
                    r2,
                    r,
                ),
    {
        proof {
            self.stack.lemma_clk_bound();
        }
        self.decoder.start_span();
        let ghost g1 = *self;
        self.execute_op(Operation::Noop)?;
        let ghost g2 = *self;
        proof {
            assert(Process::notify_plain(*old(self), g1));
            assert(Process::op_exec_rel(g1, g2, Operation::Noop, Ok(())));
            assert(op_batches@[0].ops_view().subrange(0, 0) =~= Seq::<Operation>::empty());
        }
        let ops = op_batches[0].ops();
        let n = ops.len();
        let mut oi: usize = 0;
        while oi < n
            invariant
                oi <= n,
                n == ops@.len(),
                ops@ == op_batches@[0].ops_view(),
                self.wf(),
                self.lockstep(),
                self.decoder.ctx_depth() == old(self).decoder.ctx_depth(),
                self.decoder.loop_depth() == old(self).decoder.loop_depth(),
                Process::history_kept(*old(self), *self),
                self.clk() > old(self).clk(),
                Process::notify_plain(*old(self), g1),
                Process::op_exec_rel(g1, g2, Operation::Noop, Ok(())),
                Process::ops_steps(
                    g2,
                    *self,
                    op_batches@[0].ops_view().subrange(0, oi as int),
                    Ok(()),
                ),
            decreases n - oi,
        {
            let op = ops[oi];
            let ghost pre_op = *self;
            let rop = self.execute_op(op);
            let ghost post_op = *self;
            match rop {
                Err(e) => {
                    proof {
                        assert(Process::op_exec_rel(pre_op, post_op, op, Err(e)));
                        Process::lemma_ops_err_finish(
                            g2,
                            pre_op,
                            post_op,
                            op_batches@[0].ops_view(),
                            oi as int,
                            e,
                        );
                        assert(Process::span_chain(
                            *old(self),
                            g1,
                            g2,
                            post_op,
                            post_op,
                            post_op,
                            post_op,
                            op_batches@,
                            Err(e),
                            Err(e),
                            Err(e),
                        ));
                    }
                    return Err(e);
                },
                Ok(_) => {},
            }
            proof {
                self.stack.lemma_clk_bound();
            }
            self.decoder.execute_user_op();
            proof {
                assert(Process::notify_plain(post_op, *self));
                assert(Process::op_exec_rel(pre_op, post_op, op, Ok(())));
                Process::lemma_ops_ok_extend(
                    g2,
                    pre_op,
                    post_op,
                    *self,
                    op_batches@[0].ops_view(),
                    oi as int,
                );
            }
            oi = oi + 1;
        }
        proof {
            assert(op_batches@[0].ops_view().subrange(0, n as int) =~= op_batches@[
                0].ops_view());
        }
        let ghost g3 = *self;
        let ghost rest = op_batches@.subrange(1, op_batches@.len() as int);
        let mut bi: usize = 1;
        proof {
            assert(rest.subrange(0, 0) =~= Seq::<crate::program::OpBatch>::empty());
            assert(Process::respan_steps(g3, *self, rest.subrange(0, 0), Ok(())));
        }
        while bi < op_batches.len()
            invariant
                1 <= bi <= op_batches@.len(),
                rest == op_batches@.subrange(1, op_batches@.len() as int),
                self.wf(),
                self.lockstep(),
                self.decoder.ctx_depth() == old(self).decoder.ctx_depth(),
                self.decoder.loop_depth() == old(self).decoder.loop_depth(),
                Process::history_kept(*old(self), *self),
                self.clk() > old(self).clk(),
                Process::notify_plain(*old(self), g1),
                Process::op_exec_rel(g1, g2, Operation::Noop, Ok(())),
                Process::ops_steps(g2, g3, op_batches@[0].ops_view(), Ok(())),
                Process::respan_steps(g3, *self, rest.subrange(0, bi - 1), Ok(())),
            decreases op_batches@.len() - bi,
        {
            proof {
                self.stack.lemma_clk_bound();
            }
            let ghost pre_r = *self;
            self.decoder.respan();
            let ghost l1 = *self;
            self.execute_op(Operation::Noop)?;
            let ghost l2 = *self;
            proof {
                assert(Process::notify_plain(pre_r, l1));
                assert(Process::op_exec_rel(l1, l2, Operation::Noop, Ok(())));
                assert(op_batches@[bi as int].ops_view().subrange(0, 0) =~= Seq::<
                    Operation,
                >::empty());
            }
            let ops2 = op_batches[bi].ops();
            let n2 = ops2.len();
            let mut oj: usize = 0;
            while oj < n2
                invariant
                    oj <= n2,
                    1 <= bi < op_batches@.len(),
                    n2 == ops2@.len(),
                    ops2@ == op_batches@[bi as int].ops_view(),
                    rest == op_batches@.subrange(1, op_batches@.len() as int),
                    self.wf(),
                    self.lockstep(),
                    self.decoder.ctx_depth() == old(self).decoder.ctx_depth(),
                    self.decoder.loop_depth() == old(self).decoder.loop_depth(),
                    Process::history_kept(*old(self), *self),
                    self.clk() > old(self).clk(),
                    Process::notify_plain(*old(self), g1),
                    Process::op_exec_rel(g1, g2, Operation::Noop, Ok(())),
                    Process::ops_steps(g2, g3, op_batches@[0].ops_view(), Ok(())),
                    Process::respan_steps(g3, pre_r, rest.subrange(0, bi - 1), Ok(())),
                    Process::notify_plain(pre_r, l1),
                    Process::op_exec_rel(l1, l2, Operation::Noop, Ok(())),
                    Process::ops_steps(
                        l2,
                        *self,
                        op_batches@[bi as int].ops_view().subrange(0, oj as int),
                        Ok(()),
                    ),
                decreases n2 - oj,
            {
                let op = ops2[oj];
                let ghost pre_op = *self;
                let rop = self.execute_op(op);
                let ghost post_op = *self;
                match rop {
                    Err(e) => {
                        proof {
                            assert(Process::op_exec_rel(pre_op, post_op, op, Err(e)));
                            Process::lemma_ops_err_finish(
                                l2,
                                pre_op,
                                post_op,
                                op_batches@[bi as int].ops_view(),
                                oj as int,
                                e,
                            );
                            assert(rest[bi - 1] == op_batches@[bi as int]);
                            assert(Process::respan_link(
                                pre_r,
                                l1,
                                l2,
                                post_op,
                                rest[bi - 1],
                                Err(e),
                            ));
                            Process::lemma_respan_err_finish(
                                g3,
                                pre_r,
                                l1,
                                l2,
                                post_op,
                                rest,
                                bi - 1,
                                e,
                            );
                            assert(Process::span_chain(
                                *old(self),
                                g1,
                                g2,
                                g3,
                                post_op,
                                post_op,
                                post_op,
                                op_batches@,
                                Ok(()),
                                Err(e),
                                Err(e),
                            ));
                        }
                        return Err(e);
                    },
                    Ok(_) => {},
                }
                proof {
                    self.stack.lemma_clk_bound();
                }
                self.decoder.execute_user_op();
                proof {
                    assert(Process::notify_plain(post_op, *self));
                    assert(Process::op_exec_rel(pre_op, post_op, op, Ok(())));
                    Process::lemma_ops_ok_extend(
                        l2,
                        pre_op,
                        post_op,
                        *self,
                        op_batches@[bi as int].ops_view(),
                        oj as int,
                    );
                }
                oj = oj + 1;
            }
            proof {
                assert(op_batches@[bi as int].ops_view().subrange(0, n2 as int) =~= op_batches@[
                    bi as int].ops_view());
                assert(rest[bi - 1] == op_batches@[bi as int]);
                assert(Process::respan_link(pre_r, l1, l2, *self, rest[bi - 1], Ok(())));
                Process::lemma_respan_ok_extend(g3, pre_r, l1, l2, *self, rest, bi - 1);
            }
            bi = bi + 1;
        }
        proof {
            assert(rest.subrange(0, op_batches@.len() - 1) =~= rest);
        }
        let ghost g4 = *self;
        proof {
            self.stack.lemma_clk_bound();
        }
        self.decoder.end_span();
        let ghost g5 = *self;
        self.execute_op(Operation::Noop)?;
        proof {
            assert(Process::notify_plain(g4, g5));
            assert(Process::op_exec_rel(g5, *self, Operation::Noop, Ok(())));
            assert(op_batches@.skip(1) =~= rest);
            assert(Process::span_chain(
                *old(self),
                g1,
                g2,
                g3,
                g4,
                g5,
                *self,
                op_batches@,
                Ok(()),
                Ok(()),
                Ok(()),
            ));
        }
        Ok(())
    }

    /// The contract of one user micro-operation, as a relation between the
    /// states before and after it.
    pub open spec fn op_exec_rel(
        pre: Process,
        post: Process,
        op: Operation,
        r: Result<(), ExecutionError>,
    ) -> bool {
        &&& post.wf()
        &&& post.decoder == pre.decoder
        &&& (r is Ok <==> Process::op_ok_condition(pre, op))
        &&& (r is Ok ==> Process::op_frame(pre, post) && Process::op_ok_effect(pre, post, op))
        &&& (r matches Err(e) ==> Process::op_err_matches(pre, op, e) && Process::unchanged(
            pre,
            post,
        ))
    }

    /// A decoder notification that opens and closes nothing: only the event
    /// count moves.
    pub open spec fn notify_plain(pre: Process, post: Process) -> bool {
        &&& post.system == pre.system
        &&& post.stack == pre.stack
        &&& post.memory == pre.memory
        &&& post.advice == pre.advice
        &&& post.decoder.op_count() == pre.decoder.op_count() + 1
        &&& post.decoder.loop_depth() == pre.decoder.loop_depth()
        &&& post.decoder.max_loop_depth() == pre.decoder.max_loop_depth()
        &&& post.decoder.ctx_depth() == pre.decoder.ctx_depth()
        &&& post.decoder.max_ctx_depth() == pre.decoder.max_ctx_depth()
        &&& post.decoder.wf()
    }

    /// Executing user operations in order, each followed by its decoder
    /// notification; the first failure stops the sequence.
    pub open spec fn ops_steps(
        pre: Process,
        post: Process,
        ops: Seq<Operation>,
        r: Result<(), ExecutionError>,
    ) -> bool
        decreases ops.len(),
    {
        if ops.len() == 0 {
            post == pre && r is Ok
        } else {
            exists|m1: Process, m2: Process, r1: Result<(), ExecutionError>|
                #[trigger] Process::op_notify_link(pre, m1, m2, ops[0], r1) && (
                (r1 matches Err(_) ==> r == r1 && post == m1) && (r1 is Ok
                    ==> Process::ops_steps(m2, post, ops.skip(1), r)))
        }
    }

    /// One user operation and, on success, its notification.
    pub open spec fn op_notify_link(
        pre: Process,
        m1: Process,
        m2: Process,
        op: Operation,
        r1: Result<(), ExecutionError>,
    ) -> bool {
        Process::op_exec_rel(pre, m1, op, r1) && (r1 is Ok ==> Process::notify_plain(m1, m2))
    }

    /// The batches after a span's first one: each preceded by a respan cycle.
    pub open spec fn respan_steps(
        pre: Process,
        post: Process,
        batches: Seq<crate::program::OpBatch>,
        r: Result<(), ExecutionError>,
    ) -> bool
        decreases batches.len(),
    {
        if batches.len() == 0 {
            post == pre && r is Ok
        } else {
            exists|m1: Process, m2: Process, m3: Process, r1: Result<(), ExecutionError>|
                #[trigger] Process::respan_link(pre, m1, m2, m3, batches[0], r1) && ((
                r1 matches Err(_) ==> r == r1 && post == m3) && (r1 is Ok
                    ==> Process::respan_steps(m3, post, batches.skip(1), r)))
        }
    }

    /// One respan cycle and its batch.
    pub open spec fn respan_link(
        pre: Process,
        m1: Process,
        m2: Process,
        m3: Process,
        batch: crate::program::OpBatch,
        r1: Result<(), ExecutionError>,
    ) -> bool {
        &&& Process::notify_plain(pre, m1)
        &&& Process::op_exec_rel(m1, m2, Operation::Noop, Ok(()))
        &&& Process::ops_steps(m2, m3, batch.ops_view(), r1)
    }

    /// A whole span block: start cycle, the first batch, the remaining
    /// batches each after a respan cycle, and the end cycle.
    pub open spec fn span_chain(
        pre: Process,
        m1: Process,
        m2: Process,
        m3: Process,
        m4: Process,
        m5: Process,
        post: Process,
        batches: Seq<crate::program::OpBatch>,
        r1: Result<(), ExecutionError>,
        r2: Result<(), ExecutionError>,
        r: Result<(), ExecutionError>,
    ) -> bool {
        &&& Process::notify_plain(pre, m1)
        &&& Process::op_exec_rel(m1, m2, Operation::Noop, Ok(()))
        &&& Process::ops_steps(m2, m3, batches[0].ops_view(), r1)
        &&& (r1 matches Err(_) ==> r == r1 && post == m3)
        &&& (r1 is Ok ==> {
            &&& Process::respan_steps(m3, m4, batches.skip(1), r2)
            &&& (r2 matches Err(_) ==> r == r2 && post == m4)
            &&& (r2 is Ok ==> Process::notify_plain(m4, m5) && Process::op_exec_rel(
                m5,
                post,
                Operation::Noop,
                Ok(()),
            ) && r is Ok)
        })
    }

    /// A successful result of the unit type is the one `Ok(())` value.
    pub proof fn lemma_ok_unit(r: Result<(), ExecutionError>)
        requires
            r is Ok,
        ensures
            r == Ok::<(), ExecutionError>(()),
    {
        match r {
            Ok(u) => {
                assert(u =~= ());
            },
            Err(_) => {},
        }
    }

    /// A successfully executed sequence extends by one more successful
    /// operation and its notification.
    pub proof fn lemma_ops_ok_extend(
        a: Process,
        b: Process,
        c: Process,
        d: Process,
        all: Seq<Operation>,
        n: int,
    )
        requires
            0 <= n < all.len(),
            Process::ops_steps(a, b, all.subrange(0, n), Ok(())),
            Process::op_exec_rel(b, c, all[n], Ok(())),
            Process::notify_plain(c, d),
        ensures
            Process::ops_steps(a, d, all.subrange(0, n + 1), Ok(())),
        decreases n,
    {
        let done = all.subrange(0, n);
        let done1 = all.subrange(0, n + 1);
        if n == 0 {
            assert(a == b);
            assert(Process::op_notify_link(a, c, d, all[0], Ok(())));
            assert(done1.len() == 1 && done1[0] == all[0]);
            assert(done1.skip(1) =~= Seq::<Operation>::empty());
            assert(Process::ops_steps(d, d, done1.skip(1), Ok(())));
        } else {
            let (m1, m2, r1) = choose|m1: Process, m2: Process, r1: Result<(), ExecutionError>|
                #[trigger] Process::op_notify_link(a, m1, m2, done[0], r1) && ((
                r1 matches Err(_) ==> Ok::<(), ExecutionError>(()) == r1 && b == m1) && (
                r1 is Ok ==> Process::ops_steps(m2, b, done.skip(1), Ok(()))));
            assert(Process::op_notify_link(a, m1, m2, done[0], r1));
            assert(r1 is Ok);
            Process::lemma_ok_unit(r1);
            assert(done.skip(1) =~= all.skip(1).subrange(0, n - 1));
            assert(all.skip(1)[n - 1] == all[n]);
            Process::lemma_ops_ok_extend(m2, b, c, d, all.skip(1), n - 1);
            assert(all.skip(1).subrange(0, n) =~= done1.skip(1));
            assert(done1[0] == all[0]);
            assert(Process::op_notify_link(a, m1, m2, done1[0], Ok(())));
        }
    }

    /// A successfully executed sequence followed by one failing operation is
    /// the whole sequence failing with that operation's error.
    pub proof fn lemma_ops_err_finish(
        a: Process,
        b: Process,
        c: Process,
        all: Seq<Operation>,
        n: int,
        e: ExecutionError,
    )
        requires
            0 <= n < all.len(),
            Process::ops_steps(a, b, all.subrange(0, n), Ok(())),
            Process::op_exec_rel(b, c, all[n], Err(e)),
        ensures
            Process::ops_steps(a, c, all, Err(e)),
        decreases n,
    {
        let done = all.subrange(0, n);
        if n == 0 {
            assert(a == b);
            assert(Process::op_notify_link(a, c, c, all[0], Err(e)));
        } else {
            let (m1, m2, r1) = choose|m1: Process, m2: Process, r1: Result<(), ExecutionError>|
                #[trigger] Process::op_notify_link(a, m1, m2, done[0], r1) && ((
                r1 matches Err(_) ==> Ok::<(), ExecutionError>(()) == r1 && b == m1) && (
                r1 is Ok ==> Process::ops_steps(m2, b, done.skip(1), Ok(()))));
            assert(Process::op_notify_link(a, m1, m2, done[0], r1));
            assert(r1 is Ok);
            Process::lemma_ok_unit(r1);
            assert(done.skip(1) =~= all.skip(1).subrange(0, n - 1));
            assert(all.skip(1)[n - 1] == all[n]);
            Process::lemma_ops_err_finish(m2, b, c, all.skip(1), n - 1, e);
            assert(Process::op_notify_link(a, m1, m2, all[0], Ok(())));
        }
    }

    /// A successfully executed run of batches extends by one more
    /// successful batch behind its respan cycle.
    pub proof fn lemma_respan_ok_extend(
        a: Process,
        b: Process,
        m1: Process,
        m2: Process,
        m3: Process,
        all: Seq<crate::program::OpBatch>,
        n: int,
    )
        requires
            0 <= n < all.len(),
            Process::respan_steps(a, b, all.subrange(0, n), Ok(())),
            Process::respan_link(b, m1, m2, m3, all[n], Ok(())),
        ensures
            Process::respan_steps(a, m3, all.subrange(0, n + 1), Ok(())),
        decreases n,
    {
        let done = all.subrange(0, n);
        let done1 = all.subrange(0, n + 1);
        if n == 0 {
            assert(a == b);
            assert(done1[0] == all[0]);
            assert(done1.skip(1) =~= Seq::<crate::program::OpBatch>::empty());
            assert(Process::respan_steps(m3, m3, done1.skip(1), Ok(())));
        } else {
            let (x1, x2, x3, r1) = choose|
                x1: Process,
                x2: Process,
                x3: Process,
                r1: Result<(), ExecutionError>,
            |
                #[trigger] Process::respan_link(a, x1, x2, x3, done[0], r1) && ((
                r1 matches Err(_) ==> Ok::<(), ExecutionError>(()) == r1 && b == x3) && (
                r1 is Ok ==> Process::respan_steps(x3, b, done.skip(1), Ok(()))));
            assert(Process::respan_link(a, x1, x2, x3, done[0], r1));
            assert(r1 is Ok);
            Process::lemma_ok_unit(r1);
            assert(done.skip(1) =~= all.skip(1).subrange(0, n - 1));
            assert(all.skip(1)[n - 1] == all[n]);
            Process::lemma_respan_ok_extend(x3, b, m1, m2, m3, all.skip(1), n - 1);
            assert(all.skip(1).subrange(0, n) =~= done1.skip(1));
            assert(done1[0] == all[0]);
            assert(Process::respan_link(a, x1, x2, x3, done1[0], Ok(())));
        }
    }

    /// A successfully executed run of batches followed by one failing batch
    /// is the whole run failing with that batch's error.
    pub proof fn lemma_respan_err_finish(
        a: Process,
        b: Process,
        m1: Process,
        m2: Process,
        m3: Process,
        all: Seq<crate::program::OpBatch>,
        n: int,
        e: ExecutionError,
    )
        requires
            0 <= n < all.len(),
            Process::respan_steps(a, b, all.subrange(0, n), Ok(())),
            Process::respan_link(b, m1, m2, m3, all[n], Err(e)),
        ensures
            Process::respan_steps(a, m3, all, Err(e)),
        decreases n,
    {
        let done = all.subrange(0, n);
        if n == 0 {
            assert(a == b);
        } else {
            let (x1, x2, x3, r1) = choose|
                x1: Process,
                x2: Process,
                x3: Process,
                r1: Result<(), ExecutionError>,
            |
                #[trigger] Process::respan_link(a, x1, x2, x3, done[0], r1) && ((
                r1 matches Err(_) ==> Ok::<(), ExecutionError>(()) == r1 && b == x3) && (
                r1 is Ok ==> Process::respan_steps(x3, b, done.skip(1), Ok(()))));
            assert(Process::respan_link(a, x1, x2, x3, done[0], r1));
            assert(r1 is Ok);
            Process::lemma_ok_unit(r1);
            assert(done.skip(1) =~= all.skip(1).subrange(0, n - 1));
            assert(all.skip(1)[n - 1] == all[n]);
            Process::lemma_respan_err_finish(x3, b, m1, m2, m3, all.skip(1), n - 1, e);
            assert(Process::respan_link(a, x1, x2, x3, all[0], Ok(())));
        }
    }

    /// The result is a stack underflow reported at cycle `clk`.
    pub open spec fn underflow_at(r: Result<(), ExecutionError>, clk: int) -> bool {
        r matches Err(ExecutionError::StackUnderflow(_, c)) && c == clk
    }

    /// The result is a non-binary-predicate failure carrying `v`.
    pub open spec fn non_binary(r: Result<(), ExecutionError>, v: Felt) -> bool {
        r matches Err(ExecutionError::NotBinaryValue(w)) && w == v
    }

    /// The notification opening a taken loop.
    pub open spec fn notify_loop_open(pre: Process, post: Process) -> bool {
        &&& post.system == pre.system
        &&& post.stack == pre.stack
        &&& post.memory == pre.memory
        &&& post.advice == pre.advice
        &&& post.decoder.op_count() == pre.decoder.op_count() + 1
        &&& post.decoder.loop_depth() == pre.decoder.loop_depth() + 1
        &&& post.decoder.ctx_depth() == pre.decoder.ctx_depth()
        &&& post.decoder.max_ctx_depth() == pre.decoder.max_ctx_depth()
        &&& post.decoder.wf()
    }

    /// The notification closing a taken loop.
    pub open spec fn notify_loop_close(pre: Process, post: Process) -> bool {
        &&& post.system == pre.system
        &&& post.stack == pre.stack
        &&& post.memory == pre.memory
        &&& post.advice == pre.advice
        &&& post.decoder.op_count() == pre.decoder.op_count() + 1
        &&& post.decoder.loop_depth() == pre.decoder.loop_depth() - 1
        &&& post.decoder.max_loop_depth() == pre.decoder.max_loop_depth()
        &&& post.decoder.ctx_depth() == pre.decoder.ctx_depth()
        &&& post.decoder.max_ctx_depth() == pre.decoder.max_ctx_depth()
        &&& post.decoder.wf()
    }

    /// One child run's endpoint, result and fuel, bounded by the enclosing
    /// budget; the bound doubles as the quantifier trigger naming the run.
    pub open spec fn step_fuel(
        m: Process,
        rb: Result<(), ExecutionError>,
        fb: nat,
        fuel: nat,
    ) -> bool {
        fb < fuel
    }

    /// A tail budget below the enclosing one.
    pub open spec fn fuel_lt(k: nat, fuel: nat) -> bool {
        k < fuel
    }

    /// Big-step execution of one code block, fuel-bounded. With `in_loop`
    /// false the block runs from its start; with `in_loop` true — used for
    /// loop blocks only — the run resumes at the while-condition check of a
    /// taken loop, where the context guarantees a top element. The relation
    /// mirrors the executors clause for clause: it pins the result, every
    /// intermediate state, and the first failure.
    pub open spec fn block_exec(
        pre: Process,
        post: Process,
        block: CodeBlock,
        r: Result<(), ExecutionError>,
        in_loop: bool,
        fuel: nat,
    ) -> bool
        decreases fuel,
    {
        fuel > 0 && if in_loop {
            match block {
                CodeBlock::Loop { body } => {
                    if pre.row()[0].val() == 1 {
                        exists|
                            m1: Process,
                            m2: Process,
                            m3: Process,
                            rb: Result<(), ExecutionError>,
                            fb: nat,
                        |
                            #![trigger Process::op_exec_rel(pre, m1, Operation::Drop, Ok(())), Process::notify_plain(m1, m2), Process::step_fuel(m3, rb, fb, fuel)]
                            {
                                &&& Process::step_fuel(m3, rb, fb, fuel)
                                &&& Process::op_exec_rel(pre, m1, Operation::Drop, Ok(()))
                                &&& Process::notify_plain(m1, m2)
                                &&& Process::block_exec(m2, m3, *body, rb, false, fb)
                                &&& (rb matches Err(_) ==> r == rb && post == m3)
                                &&& (rb is Ok ==> if m3.depth() == 0 {
                                    post == m3 && Process::underflow_at(r, m3.clk())
                                } else {
                                    exists|ft: nat|
                                        #[trigger] Process::fuel_lt(ft, fuel)
                                            && Process::block_exec(m3, post, block, r, true, ft)
                                })
                            }
                    } else if pre.row()[0].val() == 0 {
                        exists|m5: Process|
                            #![trigger Process::op_exec_rel(pre, m5, Operation::Drop, Ok(()))]
                            {
                                &&& Process::op_exec_rel(pre, m5, Operation::Drop, Ok(()))
                                &&& Process::notify_loop_close(m5, post)
                                &&& r is Ok
                            }
                    } else {
                        post == pre && Process::non_binary(r, pre.row()[0])
                    }
                },
                _ => false,
            }
        } else {
            match block {
                CodeBlock::Span { op_batches } => exists|
                    m1: Process,
                    m2: Process,
                    m3: Process,
                    m4: Process,
                    m5: Process,
                    r1: Result<(), ExecutionError>,
                    r2: Result<(), ExecutionError>,
                |
                    #[trigger] Process::span_chain(
                        pre,
                        m1,
                        m2,
                        m3,
                        m4,
                        m5,
                        post,
                        op_batches@,
                        r1,
                        r2,
                        r,
                    ),
                CodeBlock::Join { first, second } => exists|
                    m1: Process,
                    m2: Process,
                    m3: Process,
                    m4: Process,
                    m5: Process,
                    r1: Result<(), ExecutionError>,
                    r2: Result<(), ExecutionError>,
                    f1: nat,
                    f2: nat,
                |
                    #![trigger Process::notify_plain(pre, m1), Process::op_exec_rel(m1, m2, Operation::Noop, Ok(())), Process::step_fuel(m3, r1, f1, fuel), Process::step_fuel(m4, r2, f2, fuel), Process::notify_plain(m4, m5)]
                    {
                        &&& Process::notify_plain(pre, m1)
                        &&& Process::op_exec_rel(m1, m2, Operation::Noop, Ok(()))
                        &&& Process::step_fuel(m3, r1, f1, fuel)
                        &&& Process::block_exec(m2, m3, *first, r1, false, f1)
                        &&& (r1 matches Err(_) ==> r == r1 && post == m3)
                        &&& (r1 is Ok ==> {
                            &&& Process::step_fuel(m4, r2, f2, fuel)
                            &&& Process::block_exec(m3, m4, *second, r2, false, f2)
                            &&& (r2 matches Err(_) ==> r == r2 && post == m4)
                            &&& (r2 is Ok ==> Process::notify_plain(m4, m5)
                                && Process::op_exec_rel(m5, post, Operation::Noop, Ok(()))
                                && r is Ok)
                        })
                    },
                CodeBlock::Split { on_true, on_false } => if pre.depth() == 0 {
                    post == pre && Process::underflow_at(r, pre.clk())
                } else if pre.row()[0].val() == 1 || pre.row()[0].val() == 0 {
                    exists|
                        m1: Process,
                        m2: Process,
                        m3: Process,
                        m4: Process,
                        rb: Result<(), ExecutionError>,
                        fb: nat,
                    |
                        #![trigger Process::notify_plain(pre, m1), Process::op_exec_rel(m1, m2, Operation::Drop, Ok(())), Process::step_fuel(m3, rb, fb, fuel), Process::notify_plain(m3, m4)]
                        {
                            &&& Process::notify_plain(pre, m1)
                            &&& Process::op_exec_rel(m1, m2, Operation::Drop, Ok(()))
                            &&& Process::step_fuel(m3, rb, fb, fuel)
                            &&& Process::block_exec(
                                m2,
                                m3,
                                if pre.row()[0].val() == 1 {
                                    *on_true
                                } else {
                                    *on_false
                                },
                                rb,
                                false,
                                fb,
                            )
                            &&& (rb matches Err(_) ==> r == rb && post == m3)
                            &&& (rb is Ok ==> Process::notify_plain(m3, m4)
                                && Process::op_exec_rel(m4, post, Operation::Noop, Ok(()))
                                && r is Ok)
                        }
                } else {
                    exists|m1: Process, m2: Process|
                        #![trigger Process::notify_plain(pre, m1), Process::op_exec_rel(m1, m2, Operation::Drop, Ok(()))]
                        {
                            &&& Process::notify_plain(pre, m1)
                            &&& Process::op_exec_rel(m1, m2, Operation::Drop, Ok(()))
                            &&& post == m2
                            &&& Process::non_binary(r, pre.row()[0])
                        }
                },
                CodeBlock::Loop { body } => if pre.depth() == 0 {
                    post == pre && Process::underflow_at(r, pre.clk())
                } else if pre.row()[0].val() == 1 {
                    exists|
                        m1: Process,
                        m2: Process,
                        m3: Process,
                        rb: Result<(), ExecutionError>,
                        fb: nat,
                    |
                        #![trigger Process::notify_loop_open(pre, m1), Process::op_exec_rel(m1, m2, Operation::Drop, Ok(())), Process::step_fuel(m3, rb, fb, fuel)]
                        {
                            &&& Process::step_fuel(m3, rb, fb, fuel)
                            &&& Process::notify_loop_open(pre, m1)
                            &&& Process::op_exec_rel(m1, m2, Operation::Drop, Ok(()))
                            &&& Process::block_exec(m2, m3, *body, rb, false, fb)
                            &&& (rb matches Err(_) ==> r == rb && post == m3)
                            &&& (rb is Ok ==> if m3.depth() == 0 {
                                post == m3 && Process::underflow_at(r, m3.clk())
                            } else {
                                exists|ft: nat|
                                    #[trigger] Process::fuel_lt(ft, fuel)
                                        && Process::block_exec(m3, post, block, r, true, ft)
                            })
                        }
                } else if pre.row()[0].val() == 0 {
                    exists|m1: Process, m2: Process, m3: Process|
                        #![trigger Process::notify_plain(pre, m1), Process::op_exec_rel(m1, m2, Operation::Noop, Ok(())), Process::op_exec_rel(m2, m3, Operation::Drop, Ok(()))]
                        {
                            &&& Process::notify_plain(pre, m1)
                            &&& Process::op_exec_rel(m1, m2, Operation::Noop, Ok(()))
                            &&& Process::op_exec_rel(m2, m3, Operation::Drop, Ok(()))
                            &&& Process::notify_plain(m3, post)
                            &&& r is Ok
                        }
                } else {
                    post == pre && Process::non_binary(r, pre.row()[0])
                },
                CodeBlock::Proxy { hash } => post == pre && (r matches
                    Err(ExecutionError::UnexecutableCodeBlock(h)) && h@ == hash@),
            }
        }
    }

    /// A complete run of one block from its start: the execution relation
    /// holds for some fuel.
    pub open spec fn block_runs(
        pre: Process,
        post: Process,
        block: CodeBlock,
        r: Result<(), ExecutionError>,
    ) -> bool {
        exists|fuel: nat| #[trigger] Process::block_exec(pre, post, block, r, false, fuel)
    }

    /// A resumed run of a taken loop from a while-condition check.
    pub open spec fn loop_resumes(
        pre: Process,
        post: Process,
        block: CodeBlock,
        r: Result<(), ExecutionError>,
    ) -> bool {
        exists|fuel: nat| #[trigger] Process::block_exec(pre, post, block, r, true, fuel)
    }

    /// One completed while-iteration seen at a taken loop's condition check:
    /// the one on top dropped, a repeat cycle counted, the body run
    /// successfully, the next top present.
    pub open spec fn one_iter(
        a: Process,
        m1: Process,
        m2: Process,
        m3: Process,
        body: CodeBlock,
        fb: nat,
    ) -> bool {
        &&& a.row()[0].val() == 1
        &&& Process::op_exec_rel(a, m1, Operation::Drop, Ok(()))
        &&& Process::notify_plain(m1, m2)
        &&& Process::block_exec(m2, m3, body, Ok(()), false, fb)
        &&& m3.depth() >= 1
    }

    /// `n` completed while-iterations in a row, the first one first.
    pub open spec fn iters_prefix(a: Process, cur: Process, body: CodeBlock, n: nat) -> bool
        decreases n,
    {
        if n == 0 {
            cur == a
        } else {
            exists|m1: Process, m2: Process, mn: Process, fb: nat|
                #[trigger] Process::one_iter(a, m1, m2, mn, body, fb) && Process::iters_prefix(
                    mn,
                    cur,
                    body,
                    (n - 1) as nat,
                )
        }
    }

    /// Completed iterations extend by one more at their end.
    pub proof fn lemma_prefix_extend(
        a: Process,
        cur: Process,
        x1: Process,
        x2: Process,
        nxt: Process,
        body: CodeBlock,
        n: nat,
        fb: nat,
    )
        requires
            Process::iters_prefix(a, cur, body, n),
            Process::one_iter(cur, x1, x2, nxt, body, fb),
        ensures
            Process::iters_prefix(a, nxt, body, (n + 1) as nat),
        decreases n,
    {
        if n == 0 {
            assert(cur == a);
            assert(Process::iters_prefix(nxt, nxt, body, 0));
            assert(Process::one_iter(a, x1, x2, nxt, body, fb));
        } else {
            let (m1, m2, mn, f0) = choose|m1: Process, m2: Process, mn: Process, f0: nat|
                #[trigger] Process::one_iter(a, m1, m2, mn, body, f0) && Process::iters_prefix(
                    mn,
                    cur,
                    body,
                    (n - 1) as nat,
                );
            assert(Process::one_iter(a, m1, m2, mn, body, f0) && Process::iters_prefix(
                mn,
                cur,
                body,
                (n - 1) as nat,
            ));
            Process::lemma_prefix_extend(mn, cur, x1, x2, nxt, body, (n - 1) as nat, fb);
        }
    }

    /// Completed iterations ending on a zero, dropped and closed, are a
    /// successful resumed loop run.
    pub proof fn lemma_resume_exit_ok(
        a: Process,
        cur: Process,
        m5: Process,
        post: Process,
        blk: CodeBlock,
        body: CodeBlock,
        n: nat,
    )
        requires
            blk matches CodeBlock::Loop { body: b } && *b == body,
            Process::iters_prefix(a, cur, body, n),
            cur.row()[0].val() == 0,
            Process::op_exec_rel(cur, m5, Operation::Drop, Ok(())),
            Process::notify_loop_close(m5, post),
        ensures
            Process::loop_resumes(a, post, blk, Ok(())),
        decreases n,
    {
        if n == 0 {
            assert(cur == a);
            assert(Process::block_exec(a, post, blk, Ok(()), true, 1));
        } else {
            let (m1, m2, mn, f0) = choose|m1: Process, m2: Process, mn: Process, f0: nat|
                #[trigger] Process::one_iter(a, m1, m2, mn, body, f0) && Process::iters_prefix(
                    mn,
                    cur,
                    body,
                    (n - 1) as nat,
                );
            assert(Process::one_iter(a, m1, m2, mn, body, f0) && Process::iters_prefix(
                mn,
                cur,
                body,
                (n - 1) as nat,
            ));
            Process::lemma_resume_exit_ok(mn, cur, m5, post, blk, body, (n - 1) as nat);
            let ft = choose|f: nat| Process::block_exec(mn, post, blk, Ok(()), true, f);
            assert(Process::block_exec(mn, post, blk, Ok(()), true, ft));
            let fuel = (f0 + ft + 1) as nat;
            assert(Process::step_fuel(mn, Ok::<(), ExecutionError>(()), f0, fuel));
            assert(Process::fuel_lt(ft, fuel));
            assert(Process::block_exec(a, post, blk, Ok(()), true, fuel));
        }
    }

    /// Completed iterations ending on a top that is neither zero nor one
    /// are a resumed loop run failing on that value.
    pub proof fn lemma_resume_exit_non_binary(
        a: Process,
        cur: Process,
        blk: CodeBlock,
        body: CodeBlock,
        n: nat,
        r: Result<(), ExecutionError>,
    )
        requires
            blk matches CodeBlock::Loop { body: b } && *b == body,
            Process::iters_prefix(a, cur, body, n),
            cur.row()[0].val() != 0,
            cur.row()[0].val() != 1,
            Process::non_binary(r, cur.row()[0]),
        ensures
            Process::loop_resumes(a, cur, blk, r),
        decreases n,
    {
        if n == 0 {
            assert(cur == a);
            assert(Process::block_exec(a, cur, blk, r, true, 1));
        } else {
            let (m1, m2, mn, f0) = choose|m1: Process, m2: Process, mn: Process, f0: nat|
                #[trigger] Process::one_iter(a, m1, m2, mn, body, f0) && Process::iters_prefix(
                    mn,
                    cur,
                    body,
                    (n - 1) as nat,
                );
            assert(Process::one_iter(a, m1, m2, mn, body, f0) && Process::iters_prefix(
                mn,
                cur,
                body,
                (n - 1) as nat,
            ));
            Process::lemma_resume_exit_non_binary(mn, cur, blk, body, (n - 1) as nat, r);
            let ft = choose|f: nat| Process::block_exec(mn, cur, blk, r, true, f);
            assert(Process::block_exec(mn, cur, blk, r, true, ft));
            let fuel = (f0 + ft + 1) as nat;
            assert(Process::step_fuel(mn, Ok::<(), ExecutionError>(()), f0, fuel));
            assert(Process::fuel_lt(ft, fuel));
            assert(Process::block_exec(a, cur, blk, r, true, fuel));
        }
    }

    /// Completed iterations followed by a failing body are a resumed loop
    /// run failing with the body's error.
    pub proof fn lemma_resume_iter_err(
        a: Process,
        cur: Process,
        x1: Process,
        x2: Process,
        x3: Process,
        blk: CodeBlock,
        body: CodeBlock,
        n: nat,
        fb: nat,
        e: ExecutionError,
    )
        requires
            blk matches CodeBlock::Loop { body: b } && *b == body,
            Process::iters_prefix(a, cur, body, n),
            cur.row()[0].val() == 1,
            Process::op_exec_rel(cur, x1, Operation::Drop, Ok(())),
            Process::notify_plain(x1, x2),
            Process::block_exec(x2, x3, body, Err(e), false, fb),
        ensures
            Process::loop_resumes(a, x3, blk, Err(e)),
        decreases n,
    {
        if n == 0 {
            assert(cur == a);
            let fuel = (fb + 1) as nat;
            assert(Process::step_fuel(x3, Err::<(), ExecutionError>(e), fb, fuel));
            assert(Process::block_exec(a, x3, blk, Err(e), true, fuel));
        } else {
            let (m1, m2, mn, f0) = choose|m1: Process, m2: Process, mn: Process, f0: nat|
                #[trigger] Process::one_iter(a, m1, m2, mn, body, f0) && Process::iters_prefix(
                    mn,
                    cur,
                    body,
                    (n - 1) as nat,
                );
            assert(Process::one_iter(a, m1, m2, mn, body, f0) && Process::iters_prefix(
                mn,
                cur,
                body,
                (n - 1) as nat,
            ));
            Process::lemma_resume_iter_err(mn, cur, x1, x2, x3, blk, body, (n - 1) as nat, fb, e);
            let ft = choose|f: nat| Process::block_exec(mn, x3, blk, Err(e), true, f);
            assert(Process::block_exec(mn, x3, blk, Err(e), true, ft));
            let fuel = (f0 + ft + 1) as nat;
            assert(Process::step_fuel(mn, Ok::<(), ExecutionError>(()), f0, fuel));
            assert(Process::fuel_lt(ft, fuel));
            assert(Process::block_exec(a, x3, blk, Err(e), true, fuel));
        }
    }

    /// Completed iterations followed by a successful body that leaves the
    /// stack logically empty are a resumed loop run failing with a stack
    /// underflow at the cycle reached.
    pub proof fn lemma_resume_iter_underflow(
        a: Process,
        cur: Process,
        x1: Process,
        x2: Process,
        x3: Process,
        blk: CodeBlock,
        body: CodeBlock,
        n: nat,
        fb: nat,
        r: Result<(), ExecutionError>,
    )
        requires
            blk matches CodeBlock::Loop { body: b } && *b == body,
            Process::iters_prefix(a, cur, body, n),
            cur.row()[0].val() == 1,
            Process::op_exec_rel(cur, x1, Operation::Drop, Ok(())),
            Process::notify_plain(x1, x2),
            Process::block_exec(x2, x3, body, Ok(()), false, fb),
            x3.depth() == 0,
            Process::underflow_at(r, x3.clk()),
        ensures
            Process::loop_resumes(a, x3, blk, r),
        decreases n,
    {
        if n == 0 {
            assert(cur == a);
            let fuel = (fb + 1) as nat;
            assert(Process::step_fuel(x3, Ok::<(), ExecutionError>(()), fb, fuel));
            assert(Process::block_exec(a, x3, blk, r, true, fuel));
        } else {
            let (m1, m2, mn, f0) = choose|m1: Process, m2: Process, mn: Process, f0: nat|
                #[trigger] Process::one_iter(a, m1, m2, mn, body, f0) && Process::iters_prefix(
                    mn,
                    cur,
                    body,
                    (n - 1) as nat,
                );
            assert(Process::one_iter(a, m1, m2, mn, body, f0) && Process::iters_prefix(
                mn,
                cur,
                body,
                (n - 1) as nat,
            ));
            Process::lemma_resume_iter_underflow(
                mn,
                cur,
                x1,
                x2,
                x3,
                blk,
                body,
                (n - 1) as nat,
                fb,
                r,
            );
            let ft = choose|f: nat| Process::block_exec(mn, x3, blk, r, true, f);
            assert(Process::block_exec(mn, x3, blk, r, true, ft));
            let fuel = (f0 + ft + 1) as nat;
            assert(Process::step_fuel(mn, Ok::<(), ExecutionError>(()), f0, fuel));
            assert(Process::fuel_lt(ft, fuel));
            assert(Process::block_exec(a, x3, blk, r, true, fuel));
        }
    }

    /// A fresh process over `inputs`, before any micro-operation.
    pub open spec fn is_fresh(p: Process, inputs: ProgramInputs, tracing: bool) -> bool {
        &&& p.wf()
        &&& p.lockstep()
        &&& p.clk() == 0
        &&& p.depth() == inputs.stack_init_view().len()
        &&& p.row() == crate::stack::init_row(inputs.stack_init_view())
        &&& p.system.fmp().val() == INITIAL_FMP
        &&& p.advice.tape_view() == inputs.tape_view()
        &&& p.advice.pos_view() == 0
        &&& p.advice.sets_view() == inputs.sets_view()
        &&& p.decoder.loop_depth() == 0
        &&& p.decoder.max_loop_depth() == 0
        &&& p.decoder.ctx_depth() == 0
        &&& p.decoder.max_ctx_depth() == 0
        &&& (forall|a: u64|
            #[trigger] p.memory.history_of(a) == Seq::<(usize, Seq<Felt>)>::empty())
        &&& p.stack.overflow_table().tracing() == tracing
    }

    /// A fresh process over the given inputs; `keep_overflow_trace` enables
    /// the overflow snapshot history that the debug iterator replays.
    fn initialize(inputs: ProgramInputs, keep_overflow_trace: bool) -> (r: Process)
        ensures
            r.wf(),
            r.lockstep(),
            r.clk() == 0,
            r.depth() == inputs.stack_init_view().len(),
            r.row() == crate::stack::init_row(inputs.stack_init_view()),
            r.system.fmp().val() == INITIAL_FMP,
            r.advice.tape_view() == inputs.tape_view(),
            r.advice.pos_view() == 0,
            r.advice.sets_view() == inputs.sets_view(),
            r.decoder.loop_depth() == 0,
            r.decoder.max_loop_depth() == 0,
            r.decoder.ctx_depth() == 0,
            r.decoder.max_ctx_depth() == 0,
            r.stack.overflow_table().tracing() == keep_overflow_trace,
            forall|a: u64| #[trigger] r.memory.history_of(a) == Seq::<(usize, Seq<Felt>)>::empty(),
    {
        let stack = Stack::new(inputs.stack_init(), keep_overflow_trace);
        let advice = AdviceProvider::new(inputs);
        Process {
            system: System::new(),
            decoder: Decoder::new(),
            stack,
            memory: Memory::new(),
            advice,
        }
    }

    /// A fresh process over the given inputs.
    pub fn new(inputs: ProgramInputs) -> (r: Process)
        ensures
            r.wf(),
            r.lockstep(),
            r.clk() == 0,
            r.depth() == inputs.stack_init_view().len(),
            r.row() == crate::stack::init_row(inputs.stack_init_view()),
            r.system.fmp().val() == INITIAL_FMP,
            r.advice.tape_view() == inputs.tape_view(),
            r.advice.pos_view() == 0,
            r.advice.sets_view() == inputs.sets_view(),
            r.decoder.loop_depth() == 0,
            r.decoder.max_loop_depth() == 0,
            r.decoder.ctx_depth() == 0,
            r.decoder.max_ctx_depth() == 0,
            forall|a: u64| #[trigger] r.memory.history_of(a) == Seq::<(usize, Seq<Felt>)>::empty(),
            r.stack.overflow_table().tracing() == false,
    {
        Self::initialize(inputs, false)
    }

    /// A fresh process that also records the overflow history needed to step
    /// through each clock cycle afterwards.
    pub fn new_debug(inputs: ProgramInputs) -> (r: Process)
        ensures
            r.wf(),
            r.lockstep(),
            r.clk() == 0,
            r.depth() == inputs.stack_init_view().len(),
            r.row() == crate::stack::init_row(inputs.stack_init_view()),
            r.system.fmp().val() == INITIAL_FMP,
            r.advice.tape_view() == inputs.tape_view(),
            r.advice.pos_view() == 0,
            r.advice.sets_view() == inputs.sets_view(),
            r.decoder.loop_depth() == 0,
            r.decoder.max_loop_depth() == 0,
            r.decoder.ctx_depth() == 0,
            r.decoder.max_ctx_depth() == 0,
            forall|a: u64| #[trigger] r.memory.history_of(a) == Seq::<(usize, Seq<Felt>)>::empty(),
            r.stack.overflow_table().tracing() == true,
    {
        Self::initialize(inputs, true)
    }
}

/// The full logical stack at cycle `k`: the top-segment row followed by the
/// overflow snapshot.
pub open spec fn state_stack_spec(p: Process, k: usize) -> Seq<Felt> {
    p.stack.row_at(k as int) + crate::overflow::snapshot_spec(
        p.stack.overflow_table().trace_view(),
        k,
    )
}

/// What the memory part of a snapshot at cycle `k` holds: every address
/// written at or before `k`, with its value then, in increasing order.
pub open spec fn state_memory_spec(
    p: Process,
    k: usize,
    entries: Seq<(u64, crate::field::Word)>,
) -> bool {
    &&& forall|x: int|
        0 <= x < entries.len() ==> latest_at_most(
            p.memory.history_of((#[trigger] entries[x]).0),
            k,
        ) == Some(entries[x].1@)
    &&& forall|x: int, y: int| 0 <= x < y < entries.len() ==> entries[x].0 < entries[y].0
    &&& forall|a: u64|
        #[trigger] latest_at_most(p.memory.history_of(a), k) is Some ==> exists|x: int|
            0 <= x < entries.len() && entries[x].0 == a
}

impl Process {
    /// How far two states can be told apart by what the contracts observe.
    pub open spec fn states_agree(a: Process, b: Process) -> bool {
    &&& a.clk() == b.clk()
    &&& forall|k: int| 0 <= k <= a.clk() ==> a.stack.row_at(k) == b.stack.row_at(k)
    &&& a.depth() == b.depth()
    &&& a.stack.overflow_table().history_view() == b.stack.overflow_table().history_view()
    &&& a.system.fmp() == b.system.fmp()
    &&& forall|x: u64| #[trigger] a.memory.history_of(x) == b.memory.history_of(x)
    &&& a.advice.pos_view() == b.advice.pos_view()
    &&& a.advice.tape_view() == b.advice.tape_view()
    &&& a.advice.sets_view() == b.advice.sets_view()
    }
}

/// Determinism at the micro-operation level: one operation, run twice from
/// observably equal states, leaves observably equal states.
pub proof fn lemma_op_deterministic(
    pre: Process,
    post1: Process,
    post2: Process,
    op: Operation,
)
    requires
        post1.wf(),
        post2.wf(),
        Process::op_frame(pre, post1),
        Process::op_ok_effect(pre, post1, op),
        Process::op_frame(pre, post2),
        Process::op_ok_effect(pre, post2, op),
    ensures
        Process::states_agree(post1, post2),
{
    crate::field::lemma_felt_eq_val(post1.row()[0], post2.row()[0]);
    match op {
        Operation::MTreeGet(root, index) => {
            let i1 = choose|i: int|
                {
                    &&& 0 <= i < pre.advice.sets_view().len()
                    &&& (#[trigger] pre.advice.sets_view()[i]).root_view() == root@
                    &&& forall|j: int|
                        0 <= j < i ==> (#[trigger] pre.advice.sets_view()[j]).root_view()
                            != root@
                    &&& index < pre.advice.sets_view()[i].leaves_view().len()
                    &&& Process::stack_set_word(
                        pre,
                        post1,
                        pre.advice.sets_view()[i].leaves_view()[index as int]@,
                    )
                };
            let i2 = choose|i: int|
                {
                    &&& 0 <= i < pre.advice.sets_view().len()
                    &&& (#[trigger] pre.advice.sets_view()[i]).root_view() == root@
                    &&& forall|j: int|
                        0 <= j < i ==> (#[trigger] pre.advice.sets_view()[j]).root_view()
                            != root@
                    &&& index < pre.advice.sets_view()[i].leaves_view().len()
                    &&& Process::stack_set_word(
                        pre,
                        post2,
                        pre.advice.sets_view()[i].leaves_view()[index as int]@,
                    )
                };
            if i1 < i2 {
                assert(pre.advice.sets_view()[i1].root_view() != root@);
            }
            if i2 < i1 {
                assert(pre.advice.sets_view()[i2].root_view() != root@);
            }
            assert(i1 == i2);
        },
        Operation::FmpUpdate => {
            crate::field::lemma_felt_eq_val(post1.system.fmp(), post2.system.fmp());
        },
        Operation::Add => {
            assert(post1.row()[0] == post2.row()[0]);
            assert(post1.row() =~= post2.row());
        },
        Operation::Mul => {
            assert(post1.row()[0] == post2.row()[0]);
            assert(post1.row() =~= post2.row());
        },
        Operation::Neg => {
            assert(post1.row()[0] == post2.row()[0]);
            assert(post1.row() =~= post2.row());
        },
        Operation::Inv => {
            assert(post1.row()[0] == post2.row()[0]);
            assert(post1.row() =~= post2.row());
        },
        Operation::FmpAdd => {
            assert(post1.row()[0] == post2.row()[0]);
            assert(post1.row() =~= post2.row());
        },
        _ => {},
    }
    assert(post1.row() == post2.row());
    assert forall|k: int| 0 <= k <= post1.clk() implies post1.stack.row_at(k)
        == post2.stack.row_at(k) by {
        if k <= pre.clk() {
        } else {
            assert(post1.stack.row_at(k) == post1.row());
            assert(post2.stack.row_at(k) == post2.row());
        }
    }
}

/// Executes `script` against `inputs` and returns the execution trace: a
/// power-of-two-length column table of the whole run. Snapshot capture stays
/// on during the run, so the trace's overflow columns hold the elements that
/// were actually spilled at each cycle. The first error aborts execution and
/// is returned instead.
pub fn execute(script: &crate::program::Script, inputs: ProgramInputs) -> (r: Result<
    crate::trace::ExecutionTrace,
    ExecutionError,
>)
    requires
        crate::program::block_wf(script.root_view()),
    ensures
        r matches Ok(t) ==> {
            &&& t.wf()
            &&& t.clk_final_spec() > 0
            &&& t.source_view().stack.overflow_table().tracing()
            &&& t.source_view().lockstep()
            &&& t.source_view().stack.row_at(0) == crate::stack::init_row(
                inputs.stack_init_view(),
            )
            &&& t.source_view().system.fmp_at(0).val() == INITIAL_FMP
            &&& t.clk_final_spec() <= usize::MAX / 4 ==> crate::trace::is_power_of_two(
                t.length_spec() as nat,
            ) && t.length_spec() >= crate::trace::MIN_TRACE_LEN
            &&& exists|p0: Process|
                #[trigger] Process::is_fresh(p0, inputs, true) && Process::block_runs(
                    p0,
                    t.source_view(),
                    script.root_view(),
                    Ok(()),
                )
        },
        r matches Err(e) ==> exists|p0: Process, pf: Process|
            #![trigger Process::is_fresh(p0, inputs, true), Process::block_runs(p0, pf, script.root_view(), Err(e))]
            Process::is_fresh(p0, inputs, true) && Process::block_runs(
                p0,
                pf,
                script.root_view(),
                Err(e),
            ),
{
    let mut process = Process::new_debug(inputs);
    let ghost p0 = process;
    proof {
        assert(Process::is_fresh(p0, inputs, true));
    }
    let result = process.execute_code_block(script.root());
    match result {
        Ok(_) => {
            proof {
                Process::lemma_ok_unit(result);
                assert(Process::block_runs(p0, process, script.root_view(), Ok(())));
            }
            Ok(crate::trace::ExecutionTrace::new(process))
        },
        Err(e) => {
            proof {
                assert(Process::block_runs(p0, process, script.root_view(), Err(e)));
            }
            Err(e)
        },
    }
}

/// Executes `script` against `inputs` with state capture on, and returns an
/// iterator that steps through the state at each clock cycle; an execution
/// error is yielded at the cycle it stopped at.
pub fn execute_iter(script: &crate::program::Script, inputs: ProgramInputs) -> (r:
    crate::debug::VmStateIterator)
    requires
        crate::program::block_wf(script.root_view()),
    ensures
        r.wf(),
        r.clk_view() == 0,
        r.process_view().stack.overflow_table().tracing(),
        r.process_view().stack.row_at(0) == crate::stack::init_row(inputs.stack_init_view()),
        r.process_view().system.fmp_at(0).val() == INITIAL_FMP,
        exists|p0: Process, rr: Result<(), ExecutionError>|
            #![trigger Process::is_fresh(p0, inputs, true), Process::block_runs(p0, r.process_view(), script.root_view(), rr)]
            {
                &&& Process::is_fresh(p0, inputs, true)
                &&& Process::block_runs(p0, r.process_view(), script.root_view(), rr)
                &&& (match rr {
                    Ok(_) => r.error_view() is None,
                    Err(e) => r.error_view() == Some(e),
                })
            },
{
    let mut process = Process::new_debug(inputs);
    let ghost p0 = process;
    proof {
        assert(Process::is_fresh(p0, inputs, true));
    }
    let result = process.execute_code_block(script.root());
    proof {
        assert(Process::block_runs(p0, process, script.root_view(), result));
    }
    crate::debug::VmStateIterator::new(process, result)
}

} // verus!
