//! The decoder: an observer of block boundaries and user operations.
//!
//! The executor pairs every decoder notification with exactly one
//! clock-advancing micro-operation, so the decoder's operation counter stays
//! in lockstep with the system clock. The decoder also tracks the nesting
//! depth of loops and of call contexts, whose maxima size the trace.

use vstd::prelude::*;

verus! {

/// The bookkeeping state fed by block-boundary notifications.
pub struct Decoder {
    op_count: usize,
    loop_depth: usize,
    max_loop_depth: usize,
    ctx_depth: usize,
    max_ctx_depth: usize,
}

impl Decoder {
    /// Notifications received so far; one per clock cycle.
    pub closed spec fn op_count(self) -> int {
        self.op_count as int
    }

    /// Currently open loops.
    pub closed spec fn loop_depth(self) -> int {
        self.loop_depth as int
    }

    /// The greatest loop nesting observed.
    pub closed spec fn max_loop_depth(self) -> int {
        self.max_loop_depth as int
    }

    /// Currently open call contexts.
    pub closed spec fn ctx_depth(self) -> int {
        self.ctx_depth as int
    }

    /// The greatest call-context nesting observed.
    pub closed spec fn max_ctx_depth(self) -> int {
        self.max_ctx_depth as int
    }

    /// The decoder's invariant: depths never exceed the count of events that
    /// opened them.
    pub closed spec fn wf(self) -> bool {
        &&& self.loop_depth <= self.max_loop_depth <= self.op_count
        &&& self.ctx_depth <= self.max_ctx_depth <= self.op_count
    }

    /// All counters are counts: none is negative.
    pub proof fn lemma_nonneg(self)
        ensures
            self.op_count() >= 0,
            self.loop_depth() >= 0,
            self.ctx_depth() >= 0,
            self.max_loop_depth() >= 0,
            self.max_ctx_depth() >= 0,
    {
    }

    /// A fresh decoder.
    pub fn new() -> (r: Decoder)
        ensures
            r.wf(),
            r.op_count() == 0,
            r.loop_depth() == 0,
            r.max_loop_depth() == 0,
            r.ctx_depth() == 0,
            r.max_ctx_depth() == 0,
    {
        Decoder { op_count: 0, loop_depth: 0, max_loop_depth: 0, ctx_depth: 0, max_ctx_depth: 0 }
    }

    /// What every notification guarantees: one more event counted, maxima
    /// only growing.
    pub open spec fn counted(pre: Decoder, post: Decoder) -> bool {
        &&& post.op_count() == pre.op_count() + 1
        &&& post.max_loop_depth() >= pre.max_loop_depth()
        &&& post.max_ctx_depth() >= pre.max_ctx_depth()
        &&& post.ctx_depth() == pre.ctx_depth()
    }

    /// A notification that does not open or close anything.
    fn count_event(&mut self)
        requires
            old(self).wf(),
            old(self).op_count() < usize::MAX,
        ensures
            final(self).wf(),
            Decoder::counted(*old(self), *final(self)),
            final(self).loop_depth() == old(self).loop_depth(),
            final(self).max_loop_depth() == old(self).max_loop_depth(),
            final(self).max_ctx_depth() == old(self).max_ctx_depth(),
    {
        self.op_count = self.op_count + 1;
    }

    /// A join block starts.
    pub fn start_join(&mut self)
        requires
            old(self).wf(),
            old(self).op_count() < usize::MAX,
        ensures
            final(self).wf(),
            Decoder::counted(*old(self), *final(self)),
            final(self).loop_depth() == old(self).loop_depth(),
            final(self).max_loop_depth() == old(self).max_loop_depth(),
            final(self).max_ctx_depth() == old(self).max_ctx_depth(),
    {
        self.count_event();
    }

    /// A join block ends.
    pub fn end_join(&mut self)
        requires
            old(self).wf(),
            old(self).op_count() < usize::MAX,
        ensures
            final(self).wf(),
            Decoder::counted(*old(self), *final(self)),
            final(self).loop_depth() == old(self).loop_depth(),
            final(self).max_loop_depth() == old(self).max_loop_depth(),
            final(self).max_ctx_depth() == old(self).max_ctx_depth(),
    {
        self.count_event();
    }

    /// A split block starts, on the given predicate.
    pub fn start_split(&mut self, condition: crate::field::Felt)
        requires
            old(self).wf(),
            old(self).op_count() < usize::MAX,
        ensures
            final(self).wf(),
            Decoder::counted(*old(self), *final(self)),
            final(self).loop_depth() == old(self).loop_depth(),
            final(self).max_loop_depth() == old(self).max_loop_depth(),
            final(self).max_ctx_depth() == old(self).max_ctx_depth(),
    {
        let _ = condition;
        self.count_event();
    }

    /// A split block ends.
    pub fn end_split(&mut self)
        requires
            old(self).wf(),
            old(self).op_count() < usize::MAX,
        ensures
            final(self).wf(),
            Decoder::counted(*old(self), *final(self)),
            final(self).loop_depth() == old(self).loop_depth(),
            final(self).max_loop_depth() == old(self).max_loop_depth(),
            final(self).max_ctx_depth() == old(self).max_ctx_depth(),
    {
        self.count_event();
    }

    /// A loop block starts; `entered` tells whether the body will run.
    pub fn start_loop(&mut self, entered: bool)
        requires
            old(self).wf(),
            old(self).op_count() < usize::MAX,
        ensures
            final(self).wf(),
            Decoder::counted(*old(self), *final(self)),
            entered ==> final(self).loop_depth() == old(self).loop_depth() + 1,
            !entered ==> final(self).loop_depth() == old(self).loop_depth(),
            entered ==> final(self).max_loop_depth() == (if old(self).loop_depth() + 1 > old(
                self,
            ).max_loop_depth() {
                old(self).loop_depth() + 1
            } else {
                old(self).max_loop_depth()
            }),
            !entered ==> final(self).max_loop_depth() == old(self).max_loop_depth(),
            final(self).max_ctx_depth() == old(self).max_ctx_depth(),
    {
        self.op_count = self.op_count + 1;
        if entered {
            self.loop_depth = self.loop_depth + 1;
            if self.loop_depth > self.max_loop_depth {
                self.max_loop_depth = self.loop_depth;
            }
        }
    }

    /// A taken loop begins another iteration.
    pub fn repeat(&mut self)
        requires
            old(self).wf(),
            old(self).op_count() < usize::MAX,
        ensures
            final(self).wf(),
            Decoder::counted(*old(self), *final(self)),
            final(self).loop_depth() == old(self).loop_depth(),
            final(self).max_loop_depth() == old(self).max_loop_depth(),
            final(self).max_ctx_depth() == old(self).max_ctx_depth(),
    {
        self.count_event();
    }

    /// A loop block ends; an entered loop is closed.
    pub fn end_loop(&mut self, entered: bool)
        requires
            old(self).wf(),
            old(self).op_count() < usize::MAX,
            entered ==> old(self).loop_depth() >= 1,
        ensures
            final(self).wf(),
            Decoder::counted(*old(self), *final(self)),
            entered ==> final(self).loop_depth() == old(self).loop_depth() - 1,
            !entered ==> final(self).loop_depth() == old(self).loop_depth(),
            final(self).max_loop_depth() == old(self).max_loop_depth(),
            final(self).max_ctx_depth() == old(self).max_ctx_depth(),
    {
        self.op_count = self.op_count + 1;
        if entered {
            self.loop_depth = self.loop_depth - 1;
        }
    }

    /// A span block starts.
    pub fn start_span(&mut self)
        requires
            old(self).wf(),
            old(self).op_count() < usize::MAX,
        ensures
            final(self).wf(),
            Decoder::counted(*old(self), *final(self)),
            final(self).loop_depth() == old(self).loop_depth(),
            final(self).max_loop_depth() == old(self).max_loop_depth(),
            final(self).max_ctx_depth() == old(self).max_ctx_depth(),
    {
        self.count_event();
    }

    /// A span block continues with its next operation batch.
    pub fn respan(&mut self)
        requires
            old(self).wf(),
            old(self).op_count() < usize::MAX,
        ensures
            final(self).wf(),
            Decoder::counted(*old(self), *final(self)),
            final(self).loop_depth() == old(self).loop_depth(),
            final(self).max_loop_depth() == old(self).max_loop_depth(),
            final(self).max_ctx_depth() == old(self).max_ctx_depth(),
    {
        self.count_event();
    }

    /// A span block ends.
    pub fn end_span(&mut self)
        requires
            old(self).wf(),
            old(self).op_count() < usize::MAX,
        ensures
            final(self).wf(),
            Decoder::counted(*old(self), *final(self)),
            final(self).loop_depth() == old(self).loop_depth(),
            final(self).max_loop_depth() == old(self).max_loop_depth(),
            final(self).max_ctx_depth() == old(self).max_ctx_depth(),
    {
        self.count_event();
    }

    /// A user micro-operation was executed.
    pub fn execute_user_op(&mut self)
        requires
            old(self).wf(),
            old(self).op_count() < usize::MAX,
        ensures
            final(self).wf(),
            Decoder::counted(*old(self), *final(self)),
            final(self).loop_depth() == old(self).loop_depth(),
            final(self).max_loop_depth() == old(self).max_loop_depth(),
            final(self).max_ctx_depth() == old(self).max_ctx_depth(),
    {
        self.count_event();
    }

    /// The maxima sizing the trace, as machine words.
    pub fn max_depths(&self) -> (r: (usize, usize))
        ensures
            r.0 == self.max_ctx_depth(),
            r.1 == self.max_loop_depth(),
    {
        (self.max_ctx_depth, self.max_loop_depth)
    }
}

} // verus!
