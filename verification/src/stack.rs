//! The operand stack.
//!
//! The stack keeps a dense per-cycle history of its top segment (one row of
//! `MIN_STACK_DEPTH` slots per clock cycle) and spills deeper elements into
//! the overflow table, so that the full logical stack at any past cycle can
//! be reconstructed.

use vstd::prelude::*;

use crate::field::clone_felts;
use crate::field::extend_range;
use crate::field::Felt;
use crate::overflow::snapshot_spec;
use crate::overflow::OverflowEvent;
use crate::overflow::OverflowTable;

verus! {

/// The number of slots in the stack's top segment, and the least logical
/// depth the segment can display.
pub const MIN_STACK_DEPTH: usize = 16;

/// The top-segment row left by pushing `v`: `v` enters at position 0 and the
/// previous bottom slot slides off.
pub open spec fn row_after_push(row: Seq<Felt>, v: Felt) -> Seq<Felt> {
    seq![v] + row.subrange(0, 15)
}

/// The row left by removing the top slot: the rest shift up and `riser`
/// enters at the bottom.
pub open spec fn row_after_drop(row: Seq<Felt>, riser: Felt) -> Seq<Felt> {
    row.subrange(1, 16).push(riser)
}

/// The row left by replacing the top two slots with `v`: a binary operation.
pub open spec fn row_after_binop(row: Seq<Felt>, v: Felt, riser: Felt) -> Seq<Felt> {
    (seq![v] + row.subrange(2, 16)).push(riser)
}

/// The row left by exchanging the top two slots.
pub open spec fn row_after_swap(row: Seq<Felt>) -> Seq<Felt> {
    seq![row[1], row[0]] + row.subrange(2, 16)
}

/// The row left by replacing the top slot with `v`.
pub open spec fn row_after_set_top(row: Seq<Felt>, v: Felt) -> Seq<Felt> {
    seq![v] + row.subrange(1, 16)
}

/// The row left by overwriting the top four slots with a word.
pub open spec fn row_after_set_word(row: Seq<Felt>, w: Seq<Felt>) -> Seq<Felt> {
    w + row.subrange(4, 16)
}

/// The top-segment row that a list of initial values produces: the values
/// pushed in order, the first ending up deepest, padded with zeros.
pub open spec fn init_row(init: Seq<Felt>) -> Seq<Felt> {
    Seq::new(
        16,
        |i: int|
            if i < init.len() {
                init[init.len() - 1 - i]
            } else {
                Felt::zero_spec()
            },
    )
}

/// The operand stack, with its full per-cycle history.
pub struct Stack {
    rows: Vec<Vec<Felt>>,
    top_count: usize,
    max_overflow: usize,
    overflow: OverflowTable,
}

impl Stack {
    /// The clock cycle of the most recent row.
    pub closed spec fn clk(self) -> int {
        self.rows@.len() - 1
    }

    /// The top-segment row at cycle `k`.
    pub closed spec fn row_at(self, k: int) -> Seq<Felt> {
        self.rows@[k]@
    }

    /// The current top-segment row.
    pub open spec fn top_row(self) -> Seq<Felt> {
        self.row_at(self.clk())
    }

    /// The overflow table holding the elements below the top segment.
    pub closed spec fn overflow_table(self) -> OverflowTable {
        self.overflow
    }

    /// The number of live values in the top segment.
    pub closed spec fn top_len(self) -> int {
        self.top_count as int
    }

    /// The logical depth: live values in the top segment plus spilled ones.
    pub open spec fn depth(self) -> int {
        self.top_len() + self.overflow_table().active_view().len()
    }

    /// The greatest number of spilled elements observed so far.
    pub closed spec fn max_overflow_len(self) -> int {
        self.max_overflow as int
    }

    /// The stack's invariant.
    pub closed spec fn wf(self) -> bool {
        &&& self.rows@.len() >= 1
        &&& forall|k: int| 0 <= k < self.rows@.len() ==> (#[trigger] self.rows@[k])@.len() == 16
        &&& self.top_count <= 16
        &&& self.overflow.active_view().len() > 0 ==> self.top_count == 16
        &&& self.overflow.wf()
        &&& self.overflow.steps_at_most((self.rows@.len() - 1) as usize)
        &&& self.max_overflow >= self.overflow.active_view().len()
    }

    /// A new stack holding `init`, pushed in order so the first value ends up
    /// deepest; `keep_overflow_trace` turns overflow snapshot capture on.
    pub fn new(init: &Vec<Felt>, keep_overflow_trace: bool) -> (r: Stack)
        ensures
            r.wf(),
            r.clk() == 0,
            r.depth() == init@.len(),
            r.row_at(0) == init_row(init@),
            r.overflow_table().tracing() == keep_overflow_trace,
            r.max_overflow_len() == r.overflow_table().active_view().len(),
            init@.len() <= 16 ==> r.overflow_table().history_view() == Seq::<
                OverflowEvent,
            >::empty(),
            init@.len() > 16 ==> r.overflow_table().active_view() == init@.subrange(
                0,
                init@.len() - 16,
            ),
    {
        let n = init.len();
        let top: usize = if n > MIN_STACK_DEPTH {
            MIN_STACK_DEPTH
        } else {
            n
        };
        let mut row: Vec<Felt> = Vec::new();
        let mut i: usize = 0;
        while i < top
            invariant
                i <= top <= n == init@.len(),
                top <= 16,
                row@.len() == i,
                forall|j: int| 0 <= j < i ==> row@[j] == init@[n - 1 - j],
            decreases top - i,
        {
            let x = init[n - 1 - i];
            row.push(x);
            i = i + 1;
        }
        while row.len() < 16
            invariant
                top <= row@.len() <= 16,
                top <= n == init@.len(),
                top == if n > 16 {
                    16int
                } else {
                    n as int
                },
                forall|j: int| 0 <= j < top ==> row@[j] == init@[n - 1 - j],
                forall|j: int| top <= j < row@.len() ==> row@[j] == Felt::zero_spec(),
            decreases 16 - row.len(),
        {
            let z = Felt::zero();
            row.push(z);
        }
        let mut overflow = OverflowTable::new(keep_overflow_trace);
        let mut j: usize = 0;
        let spill: usize = n - top;
        while j < spill
            invariant
                j <= spill,
                spill == n - top,
                top <= n == init@.len(),
                overflow.wf(),
                overflow.steps_at_most(0),
                overflow.tracing() == keep_overflow_trace,
                overflow.active_view() == init@.subrange(0, j as int),
                overflow.history_view().len() == j,
            decreases spill - j,
        {
            let x = init[j];
            overflow.push(0, x);
            proof {
                assert(overflow.active_view() =~= init@.subrange(0, j + 1));
            }
            j = j + 1;
        }
        let mut rows: Vec<Vec<Felt>> = Vec::new();
        rows.push(row);
        let max_overflow = overflow.active_len();
        let r = Stack { rows, top_count: top, max_overflow, overflow };
        proof {
            assert(r.row_at(0) =~= init_row(init@));
            if init@.len() <= 16 {
                assert(r.overflow_table().history_view() =~= Seq::<OverflowEvent>::empty());
            }
        }
        r
    }

    /// The current logical depth, when it fits the top segment; the segment
    /// size otherwise.
    pub fn has_depth(&self, k: usize) -> (r: bool)
        requires
            self.wf(),
            k <= 16,
        ensures
            r == (self.depth() >= k),
    {
        self.top_count >= k
    }

    /// The top element, when the stack is logically non-empty.
    pub fn peek(&self) -> (r: Option<Felt>)
        requires
            self.wf(),
        ensures
            match r {
                Some(v) => self.depth() >= 1 && v == self.top_row()[0],
                None => self.depth() == 0,
            },
    {
        if self.top_count >= 1 {
            Some(self.rows[self.rows.len() - 1][0])
        } else {
            None
        }
    }

    /// Reads slot `pos` of the current top-segment row.
    pub fn get(&self, pos: usize) -> (r: Felt)
        requires
            self.wf(),
            pos < 16,
        ensures
            r == self.top_row()[pos as int],
    {
        self.rows[self.rows.len() - 1][pos]
    }

    /// Common frame of every mutating operation: the clock advances by one,
    /// the history up to the old cycle is kept, and capture stays as it was.
    pub open spec fn advances(pre: Stack, post: Stack) -> bool {
        &&& post.clk() == pre.clk() + 1
        &&& forall|k: int| 0 <= k <= pre.clk() ==> post.row_at(k) == pre.row_at(k)
        &&& post.overflow_table().tracing() == pre.overflow_table().tracing()
        &&& post.max_overflow_len() >= pre.max_overflow_len()
        &&& forall|k: usize|
            k <= pre.clk() ==> #[trigger] snapshot_spec(post.overflow_table().trace_view(), k)
                == snapshot_spec(pre.overflow_table().trace_view(), k)
    }

    /// Every recorded row spans the whole top segment.
    pub proof fn lemma_rows_wf(self)
        requires
            self.wf(),
        ensures
            forall|k: int| 0 <= k <= self.clk() ==> (#[trigger] self.row_at(k)).len() == 16,
    {
        assert forall|k: int| 0 <= k <= self.clk() implies (#[trigger] self.row_at(k)).len()
            == 16 by {
            assert(self.rows@[k]@.len() == 16);
        }
    }

    /// Appends the freshly built row.
    fn push_row(&mut self, row: Vec<Felt>)
        requires
            row@.len() == 16,
        ensures
            final(self).rows@ == old(self).rows@.push(row),
            final(self).top_count == old(self).top_count,
            final(self).max_overflow == old(self).max_overflow,
            final(self).overflow == old(self).overflow,
    {
        self.rows.push(row);
    }

    /// A no-op cycle: the row is carried over unchanged.
    pub fn op_noop(&mut self)
        requires
            old(self).wf(),
        ensures
            final(self).wf(),
            Stack::advances(*old(self), *final(self)),
            final(self).top_row() == old(self).top_row(),
            final(self).depth() == old(self).depth(),
            final(self).overflow_table() == old(self).overflow_table(),
    {
        let row = clone_felts(&self.rows[self.rows.len() - 1]);
        self.push_row(row);
    }

    /// Pushes `v`: it enters at position 0; with a full top segment the
    /// bottom slot spills into the overflow table, tagged with the new cycle.
    pub fn op_push(&mut self, v: Felt)
        requires
            old(self).wf(),
        ensures
            final(self).wf(),
            Stack::advances(*old(self), *final(self)),
            final(self).top_row() == row_after_push(old(self).top_row(), v),
            final(self).depth() == old(self).depth() + 1,
            old(self).depth() >= 16 ==> final(self).overflow_table().history_view() == old(
                self,
            ).overflow_table().history_view().push(
                OverflowEvent::Push {
                    step: (old(self).clk() + 1) as usize,
                    value: old(self).top_row()[15],
                },
            ),
            old(self).depth() < 16 ==> final(self).overflow_table() == old(
                self,
            ).overflow_table(),
    {
        let last = self.rows.len() - 1;
        let mut row: Vec<Felt> = Vec::new();
        row.push(v);
        extend_range(&mut row, &self.rows[last], 0, 15);
        proof {
            assert(row@ =~= row_after_push(self.top_row(), v));
        }
        if self.top_count == MIN_STACK_DEPTH {
            let bottom = self.rows[last][15];
            let step = self.rows.len();
            self.overflow.push(step, bottom);
            let n = self.overflow.active_len();
            if n > self.max_overflow {
                self.max_overflow = n;
            }
        } else {
            self.top_count = self.top_count + 1;
        }
        self.push_row(row);
    }

    /// Drops the top element; the rest shift up and, when elements are
    /// spilled, the most recent one rises back, tagged with the new cycle.
    /// Returns the dropped element.
    pub fn op_drop(&mut self) -> (r: Felt)
        requires
            old(self).wf(),
            old(self).depth() >= 1,
        ensures
            final(self).wf(),
            Stack::advances(*old(self), *final(self)),
            r == old(self).top_row()[0],
            final(self).depth() == old(self).depth() - 1,
            old(self).depth() > 16 ==> {
                &&& final(self).top_row() == row_after_drop(
                    old(self).top_row(),
                    old(self).overflow_table().active_view().last(),
                )
                &&& final(self).overflow_table().history_view() == old(
                    self,
                ).overflow_table().history_view().push(
                    OverflowEvent::Pop { step: (old(self).clk() + 1) as usize },
                )
            },
            old(self).depth() <= 16 ==> {
                &&& final(self).top_row() == row_after_drop(
                    old(self).top_row(),
                    Felt::zero_spec(),
                )
                &&& final(self).overflow_table() == old(self).overflow_table()
            },
    {
        let last = self.rows.len() - 1;
        let top = self.rows[last][0];
        let riser: Felt;
        if self.overflow.active_len() > 0 {
            let step = self.rows.len();
            let popped = self.overflow.pop(step);
            riser = match popped {
                Some(x) => x,
                None => Felt::zero(),
            };
        } else {
            riser = Felt::zero();
            self.top_count = self.top_count - 1;
        }
        let mut row: Vec<Felt> = Vec::new();
        extend_range(&mut row, &self.rows[last], 1, 16);
        row.push(riser);
        proof {
            assert(row@ =~= row_after_drop(self.top_row(), riser));
        }
        self.push_row(row);
        top
    }

    /// Replaces the top two elements with `v`: the frame of a binary
    /// operation. The row shifts up by one; a spilled element rises back.
    pub fn op_binop(&mut self, v: Felt)
        requires
            old(self).wf(),
            old(self).depth() >= 2,
        ensures
            final(self).wf(),
            Stack::advances(*old(self), *final(self)),
            final(self).depth() == old(self).depth() - 1,
            old(self).depth() > 16 ==> {
                &&& final(self).top_row() == row_after_binop(
                    old(self).top_row(),
                    v,
                    old(self).overflow_table().active_view().last(),
                )
                &&& final(self).overflow_table().history_view() == old(
                    self,
                ).overflow_table().history_view().push(
                    OverflowEvent::Pop { step: (old(self).clk() + 1) as usize },
                )
            },
            old(self).depth() <= 16 ==> {
                &&& final(self).top_row() == row_after_binop(
                    old(self).top_row(),
                    v,
                    Felt::zero_spec(),
                )
                &&& final(self).overflow_table() == old(self).overflow_table()
            },
    {
        let last = self.rows.len() - 1;
        let riser: Felt;
        if self.overflow.active_len() > 0 {
            let step = self.rows.len();
            let popped = self.overflow.pop(step);
            riser = match popped {
                Some(x) => x,
                None => Felt::zero(),
            };
        } else {
            riser = Felt::zero();
            self.top_count = self.top_count - 1;
        }
        let mut row: Vec<Felt> = Vec::new();
        row.push(v);
        extend_range(&mut row, &self.rows[last], 2, 16);
        row.push(riser);
        proof {
            assert(row@ =~= row_after_binop(self.top_row(), v, riser));
        }
        self.push_row(row);
    }

    /// Exchanges the top two elements.
    pub fn op_swap(&mut self)
        requires
            old(self).wf(),
            old(self).depth() >= 2,
        ensures
            final(self).wf(),
            Stack::advances(*old(self), *final(self)),
            final(self).top_row() == row_after_swap(old(self).top_row()),
            final(self).depth() == old(self).depth(),
            final(self).overflow_table() == old(self).overflow_table(),
    {
        let last = self.rows.len() - 1;
        let mut row: Vec<Felt> = Vec::new();
        let a = self.rows[last][0];
        let b = self.rows[last][1];
        row.push(b);
        row.push(a);
        extend_range(&mut row, &self.rows[last], 2, 16);
        proof {
            assert(row@ =~= row_after_swap(self.top_row()));
        }
        self.push_row(row);
    }

    /// Replaces the top element with `v`: the frame of a unary operation.
    pub fn op_set_top(&mut self, v: Felt)
        requires
            old(self).wf(),
            old(self).depth() >= 1,
        ensures
            final(self).wf(),
            Stack::advances(*old(self), *final(self)),
            final(self).top_row() == row_after_set_top(old(self).top_row(), v),
            final(self).depth() == old(self).depth(),
            final(self).overflow_table() == old(self).overflow_table(),
    {
        let last = self.rows.len() - 1;
        let mut row: Vec<Felt> = Vec::new();
        row.push(v);
        extend_range(&mut row, &self.rows[last], 1, 16);
        proof {
            assert(row@ =~= row_after_set_top(self.top_row(), v));
        }
        self.push_row(row);
    }

    /// Overwrites the top four elements with the word `w`.
    pub fn op_set_word(&mut self, w: [Felt; 4])
        requires
            old(self).wf(),
            old(self).depth() >= 4,
        ensures
            final(self).wf(),
            Stack::advances(*old(self), *final(self)),
            final(self).top_row() == row_after_set_word(old(self).top_row(), w@),
            final(self).depth() == old(self).depth(),
            final(self).overflow_table() == old(self).overflow_table(),
    {
        let last = self.rows.len() - 1;
        let mut row: Vec<Felt> = Vec::new();
        row.push(w[0]);
        row.push(w[1]);
        row.push(w[2]);
        row.push(w[3]);
        extend_range(&mut row, &self.rows[last], 4, 16);
        proof {
            assert(row@ =~= row_after_set_word(self.top_row(), w@));
        }
        self.push_row(row);
    }

    /// The clock always fits a machine word.
    pub proof fn lemma_clk_bound(self)
        requires
            self.wf(),
        ensures
            0 <= self.clk() < usize::MAX,
    {
        broadcast use vstd::std_specs::vec::axiom_spec_len;

        assert(vstd::std_specs::vec::spec_vec_len(&self.rows) == self.rows@.len());
        assert(self.rows@.len() <= usize::MAX);
    }

    /// The greatest number of spilled elements observed so far.
    pub fn max_overflow_value(&self) -> (r: usize)
        ensures
            r == self.max_overflow_len(),
    {
        self.max_overflow
    }

    /// Reads slot `i` of the top-segment row recorded at cycle `k`.
    pub fn row_value(&self, k: usize, i: usize) -> (r: Felt)
        requires
            self.wf(),
            k <= self.clk(),
            i < 16,
        ensures
            r == self.row_at(k as int)[i as int],
    {
        self.rows[k][i]
    }

    /// The overflow snapshot recorded at cycle `k`.
    pub fn snapshot_at(&self, k: usize) -> (r: Vec<Felt>)
        requires
            self.wf(),
        ensures
            r@ == snapshot_spec(self.overflow_table().trace_view(), k),
    {
        let mut out: Vec<Felt> = Vec::new();
        self.overflow.append_state_into(k, &mut out);
        out
    }

    /// Reconstructs the full logical stack as of cycle `k`: the top-segment
    /// row at `k` followed by the overflow snapshot recorded at `k`. The
    /// snapshot lists the spilled elements in insertion order, so the
    /// deepest (first-spilled) element comes first in the tail.
    pub fn get_state_at(&self, k: usize) -> (r: Vec<Felt>)
        requires
            self.wf(),
            k <= self.clk(),
        ensures
            r@ == self.row_at(k as int) + snapshot_spec(
                self.overflow_table().trace_view(),
                k,
            ),
    {
        let mut out = clone_felts(&self.rows[k]);
        self.overflow.append_state_into(k, &mut out);
        out
    }
}

} // verus!
