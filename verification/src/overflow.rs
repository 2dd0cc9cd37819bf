//! The stack's overflow table.
//!
//! Elements pushed below the top segment of the operand stack spill into this
//! table. Every mutation is keyed by the clock step at which it happened, and
//! when trace capture is enabled the table records a snapshot of its contents
//! after each mutation, so the contents at any past step can be reconstructed.

use vstd::prelude::*;

use crate::field::clone_felts;
use crate::field::Felt;

verus! {

/// One recorded mutation of the overflow table, keyed by its clock step.
#[derive(Clone, Copy, PartialEq, Eq, Structural)]
pub enum OverflowEvent {
    Push { step: usize, value: Felt },
    Pop { step: usize },
}

/// The clock step at which an event happened.
pub open spec fn event_step(e: OverflowEvent) -> usize {
    match e {
        OverflowEvent::Push { step, .. } => step,
        OverflowEvent::Pop { step } => step,
    }
}

/// The table contents after applying a history of mutations, in order, to an
/// empty table. A pop on an empty table leaves it empty.
pub open spec fn replay(h: Seq<OverflowEvent>) -> Seq<Felt>
    decreases h.len(),
{
    if h.len() == 0 {
        Seq::<Felt>::empty()
    } else {
        let prev = replay(h.drop_last());
        match h.last() {
            OverflowEvent::Push { value, .. } => prev.push(value),
            OverflowEvent::Pop { .. } => if prev.len() == 0 {
                prev
            } else {
                prev.drop_last()
            },
        }
    }
}

/// Records a snapshot under `step`, replacing an earlier snapshot recorded at
/// the same step.
pub open spec fn record(
    tr: Seq<(usize, Seq<Felt>)>,
    step: usize,
    snap: Seq<Felt>,
) -> Seq<(usize, Seq<Felt>)> {
    if tr.len() > 0 && tr.last().0 == step {
        tr.drop_last().push((step, snap))
    } else {
        tr.push((step, snap))
    }
}

/// The snapshot sequence that a history of mutations leaves behind. A pop on
/// an empty table records nothing.
pub open spec fn trace_of(h: Seq<OverflowEvent>) -> Seq<(usize, Seq<Felt>)>
    decreases h.len(),
{
    if h.len() == 0 {
        Seq::<(usize, Seq<Felt>)>::empty()
    } else {
        let prev_trace = trace_of(h.drop_last());
        let prev = replay(h.drop_last());
        match h.last() {
            OverflowEvent::Push { step, value } => record(prev_trace, step, prev.push(value)),
            OverflowEvent::Pop { step } => if prev.len() == 0 {
                prev_trace
            } else {
                record(prev_trace, step, prev.drop_last())
            },
        }
    }
}

/// Whether a history's steps are nondecreasing.
pub open spec fn events_sorted(h: Seq<OverflowEvent>) -> bool {
    forall|i: int, j: int|
        0 <= i < j < h.len() ==> event_step(#[trigger] h[i]) <= event_step(#[trigger] h[j])
}

/// The events of a history that happened at a step not above `k`.
pub open spec fn events_at_most(h: Seq<OverflowEvent>, k: usize) -> Seq<OverflowEvent> {
    h.filter(|e: OverflowEvent| event_step(e) <= k)
}

/// The recorded snapshot with the greatest step not above `k`; empty when no
/// mutation has been recorded at a step `<= k`.
pub open spec fn snapshot_spec(tr: Seq<(usize, Seq<Felt>)>, k: usize) -> Seq<Felt>
    decreases tr.len(),
{
    if tr.len() == 0 {
        Seq::<Felt>::empty()
    } else if tr.last().0 <= k {
        tr.last().1
    } else {
        snapshot_spec(tr.drop_last(), k)
    }
}

/// Storage for stack elements below the top segment, with per-step snapshot
/// history for trace reconstruction.
pub struct OverflowTable {
    active: Vec<Felt>,
    trace: Vec<(usize, Vec<Felt>)>,
    trace_enabled: bool,
    history: Ghost<Seq<OverflowEvent>>,
}

impl OverflowTable {
    /// The live contents of the table, bottom first.
    pub closed spec fn active_view(self) -> Seq<Felt> {
        self.active@
    }

    /// The recorded snapshots, in step order.
    pub closed spec fn trace_view(self) -> Seq<(usize, Seq<Felt>)> {
        self.trace@.map(|i: int, p: (usize, Vec<Felt>)| (p.0, p.1@))
    }

    /// Whether snapshot capture is on.
    pub closed spec fn tracing(self) -> bool {
        self.trace_enabled
    }

    /// The full history of mutations applied to the table.
    pub closed spec fn history_view(self) -> Seq<OverflowEvent> {
        self.history@
    }

    /// Every recorded mutation happened at a step `<= b`.
    pub open spec fn steps_at_most(self, b: usize) -> bool {
        forall|i: int|
            0 <= i < self.history_view().len() ==> event_step(#[trigger] self.history_view()[i])
                <= b
    }

    /// The recorded mutations happened in step order.
    pub open spec fn steps_ordered(self) -> bool {
        events_sorted(self.history_view())
    }

    /// The table's invariant: the live contents replay the history, and, when
    /// capture is on, the snapshots are exactly those the history leaves.
    pub closed spec fn wf(self) -> bool {
        &&& self.active_view() == replay(self.history_view())
        &&& self.tracing() ==> self.trace_view() == trace_of(self.history_view())
        &&& !self.tracing() ==> self.trace_view().len() == 0
        &&& self.steps_ordered()
    }

    /// An empty table; `trace_enabled` turns snapshot capture on.
    pub fn new(trace_enabled: bool) -> (r: OverflowTable)
        ensures
            r.wf(),
            r.active_view() == Seq::<Felt>::empty(),
            r.history_view() == Seq::<OverflowEvent>::empty(),
            r.tracing() == trace_enabled,
            forall|b: usize| r.steps_at_most(b),
    {
        let r = OverflowTable {
            active: Vec::new(),
            trace: Vec::new(),
            trace_enabled,
            history: Ghost(Seq::empty()),
        };
        proof {
            assert(r.trace_view() =~= trace_of(r.history@));
        }
        r
    }

    /// Appends `value` to the live contents, recording the mutation under
    /// `step`.
    pub fn push(&mut self, step: usize, value: Felt)
        requires
            old(self).wf(),
            old(self).steps_at_most(step),
        ensures
            final(self).wf(),
            final(self).active_view() == old(self).active_view().push(value),
            final(self).history_view() == old(self).history_view().push(
                OverflowEvent::Push { step, value },
            ),
            final(self).tracing() == old(self).tracing(),
            final(self).steps_at_most(step),
            forall|k: usize|
                k < step ==> #[trigger] snapshot_spec(final(self).trace_view(), k)
                    == snapshot_spec(old(self).trace_view(), k),
    {
        self.active.push(value);
        if self.trace_enabled {
            let snap = clone_felts(&self.active);
            if self.trace.len() > 0 && self.trace[self.trace.len() - 1].0 == step {
                self.trace.pop();
            }
            self.trace.push((step, snap));
        }
        proof {
            let ev = OverflowEvent::Push { step, value };
            self.history@ = self.history@.push(ev);
            let h = self.history@;
            assert(h.drop_last() =~= old(self).history_view());
            assert(h.last() == ev);
            assert forall|i: int, j: int| 0 <= i < j < h.len() implies event_step(
                #[trigger] h[i],
            ) <= event_step(#[trigger] h[j]) by {
                if j < h.len() - 1 {
                    assert(event_step(old(self).history_view()[i]) <= event_step(
                        old(self).history_view()[j],
                    ));
                } else {
                    assert(event_step(old(self).history_view()[i]) <= step);
                }
            }
            assert forall|i: int| 0 <= i < h.len() implies event_step(#[trigger] h[i])
                <= step by {
                if i < h.len() - 1 {
                    assert(event_step(old(self).history_view()[i]) <= step);
                }
            }
            if self.trace_enabled {
                assert(self.trace_view() =~= trace_of(h));
            }
            assert forall|k: usize| k < step implies #[trigger] snapshot_spec(
                self.trace_view(),
                k,
            ) == snapshot_spec(old(self).trace_view(), k) by {
                if self.trace_enabled {
                    lemma_snapshot_record_above(
                        old(self).trace_view(),
                        step,
                        replay(old(self).history_view()).push(value),
                        k,
                    );
                }
            }
        }
    }

    /// Removes and returns the most recent live element, recording the
    /// mutation under `step`; `None` when the table is empty, in which case
    /// nothing is recorded.
    pub fn pop(&mut self, step: usize) -> (r: Option<Felt>)
        requires
            old(self).wf(),
            old(self).steps_at_most(step),
        ensures
            final(self).wf(),
            final(self).tracing() == old(self).tracing(),
            final(self).steps_at_most(step),
            forall|k: usize|
                k < step ==> #[trigger] snapshot_spec(final(self).trace_view(), k)
                    == snapshot_spec(old(self).trace_view(), k),
            old(self).active_view().len() == 0 ==> {
                &&& r is None
                &&& final(self).active_view() == old(self).active_view()
                &&& final(self).trace_view() == old(self).trace_view()
                &&& final(self).history_view() == old(self).history_view()
            },
            old(self).active_view().len() > 0 ==> {
                &&& r == Some(old(self).active_view().last())
                &&& final(self).active_view() == old(self).active_view().drop_last()
                &&& final(self).history_view() == old(self).history_view().push(
                    OverflowEvent::Pop { step },
                )
            },
    {
        let popped = self.active.pop();
        if popped.is_some() {
            proof {
                let ev = OverflowEvent::Pop { step };
                self.history@ = self.history@.push(ev);
                let h = self.history@;
                assert(h.drop_last() =~= old(self).history_view());
                assert(old(self).active_view().drop_last() =~= old(self).active_view().subrange(
                    0,
                    old(self).active_view().len() - 1,
                ));
                assert forall|i: int, j: int| 0 <= i < j < h.len() implies event_step(
                    #[trigger] h[i],
                ) <= event_step(#[trigger] h[j]) by {
                    if j < h.len() - 1 {
                        assert(event_step(old(self).history_view()[i]) <= event_step(
                            old(self).history_view()[j],
                        ));
                    } else {
                        assert(event_step(old(self).history_view()[i]) <= step);
                    }
                }
                assert forall|i: int| 0 <= i < h.len() implies event_step(#[trigger] h[i])
                    <= step by {
                    if i < h.len() - 1 {
                        assert(event_step(old(self).history_view()[i]) <= step);
                    }
                }
            }
            if self.trace_enabled {
                let snap = clone_felts(&self.active);
                if self.trace.len() > 0 && self.trace[self.trace.len() - 1].0 == step {
                    self.trace.pop();
                }
                self.trace.push((step, snap));
            }
            proof {
                if self.trace_enabled {
                    assert(self.trace_view() =~= trace_of(self.history@));
                }
                assert forall|k: usize| k < step implies #[trigger] snapshot_spec(
                    self.trace_view(),
                    k,
                ) == snapshot_spec(old(self).trace_view(), k) by {
                    if self.trace_enabled {
                        lemma_snapshot_record_above(
                            old(self).trace_view(),
                            step,
                            replay(old(self).history_view()).drop_last(),
                            k,
                        );
                    }
                }
            }
        }
        popped
    }

    /// Appends the snapshot with the greatest recorded step `<= step` into
    /// `values`; appends nothing when no such snapshot exists.
    pub fn append_state_into(&self, step: usize, values: &mut Vec<Felt>)
        requires
            self.wf(),
        ensures
            final(values)@ == old(values)@ + snapshot_spec(self.trace_view(), step),
    {
        let mut i: usize = self.trace.len();
        proof {
            assert(self.trace_view().subrange(0, i as int) =~= self.trace_view());
        }
        while i > 0
            invariant
                i <= self.trace.len(),
                self.wf(),
                values@ == old(values)@,
                snapshot_spec(self.trace_view(), step) == snapshot_spec(
                    self.trace_view().subrange(0, i as int),
                    step,
                ),
            decreases i,
        {
            proof {
                assert(self.trace_view().subrange(0, i as int).last() == (
                    self.trace@[i - 1].0,
                    self.trace@[i - 1].1@,
                ));
            }
            if self.trace[i - 1].0 <= step {
                let mut j: usize = 0;
                let snap = &self.trace[i - 1].1;
                proof {
                    assert(values@ =~= old(values)@ + snap@.subrange(0, 0));
                }
                while j < snap.len()
                    invariant
                        j <= snap.len(),
                        values@ == old(values)@ + snap@.subrange(0, j as int),
                    decreases snap.len() - j,
                {
                    let x = snap[j];
                    values.push(x);
                    j = j + 1;
                }
                proof {
                    assert(snap@.subrange(0, snap@.len() as int) =~= snap@);
                    assert(snapshot_spec(self.trace_view().subrange(0, i as int), step)
                        == snap@);
                }
                return ;
            }
            proof {
                assert(self.trace_view().subrange(0, i as int).drop_last() =~= self.trace_view()
                    .subrange(0, i as int - 1));
            }
            i = i - 1;
        }
        proof {
            assert(self.trace_view().subrange(0, 0) =~= Seq::<(usize, Seq<Felt>)>::empty());
            assert(old(values)@ + snapshot_spec(self.trace_view(), step) =~= values@);
        }
    }

    /// Appends the first `size` live elements into `out`.
    pub fn append_into(&self, size: usize, out: &mut Vec<Felt>)
        requires
            size <= self.active_view().len(),
        ensures
            final(out)@ == old(out)@ + self.active_view().subrange(0, size as int),
    {
        let mut j: usize = 0;
        while j < size
            invariant
                j <= size,
                size <= self.active@.len(),
                out@ == old(out)@ + self.active@.subrange(0, j as int),
            decreases size - j,
        {
            let x = self.active[j];
            out.push(x);
            j = j + 1;
        }
    }

    /// The number of live elements.
    pub fn active_len(&self) -> (r: usize)
        ensures
            r == self.active_view().len(),
    {
        self.active.len()
    }
}

/// Filtering a history whose steps all lie at or below `k` keeps every event.
proof fn lemma_filter_all(h: Seq<OverflowEvent>, k: usize)
    requires
        forall|i: int| 0 <= i < h.len() ==> event_step(#[trigger] h[i]) <= k,
    ensures
        events_at_most(h, k) == h,
    decreases h.len(),
{
    reveal(Seq::filter);
    if h.len() == 0 {
        assert(events_at_most(h, k) =~= h);
    } else {
        let hp = h.drop_last();
        assert(forall|i: int| 0 <= i < hp.len() ==> event_step(#[trigger] hp[i]) <= k);
        lemma_filter_all(hp, k);
        assert(event_step(h.last()) <= k);
        assert(events_at_most(h, k) =~= h);
    }
}

/// Replacing or skipping a snapshot recorded above `k` does not change the
/// snapshot seen at `k`.
proof fn lemma_snapshot_record_above(
    tr: Seq<(usize, Seq<Felt>)>,
    step: usize,
    snap: Seq<Felt>,
    k: usize,
)
    requires
        step > k,
    ensures
        snapshot_spec(record(tr, step, snap), k) == snapshot_spec(tr, k),
{
    if tr.len() > 0 && tr.last().0 == step {
        assert(tr.drop_last().push((step, snap)).drop_last() =~= tr.drop_last());
    } else {
        assert(tr.push((step, snap)).drop_last() =~= tr);
    }
}

/// The snapshot a history leaves at step `k` is the replay of exactly those
/// mutations that happened at steps `<= k`.
proof fn lemma_trace_snapshot(h: Seq<OverflowEvent>, k: usize)
    requires
        events_sorted(h),
    ensures
        snapshot_spec(trace_of(h), k) == replay(events_at_most(h, k)),
    decreases h.len(),
{
    reveal(Seq::filter);
    if h.len() == 0 {
        assert(events_at_most(h, k) =~= h);
    } else {
        let hp = h.drop_last();
        let e = h.last();
        let s = event_step(e);
        assert(forall|i: int| 0 <= i < hp.len() ==> hp[i] == h[i]);
        assert(events_sorted(hp));
        lemma_trace_snapshot(hp, k);
        let prev = replay(hp);
        let tr = trace_of(hp);
        if s <= k {
            assert forall|i: int| 0 <= i < hp.len() implies event_step(#[trigger] hp[i])
                <= k by {
                assert(event_step(h[i]) <= event_step(h[h.len() - 1]));
            }
            lemma_filter_all(hp, k);
            lemma_filter_all(h, k);
            match e {
                OverflowEvent::Push { step, value } => {
                    assert(trace_of(h) == record(tr, step, prev.push(value)));
                    assert(snapshot_spec(record(tr, step, prev.push(value)), k) == prev.push(
                        value,
                    ));
                },
                OverflowEvent::Pop { step } => {
                    if prev.len() == 0 {
                        assert(trace_of(h) == tr);
                        assert(replay(events_at_most(h, k)) == replay(h));
                        assert(replay(h) == prev);
                    } else {
                        assert(trace_of(h) == record(tr, step, prev.drop_last()));
                        assert(snapshot_spec(record(tr, step, prev.drop_last()), k)
                            == prev.drop_last());
                    }
                },
            }
        } else {
            assert(events_at_most(h, k) == events_at_most(hp, k));
            match e {
                OverflowEvent::Push { step, value } => {
                    assert(trace_of(h) == record(tr, step, prev.push(value)));
                    lemma_snapshot_record_above(tr, step, prev.push(value), k);
                },
                OverflowEvent::Pop { step } => {
                    if prev.len() == 0 {
                        assert(trace_of(h) == tr);
                    } else {
                        assert(trace_of(h) == record(tr, step, prev.drop_last()));
                        lemma_snapshot_record_above(tr, step, prev.drop_last(), k);
                    }
                },
            }
        }
    }
}

/// Overflow snapshot law: with capture on, the snapshot the table yields for
/// step `k` equals the replay, in insertion order, of exactly the pushes and
/// pops that happened at steps `<= k`.
pub proof fn lemma_snapshot_replays_history(t: OverflowTable, k: usize)
    requires
        t.wf(),
        t.tracing(),
    ensures
        snapshot_spec(t.trace_view(), k) == replay(events_at_most(t.history_view(), k)),
{
    lemma_trace_snapshot(t.history_view(), k);
}

} // verus!
