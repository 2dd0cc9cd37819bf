//! The random-access memory.
//!
//! A sparse word-addressed store: each address maps to a chronological list
//! of `(step, word)` writes, so the value visible at any past clock cycle can
//! be reconstructed.

use vstd::prelude::*;

use crate::field::Felt;
use crate::field::Word;

verus! {

/// The word of four zeros.
pub open spec fn zero_word_seq() -> Seq<Felt> {
    Seq::new(4, |i: int| Felt::zero_spec())
}

/// The chronologically last write with a step not above `k`, if any.
pub open spec fn latest_at_most(h: Seq<(usize, Seq<Felt>)>, k: usize) -> Option<Seq<Felt>>
    decreases h.len(),
{
    if h.len() == 0 {
        None
    } else if h.last().0 <= k {
        Some(h.last().1)
    } else {
        latest_at_most(h.drop_last(), k)
    }
}

/// One address's chronology of writes.
struct MemCell {
    addr: u64,
    history: Vec<(usize, Word)>,
}

impl MemCell {
    /// The chronology as `(step, word)` views.
    spec fn view_of(self) -> Seq<(usize, Seq<Felt>)> {
        self.history@.map(|i: int, p: (usize, Word)| (p.0, p.1@))
    }
}

/// The chronologically last write with a step not above `k`, scanned from the
/// end of the list.
fn latest_value(h: &Vec<(usize, Word)>, k: usize) -> (r: Option<Word>)
    ensures
        match r {
            Some(w) => latest_at_most(
                h@.map(|i: int, p: (usize, Word)| (p.0, p.1@)),
                k,
            ) == Some(w@),
            None => latest_at_most(h@.map(|i: int, p: (usize, Word)| (p.0, p.1@)), k) is None,
        },
{
    let ghost hv = h@.map(|i: int, p: (usize, Word)| (p.0, p.1@));
    let mut j: usize = h.len();
    proof {
        assert(hv.subrange(0, j as int) =~= hv);
    }
    while j > 0
        invariant
            j <= h@.len(),
            hv == h@.map(|i: int, p: (usize, Word)| (p.0, p.1@)),
            latest_at_most(hv, k) == latest_at_most(hv.subrange(0, j as int), k),
        decreases j,
    {
        proof {
            assert(hv.subrange(0, j as int).last() == (h@[j - 1].0, h@[j - 1].1@));
            assert(hv.subrange(0, j as int).drop_last() =~= hv.subrange(0, j - 1));
        }
        if h[j - 1].0 <= k {
            return Some(h[j - 1].1);
        }
        j = j - 1;
    }
    proof {
        assert(hv.subrange(0, 0) =~= Seq::<(usize, Seq<Felt>)>::empty());
    }
    None
}

/// The sparse word-addressed memory with full write history.
pub struct Memory {
    cells: Vec<MemCell>,
}

impl Memory {
    /// The chronology of writes to `addr`, empty when never written.
    pub closed spec fn history_of(self, addr: u64) -> Seq<(usize, Seq<Felt>)> {
        Self::find_history(self.cells@, addr)
    }

    /// Looks `addr` up in a cell list.
    spec fn find_history(cells: Seq<MemCell>, addr: u64) -> Seq<(usize, Seq<Felt>)>
        decreases cells.len(),
    {
        if cells.len() == 0 {
            Seq::empty()
        } else if cells[0].addr == addr {
            cells[0].view_of()
        } else {
            Self::find_history(cells.skip(1), addr)
        }
    }

    /// The word visible at `addr` as of step `k`: the chronologically last
    /// write with step `<= k`, or the zero word.
    pub open spec fn read_spec(self, addr: u64, k: usize) -> Seq<Felt> {
        match latest_at_most(self.history_of(addr), k) {
            Some(w) => w,
            None => zero_word_seq(),
        }
    }

    /// Every write to `addr` happened at a step not above `b`.
    pub open spec fn steps_at_most(self, addr: u64, b: usize) -> bool {
        forall|i: int|
            0 <= i < self.history_of(addr).len() ==> (#[trigger] self.history_of(addr)[i]).0
                <= b
    }

    /// The writes to `addr` happened in step order.
    pub open spec fn steps_ordered(self, addr: u64) -> bool {
        forall|i: int, j: int|
            0 <= i < j < self.history_of(addr).len() ==> (#[trigger] self.history_of(
                addr,
            )[i]).0 <= (#[trigger] self.history_of(addr)[j]).0
    }

    /// The memory's invariant: addresses strictly increase and no chronology
    /// is empty.
    pub closed spec fn wf(self) -> bool {
        &&& forall|i: int, j: int|
            0 <= i < j < self.cells@.len() ==> (#[trigger] self.cells@[i]).addr < (
            #[trigger] self.cells@[j]).addr
        &&& forall|i: int|
            0 <= i < self.cells@.len() ==> (#[trigger] self.cells@[i]).history@.len() >= 1
    }

    /// An empty memory: every address reads as the zero word.
    pub fn new() -> (r: Memory)
        ensures
            r.wf(),
            forall|addr: u64| #[trigger] r.history_of(addr) == Seq::<(usize, Seq<Felt>)>::empty(),
    {
        Memory { cells: Vec::new() }
    }

    /// Looks up the position of `addr`, or of the first greater address.
    fn lower_bound(&self, addr: u64) -> (r: usize)
        requires
            self.wf(),
        ensures
            r <= self.cells@.len(),
            forall|i: int| 0 <= i < r ==> (#[trigger] self.cells@[i]).addr < addr,
            forall|i: int| r <= i < self.cells@.len() ==> (#[trigger] self.cells@[i]).addr >= addr,
    {
        let mut i: usize = 0;
        while i < self.cells.len() && self.cells[i].addr < addr
            invariant
                i <= self.cells@.len(),
                forall|j: int| 0 <= j < i ==> (#[trigger] self.cells@[j]).addr < addr,
                self.wf(),
            decreases self.cells@.len() - i,
        {
            i = i + 1;
        }
        proof {
            assert forall|j: int| i <= j < self.cells@.len() implies (
            #[trigger] self.cells@[j]).addr >= addr by {
                if j > i {
                    assert(self.cells@[i as int].addr < self.cells@[j].addr);
                }
            }
        }
        i
    }

    /// Appends `(step, word)` to the chronology of `addr`.
    pub fn write(&mut self, addr: u64, step: usize, word: Word)
        requires
            old(self).wf(),
        ensures
            final(self).wf(),
            final(self).history_of(addr) == old(self).history_of(addr).push((step, word@)),
            forall|a: u64|
                a != addr ==> #[trigger] final(self).history_of(a) == old(self).history_of(a),
    {
        let i = self.lower_bound(addr);
        if i < self.cells.len() && self.cells[i].addr == addr {
            let mut cell = self.cells.remove(i);
            cell.history.push((step, word));
            self.cells.insert(i, cell);
            proof {
                assert(self.cells@ =~= old(self).cells@.update(
                    i as int,
                    self.cells@[i as int],
                ));
                lemma_find_history_update(old(self).cells@, self.cells@, i as int, addr);
                assert(self.cells@[i as int].view_of() =~= old(self).cells@[
                    i as int].view_of().push((step, word@)));
            }
        } else {
            let mut history: Vec<(usize, Word)> = Vec::new();
            history.push((step, word));
            let cell = MemCell { addr, history };
            self.cells.insert(i, cell);
            proof {
                lemma_find_history_insert(old(self).cells@, self.cells@, i as int, addr);
                assert(self.cells@[i as int].view_of() =~= Seq::<(usize, Seq<Felt>)>::empty()
                    .push((step, word@)));
                lemma_find_history_absent(old(self).cells@, addr);
                assert(old(self).history_of(addr) =~= Seq::<(usize, Seq<Felt>)>::empty());
            }
        }
    }

    /// Reads the word visible at `addr` as of step `k`: the most recent write
    /// at a step `<= k`, or the zero word when there is none.
    pub fn read(&self, addr: u64, k: usize) -> (r: Word)
        requires
            self.wf(),
        ensures
            r@ == self.read_spec(addr, k),
    {
        let i = self.lower_bound(addr);
        if i < self.cells.len() && self.cells[i].addr == addr {
            proof {
                lemma_find_history_at(self.cells@, i as int, addr);
            }
            match latest_value(&self.cells[i].history, k) {
                Some(w) => w,
                None => {
                    let z = Felt::zero();
                    proof {
                        assert([z, z, z, z]@ =~= zero_word_seq());
                    }
                    [z, z, z, z]
                },
            }
        } else {
            proof {
                lemma_find_history_absent_at(self.cells@, i as int, addr);
            }
            let z = Felt::zero();
            proof {
                assert([z, z, z, z]@ =~= zero_word_seq());
            }
            [z, z, z, z]
        }
    }
}

impl Memory {
    /// For each address in `lo ..= hi` holding a value as of step `k`, the
    /// address and that value, in increasing address order.
    pub fn get_values_at(&self, lo: u64, hi: u64, k: usize) -> (r: Vec<(u64, Word)>)
        requires
            self.wf(),
        ensures
            forall|x: int|
                0 <= x < r@.len() ==> lo <= (#[trigger] r@[x]).0 <= hi && latest_at_most(
                    self.history_of(r@[x].0),
                    k,
                ) == Some(r@[x].1@),
            forall|x: int, y: int| 0 <= x < y < r@.len() ==> r@[x].0 < r@[y].0,
            forall|a: u64|
                lo <= a <= hi && #[trigger] latest_at_most(self.history_of(a), k) is Some
                    ==> exists|x: int| 0 <= x < r@.len() && r@[x].0 == a,
    {
        let mut r: Vec<(u64, Word)> = Vec::new();
        let mut i: usize = 0;
        while i < self.cells.len()
            invariant
                i <= self.cells@.len(),
                self.wf(),
                forall|x: int|
                    0 <= x < r@.len() ==> lo <= (#[trigger] r@[x]).0 <= hi && latest_at_most(
                        self.history_of(r@[x].0),
                        k,
                    ) == Some(r@[x].1@),
                forall|x: int|
                    0 <= x < r@.len() ==> exists|j: int|
                        0 <= j < i && (#[trigger] r@[x]).0 == self.cells@[j].addr,
                forall|j: int|
                    0 <= j < i && lo <= (#[trigger] self.cells@[j]).addr <= hi
                        && latest_at_most(self.cells@[j].view_of(), k) is Some ==> exists|x: int|
                        0 <= x < r@.len() && (#[trigger] r@[x]).0 == self.cells@[j].addr,
                forall|x: int, y: int| 0 <= x < y < r@.len() ==> r@[x].0 < r@[y].0,
                r@.len() > 0 ==> exists|j: int|
                    0 <= j < i && r@.last().0 == (#[trigger] self.cells@[j]).addr,
            decreases self.cells@.len() - i,
        {
            let addr = self.cells[i].addr;
            proof {
                lemma_find_history_at(self.cells@, i as int, addr);
            }
            let ghost r_prev = r@;
            let ghost included: bool;
            if lo <= addr && addr <= hi {
                match latest_value(&self.cells[i].history, k) {
                    Some(w) => {
                        proof {
                            if r@.len() > 0 {
                                let j = choose|j: int|
                                    0 <= j < i && r@.last().0 == (
                                    #[trigger] self.cells@[j]).addr;
                                assert(self.cells@[j].addr < self.cells@[i as int].addr);
                            }
                        }
                        r.push((addr, w));
                        proof {
                            included = true;
                        }
                    },
                    None => {
                        proof {
                            included = false;
                        }
                    },
                }
            } else {
                proof {
                    included = false;
                }
            }
            proof {
                assert forall|j: int|
                    0 <= j < i + 1 && lo <= (#[trigger] self.cells@[j]).addr <= hi
                        && latest_at_most(self.cells@[j].view_of(), k) is Some implies exists|
                    x: int,
                |
                    0 <= x < r@.len() && (#[trigger] r@[x]).0 == self.cells@[j].addr by {
                    if j < i {
                        let x = choose|x: int|
                            0 <= x < r_prev.len() && (#[trigger] r_prev[x]).0 == self.cells@[
                            j].addr;
                        assert(r@[x].0 == self.cells@[j].addr);
                    } else {
                        assert(included);
                        assert(r@.last().0 == addr);
                    }
                }
            }
            i = i + 1;
        }
        proof {
            assert forall|a: u64|
                lo <= a <= hi && #[trigger] latest_at_most(self.history_of(a), k) is Some
                implies exists|x: int| 0 <= x < r@.len() && r@[x].0 == a by {
                lemma_find_history_found(self.cells@, a);
                let j = choose|j: int| 0 <= j < self.cells@.len() && self.cells@[j].addr == a;
                lemma_find_history_at(self.cells@, j, a);
            }
        }
        r
    }
}

/// A write above step `k` does not change what step `k` sees.
pub proof fn lemma_latest_push_above(h: Seq<(usize, Seq<Felt>)>, s: usize, w: Seq<Felt>, k: usize)
    requires
        s > k,
    ensures
        latest_at_most(h.push((s, w)), k) == latest_at_most(h, k),
{
    assert(h.push((s, w)).drop_last() =~= h);
}

/// A single write above step `bound` leaves every view at or below `bound`
/// unchanged, at every address.
pub proof fn lemma_latest_push_above_all(
    pre: Memory,
    post: Memory,
    addr: u64,
    s: usize,
    w: Seq<Felt>,
    bound: int,
)
    requires
        post.history_of(addr) == pre.history_of(addr).push((s, w)),
        forall|a: u64| a != addr ==> #[trigger] post.history_of(a) == pre.history_of(a),
        s > bound,
    ensures
        forall|a: u64, k: usize|
            k <= bound ==> #[trigger] latest_at_most(post.history_of(a), k) == latest_at_most(
                pre.history_of(a),
                k,
            ),
{
    assert forall|a: u64, k: usize| k <= bound implies #[trigger] latest_at_most(
        post.history_of(a),
        k,
    ) == latest_at_most(pre.history_of(a), k) by {
        if a == addr {
            lemma_latest_push_above(pre.history_of(addr), s, w, k);
        }
    }
}

/// A non-empty chronology comes from some cell.
proof fn lemma_find_history_found(cells: Seq<MemCell>, addr: u64)
    requires
        Memory::find_history(cells, addr).len() > 0,
    ensures
        exists|j: int| 0 <= j < cells.len() && (#[trigger] cells[j]).addr == addr,
    decreases cells.len(),
{
    if cells.len() > 0 {
        if cells[0].addr == addr {
            assert(cells[0].addr == addr);
        } else {
            lemma_find_history_found(cells.skip(1), addr);
            let j = choose|j: int|
                0 <= j < cells.skip(1).len() && (#[trigger] cells.skip(1)[j]).addr == addr;
            assert(cells[j + 1].addr == addr);
        }
    }
}

/// Memory read law: under writes in step order, the value read at step `k`
/// is the written word with the greatest step `<= k`, and the zero word when
/// no write at or before `k` exists.
pub proof fn lemma_memory_read_law(m: Memory, addr: u64, k: usize)
    requires
        m.steps_ordered(addr),
    ensures
        (forall|i: int|
            0 <= i < m.history_of(addr).len() ==> (#[trigger] m.history_of(addr)[i]).0 > k)
            ==> m.read_spec(addr, k) == zero_word_seq(),
        (exists|i: int|
            0 <= i < m.history_of(addr).len() && (#[trigger] m.history_of(addr)[i]).0 <= k)
            ==> exists|i: int|
            {
                &&& 0 <= i < m.history_of(addr).len()
                &&& (#[trigger] m.history_of(addr)[i]).0 <= k
                &&& m.read_spec(addr, k) == m.history_of(addr)[i].1
                &&& forall|j: int|
                    0 <= j < m.history_of(addr).len() && (#[trigger] m.history_of(addr)[j]).0
                        <= k ==> m.history_of(addr)[j].0 <= m.history_of(addr)[i].0
            },
{
    lemma_latest_sorted(m.history_of(addr), k);
}

/// On a step-ordered chronology, the chronologically last write at or before
/// `k` also has the greatest step at or before `k`.
proof fn lemma_latest_sorted(h: Seq<(usize, Seq<Felt>)>, k: usize)
    requires
        forall|i: int, j: int| 0 <= i < j < h.len() ==> (#[trigger] h[i]).0 <= (#[trigger] h[j]).0,
    ensures
        (forall|i: int| 0 <= i < h.len() ==> (#[trigger] h[i]).0 > k) ==> latest_at_most(
            h,
            k,
        ) is None,
        (exists|i: int| 0 <= i < h.len() && (#[trigger] h[i]).0 <= k) ==> exists|i: int|
            {
                &&& 0 <= i < h.len()
                &&& (#[trigger] h[i]).0 <= k
                &&& latest_at_most(h, k) == Some(h[i].1)
                &&& forall|j: int|
                    0 <= j < h.len() && (#[trigger] h[j]).0 <= k ==> h[j].0 <= h[i].0
            },
    decreases h.len(),
{
    if h.len() == 0 {
    } else if h.last().0 <= k {
        let w = h.len() - 1;
        assert(0 <= w < h.len() && h[w].0 <= k && latest_at_most(h, k) == Some(h[w].1)
            && forall|j: int| 0 <= j < h.len() && (#[trigger] h[j]).0 <= k ==> h[j].0 <= h[w].0);
    } else {
        let hp = h.drop_last();
        assert(forall|i: int, j: int|
            0 <= i < j < hp.len() ==> (#[trigger] hp[i]).0 <= (#[trigger] hp[j]).0);
        lemma_latest_sorted(hp, k);
        if exists|i: int| 0 <= i < h.len() && (#[trigger] h[i]).0 <= k {
            let e = choose|i: int| 0 <= i < h.len() && (#[trigger] h[i]).0 <= k;
            assert(e < h.len() - 1);
            assert(hp[e].0 <= k);
            let i = choose|i: int|
                {
                    &&& 0 <= i < hp.len()
                    &&& (#[trigger] hp[i]).0 <= k
                    &&& latest_at_most(hp, k) == Some(hp[i].1)
                    &&& forall|j: int|
                        0 <= j < hp.len() && (#[trigger] hp[j]).0 <= k ==> hp[j].0 <= hp[i].0
                };
            assert(hp[i] == h[i]);
            assert(latest_at_most(h, k) == latest_at_most(hp, k));
            assert forall|j: int| 0 <= j < h.len() && (#[trigger] h[j]).0 <= k implies h[j].0
                <= h[i].0 by {
                assert(j < h.len() - 1);
                assert(hp[j] == h[j]);
                assert(hp[j].0 <= hp[i].0);
            }
            assert(0 <= i < h.len() && h[i].0 <= k && latest_at_most(h, k) == Some(h[i].1)
                && forall|j: int|
                0 <= j < h.len() && (#[trigger] h[j]).0 <= k ==> h[j].0 <= h[i].0);
        }
    }
}

/// Updating one cell in place changes only that address's chronology.
proof fn lemma_find_history_update(pre: Seq<MemCell>, post: Seq<MemCell>, i: int, addr: u64)
    requires
        0 <= i < pre.len(),
        post.len() == pre.len(),
        forall|j: int| 0 <= j < pre.len() && j != i ==> post[j] == pre[j],
        pre[i].addr == addr,
        post[i].addr == addr,
        forall|p: int, q: int| 0 <= p < q < pre.len() ==> pre[p].addr < pre[q].addr,
    ensures
        Memory::find_history(post, addr) == post[i].view_of(),
        Memory::find_history(pre, addr) == pre[i].view_of(),
        forall|a: u64|
            a != addr ==> #[trigger] Memory::find_history(post, a) == Memory::find_history(
                pre,
                a,
            ),
    decreases pre.len(),
{
    if i == 0 {
        assert forall|a: u64| a != addr implies #[trigger] Memory::find_history(post, a)
            == Memory::find_history(pre, a) by {
            assert(post.skip(1) =~= pre.skip(1));
        }
    } else {
        assert(forall|p: int, q: int|
            0 <= p < q < pre.skip(1).len() ==> (#[trigger] pre.skip(1)[p]).addr < (
            #[trigger] pre.skip(1)[q]).addr);
        lemma_find_history_update(pre.skip(1), post.skip(1), i - 1, addr);
        assert(pre[0].addr < pre[i].addr);
        assert(post[0] == pre[0]);
        assert forall|a: u64| a != addr implies #[trigger] Memory::find_history(post, a)
            == Memory::find_history(pre, a) by {
            assert(Memory::find_history(post.skip(1), a) == Memory::find_history(
                pre.skip(1),
                a,
            ));
        }
    }
}

/// Inserting a fresh cell at its sorted position changes only that address.
proof fn lemma_find_history_insert(pre: Seq<MemCell>, post: Seq<MemCell>, i: int, addr: u64)
    requires
        0 <= i <= pre.len(),
        post.len() == pre.len() + 1,
        forall|j: int| 0 <= j < i ==> post[j] == pre[j],
        forall|j: int| i < j < post.len() ==> post[j] == pre[j - 1],
        post[i].addr == addr,
        forall|j: int| 0 <= j < i ==> (#[trigger] pre[j]).addr < addr,
        forall|j: int| i <= j < pre.len() ==> (#[trigger] pre[j]).addr > addr,
    ensures
        Memory::find_history(post, addr) == post[i].view_of(),
        forall|a: u64|
            a != addr ==> #[trigger] Memory::find_history(post, a) == Memory::find_history(
                pre,
                a,
            ),
    decreases i,
{
    if i == 0 {
        assert forall|a: u64| a != addr implies #[trigger] Memory::find_history(post, a)
            == Memory::find_history(pre, a) by {
            assert(post.skip(1) =~= pre);
        }
    } else {
        lemma_find_history_insert(pre.skip(1), post.skip(1), i - 1, addr);
        assert(post[0] == pre[0]);
        assert(pre[0].addr < addr);
        assert forall|a: u64| a != addr implies #[trigger] Memory::find_history(post, a)
            == Memory::find_history(pre, a) by {
            assert(Memory::find_history(post.skip(1), a) == Memory::find_history(
                pre.skip(1),
                a,
            ));
        }
    }
}

/// An address held by no cell has an empty chronology.
proof fn lemma_find_history_absent(cells: Seq<MemCell>, addr: u64)
    requires
        forall|j: int| 0 <= j < cells.len() ==> (#[trigger] cells[j]).addr != addr,
    ensures
        Memory::find_history(cells, addr) == Seq::<(usize, Seq<Felt>)>::empty(),
    decreases cells.len(),
{
    if cells.len() > 0 {
        lemma_find_history_absent(cells.skip(1), addr);
    }
}

/// A sorted cell list holds `addr` at position `i` exactly.
proof fn lemma_find_history_at(cells: Seq<MemCell>, i: int, addr: u64)
    requires
        0 <= i < cells.len(),
        cells[i].addr == addr,
        forall|p: int, q: int| 0 <= p < q < cells.len() ==> cells[p].addr < cells[q].addr,
    ensures
        Memory::find_history(cells, addr) == cells[i].view_of(),
    decreases i,
{
    if i > 0 {
        assert(cells[0].addr < cells[i].addr);
        lemma_find_history_at(cells.skip(1), i - 1, addr);
    }
}

/// A sorted cell list whose position `i` passes `addr` by does not hold it.
proof fn lemma_find_history_absent_at(cells: Seq<MemCell>, i: int, addr: u64)
    requires
        0 <= i <= cells.len(),
        forall|j: int| 0 <= j < i ==> (#[trigger] cells[j]).addr < addr,
        forall|j: int| i <= j < cells.len() ==> (#[trigger] cells[j]).addr >= addr,
        i < cells.len() ==> cells[i].addr != addr,
        forall|p: int, q: int| 0 <= p < q < cells.len() ==> cells[p].addr < cells[q].addr,
    ensures
        Memory::find_history(cells, addr) == Seq::<(usize, Seq<Felt>)>::empty(),
{
    assert forall|j: int| 0 <= j < cells.len() implies (#[trigger] cells[j]).addr != addr by {
        if j > i {
            assert(cells[i].addr < cells[j].addr);
        }
    }
    lemma_find_history_absent(cells, addr);
}

} // verus!
