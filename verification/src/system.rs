//! The system register file: the monotone clock and the free-memory pointer,
//! with the pointer's full per-cycle history.

use vstd::prelude::*;

use crate::field::Felt;

verus! {

/// The initial free-memory pointer: `2^30`.
pub const INITIAL_FMP: u64 = 1073741824;

/// The clock and the free-memory pointer, one recorded value per cycle.
pub struct System {
    fmp_hist: Vec<Felt>,
}

impl System {
    /// The current clock cycle.
    pub closed spec fn clk(self) -> int {
        self.fmp_hist@.len() - 1
    }

    /// The free-memory pointer at cycle `k`.
    pub closed spec fn fmp_at(self, k: int) -> Felt {
        self.fmp_hist@[k]
    }

    /// The current free-memory pointer.
    pub open spec fn fmp(self) -> Felt {
        self.fmp_at(self.clk())
    }

    /// The register file's invariant.
    pub closed spec fn wf(self) -> bool {
        self.fmp_hist@.len() >= 1
    }

    /// A fresh register file: cycle zero, the pointer at its initial value.
    pub fn new() -> (r: System)
        ensures
            r.wf(),
            r.clk() == 0,
            r.fmp_at(0).val() == INITIAL_FMP,
    {
        let mut fmp_hist: Vec<Felt> = Vec::new();
        let fmp = Felt::new(INITIAL_FMP);
        fmp_hist.push(fmp);
        System { fmp_hist }
    }

    /// Advances the clock by one cycle, recording `fmp` as the pointer value
    /// at the new cycle.
    pub fn advance(&mut self, fmp: Felt)
        requires
            old(self).wf(),
        ensures
            final(self).wf(),
            final(self).clk() == old(self).clk() + 1,
            final(self).fmp_at(final(self).clk()) == fmp,
            forall|k: int| 0 <= k <= old(self).clk() ==> final(self).fmp_at(k) == old(
                self,
            ).fmp_at(k),
    {
        self.fmp_hist.push(fmp);
    }

    /// The current clock cycle.
    pub fn clk_value(&self) -> (r: usize)
        requires
            self.wf(),
        ensures
            r == self.clk(),
    {
        self.fmp_hist.len() - 1
    }

    /// The current free-memory pointer.
    pub fn fmp_value(&self) -> (r: Felt)
        requires
            self.wf(),
        ensures
            r == self.fmp(),
    {
        self.fmp_hist[self.fmp_hist.len() - 1]
    }

    /// The free-memory pointer recorded at cycle `k`.
    pub fn get_fmp_at(&self, k: usize) -> (r: Felt)
        requires
            self.wf(),
            k <= self.clk(),
        ensures
            r == self.fmp_at(k as int),
    {
        self.fmp_hist[k]
    }
}

} // verus!
