//! The execution trace: a column-oriented table of field elements, one row
//! per clock cycle, padded to a power-of-two length.
//!
//! The fixed columns are the free-memory pointer and the sixteen top-segment
//! stack slots; they are followed by one column per observed call-context
//! level, one per observed loop-nesting level, and one per overflow slot up
//! to the greatest observed stack depth.

use vstd::prelude::*;

use crate::field::Felt;
use crate::overflow::snapshot_spec;
use crate::process::Process;

verus! {

/// The least trace length.
pub const MIN_TRACE_LEN: usize = 64;

/// Whether `n` is a power of two.
pub open spec fn is_power_of_two(n: nat) -> bool
    decreases n,
{
    if n == 0 {
        false
    } else if n == 1 {
        true
    } else {
        n % 2 == 0 && is_power_of_two(n / 2)
    }
}

/// The row index a cycle maps to: past the final cycle, rows repeat it.
pub open spec fn clamp(k: int, clk_final: int) -> int {
    if k <= clk_final {
        k
    } else {
        clk_final
    }
}

/// The maxima that size the trace beyond its fixed columns.
pub struct TraceInfo {
    /// The greatest call-context nesting observed.
    pub ctx_depth: usize,
    /// The greatest loop nesting observed.
    pub loop_depth: usize,
    /// The greatest observed stack depth beyond the top segment.
    pub overflow_depth: usize,
}

/// The dense execution trace of one successful run.
pub struct ExecutionTrace {
    columns: Vec<Vec<Felt>>,
    length: usize,
    clk_final: usize,
    ctx_depth: usize,
    loop_depth: usize,
    overflow_depth: usize,
    source: Ghost<Process>,
}

impl ExecutionTrace {
    /// The process this trace was taken from.
    pub closed spec fn source_view(self) -> Process {
        self.source@
    }

    /// The padded number of rows.
    pub closed spec fn length_spec(self) -> int {
        self.length as int
    }

    /// The clock cycle at which execution finished.
    pub closed spec fn clk_final_spec(self) -> int {
        self.clk_final as int
    }

    /// The greatest call-context nesting observed.
    pub closed spec fn ctx_depth_spec(self) -> int {
        self.ctx_depth as int
    }

    /// The greatest loop nesting observed.
    pub closed spec fn loop_depth_spec(self) -> int {
        self.loop_depth as int
    }

    /// The greatest observed stack depth beyond the top segment.
    pub closed spec fn overflow_depth_spec(self) -> int {
        self.overflow_depth as int
    }

    /// The value of column `c` at row `k`.
    pub closed spec fn cell(self, c: int, k: int) -> Felt {
        self.columns@[c]@[k]
    }

    /// The number of columns.
    pub open spec fn num_columns(self) -> int {
        17 + self.ctx_depth_spec() + self.loop_depth_spec() + self.overflow_depth_spec()
    }

    /// The pointer column's value at row `k`.
    pub open spec fn fmp_cell(self, k: int) -> Felt {
        self.cell(0, k)
    }

    /// Top-segment slot `i` at row `k`.
    pub open spec fn stack_cell(self, i: int, k: int) -> Felt {
        self.cell(1 + i, k)
    }

    /// Overflow slot `i` at row `k`.
    pub open spec fn overflow_cell(self, i: int, k: int) -> Felt {
        self.cell(17 + self.ctx_depth_spec() + self.loop_depth_spec() + i, k)
    }

    /// The trace's invariant: every column is dense over the padded length,
    /// and each cell holds the recorded history of the source process, rows
    /// past the final cycle repeating it.
    pub closed spec fn wf(self) -> bool {
        &&& self.columns@.len() == 17 + self.ctx_depth + self.loop_depth + self.overflow_depth
        &&& forall|c: int|
            0 <= c < self.columns@.len() ==> (#[trigger] self.columns@[c])@.len()
                == self.length
        &&& self.clk_final < self.length
        &&& self.clk_final == self.source@.clk()
        &&& self.source@.wf()
        &&& self.ctx_depth == self.source@.decoder.max_ctx_depth()
        &&& self.loop_depth == self.source@.decoder.max_loop_depth()
        &&& self.overflow_depth == self.source@.stack.max_overflow_len()
        &&& forall|k: int|
            0 <= k < self.length ==> #[trigger] self.fmp_cell(k) == self.source@.system.fmp_at(
                clamp(k, self.clk_final as int),
            )
        &&& forall|i: int, k: int|
            0 <= i < 16 && 0 <= k < self.length ==> #[trigger] self.stack_cell(i, k)
                == self.source@.stack.row_at(clamp(k, self.clk_final as int))[i]
        &&& forall|c: int, k: int|
            17 <= c < 17 + self.ctx_depth + self.loop_depth && 0 <= k < self.length
                ==> #[trigger] self.cell(c, k) == Felt::zero_spec()
        &&& forall|i: int, k: int|
            0 <= i < self.overflow_depth && 0 <= k < self.length ==> #[trigger] self.overflow_cell(
                i,
                k,
            ) == {
                let snap = snapshot_spec(
                    self.source@.stack.overflow_table().trace_view(),
                    clamp(k, self.clk_final as int) as usize,
                );
                if i < snap.len() {
                    snap[i]
                } else {
                    Felt::zero_spec()
                }
            }
    }

    /// The padded number of rows: a power of two, greater than the final
    /// clock cycle and at least the floor length.
    pub fn length(&self) -> (r: usize)
        requires
            self.wf(),
        ensures
            r == self.length_spec(),
            r > self.clk_final_spec(),
    {
        self.length
    }

    /// The number of columns: the fixed ones plus one per observed context
    /// level, loop level and overflow slot.
    pub fn width(&self) -> (r: u128)
        ensures
            r == 17 + self.ctx_depth_spec() + self.loop_depth_spec()
                + self.overflow_depth_spec(),
    {
        17u128 + self.ctx_depth as u128 + self.loop_depth as u128 + self.overflow_depth as u128
    }

    /// The clock cycle at which execution finished.
    pub fn clk_final(&self) -> (r: usize)
        ensures
            r == self.clk_final_spec(),
    {
        self.clk_final
    }

    /// The maxima that sized the trace.
    pub fn get_info(&self) -> (r: TraceInfo)
        ensures
            r.ctx_depth == self.ctx_depth_spec(),
            r.loop_depth == self.loop_depth_spec(),
            r.overflow_depth == self.overflow_depth_spec(),
    {
        TraceInfo {
            ctx_depth: self.ctx_depth,
            loop_depth: self.loop_depth,
            overflow_depth: self.overflow_depth,
        }
    }

    /// Reads row `step` into `out`, replacing its contents: one value per
    /// column.
    pub fn read_row_into(&self, step: usize, out: &mut Vec<Felt>)
        requires
            self.wf(),
            step < self.length_spec(),
        ensures
            final(out)@.len() == self.num_columns(),
            forall|c: int|
                0 <= c < final(out)@.len() ==> final(out)@[c] == self.cell(c, step as int),
    {
        out.clear();
        let mut c: usize = 0;
        while c < self.columns.len()
            invariant
                c <= self.columns@.len(),
                self.wf(),
                step < self.length_spec(),
                out@.len() == c,
                forall|j: int| 0 <= j < c ==> out@[j] == self.cell(j, step as int),
            decreases self.columns@.len() - c,
        {
            let v = self.columns[c][step];
            out.push(v);
            c = c + 1;
        }
    }
}

/// What cell `(c, j)` of the trace must hold, given the source process, the
/// final cycle, and the context and loop column counts.
pub open spec fn expected_cell(p: Process, cf: int, ctx: int, lp: int, c: int, j: int) -> Felt {
    if c == 0 {
        p.system.fmp_at(clamp(j, cf))
    } else if c < 17 {
        p.stack.row_at(clamp(j, cf))[c - 1]
    } else if c < 17 + ctx + lp {
        Felt::zero_spec()
    } else {
        let snap = snapshot_spec(p.stack.overflow_table().trace_view(), clamp(j, cf) as usize);
        let i = c - 17 - ctx - lp;
        if i < snap.len() {
            snap[i]
        } else {
            Felt::zero_spec()
        }
    }
}

/// A finished column `c`: dense over the padded length and holding its
/// expected cells.
pub open spec fn col_ok(
    p: Process,
    cf: int,
    ctx: int,
    lp: int,
    len: int,
    c: int,
    col: Seq<Felt>,
) -> bool {
    &&& col.len() == len
    &&& forall|j: int| 0 <= j < len ==> #[trigger] col[j] == expected_cell(p, cf, ctx, lp, c, j)
}

impl ExecutionTrace {
    /// Builds the trace of a finished execution: each recorded cycle becomes
    /// a row, and rows past the final cycle repeat it up to a power-of-two
    /// length.
    pub fn new(process: Process) -> (r: ExecutionTrace)
        requires
            process.wf(),
        ensures
            r.wf(),
            r.source_view() == process,
            r.clk_final_spec() == process.clk(),
            r.ctx_depth_spec() == process.decoder.max_ctx_depth(),
            r.loop_depth_spec() == process.decoder.max_loop_depth(),
            r.overflow_depth_spec() == process.stack.max_overflow_len(),
            process.clk() <= usize::MAX / 4 ==> is_power_of_two(r.length_spec() as nat)
                && r.length_spec() >= MIN_TRACE_LEN,
    {
        proof {
            process.stack.lemma_clk_bound();
        }
        let clk_final = process.system.clk_value();
        let length = padded_length(clk_final);
        let depths = process.decoder.max_depths();
        let ctx_depth = depths.0;
        let loop_depth = depths.1;
        let overflow_depth = process.stack.max_overflow_value();
        let ghost cf = clk_final as int;
        let ghost ctx = ctx_depth as int;
        let ghost lp = loop_depth as int;
        let mut columns: Vec<Vec<Felt>> = Vec::new();
        let zero = Felt::zero();

        let mut c: usize = 0;
        while c < 17
            invariant
                c <= 17,
                process.wf(),
                clk_final == process.clk(),
                cf == clk_final as int,
                ctx == ctx_depth as int,
                lp == loop_depth as int,
                columns@.len() == c,
                forall|c2: int|
                    0 <= c2 < c ==> col_ok(
                        process,
                        cf,
                        ctx,
                        lp,
                        length as int,
                        c2,
                        (#[trigger] columns@[c2])@,
                    ),
            decreases 17 - c,
        {
            let mut col: Vec<Felt> = Vec::new();
            let mut k: usize = 0;
            while k < length
                invariant
                    k <= length,
                    c < 17,
                    process.wf(),
                    clk_final == process.clk(),
                    cf == clk_final as int,
                    ctx == ctx_depth as int,
                    lp == loop_depth as int,
                    col@.len() == k,
                    forall|j: int|
                        0 <= j < k ==> #[trigger] col@[j] == expected_cell(
                            process,
                            cf,
                            ctx,
                            lp,
                            c as int,
                            j,
                        ),
                decreases length - k,
            {
                let kk = if k <= clk_final {
                    k
                } else {
                    clk_final
                };
                let v = if c == 0 {
                    process.system.get_fmp_at(kk)
                } else {
                    process.stack.row_value(kk, c - 1)
                };
                col.push(v);
                k = k + 1;
            }
            let ghost cols_old = columns@;
            let ghost colv = col@;
            columns.push(col);
            proof {
                assert forall|c2: int|
                    0 <= c2 < columns@.len() implies col_ok(
                    process,
                    cf,
                    ctx,
                    lp,
                    length as int,
                    c2,
                    (#[trigger] columns@[c2])@,
                ) by {
                    if c2 == columns@.len() - 1 {
                        assert(columns@[c2]@ == colv);
                        assert forall|j: int| 0 <= j < length implies #[trigger] colv[j]
                            == expected_cell(process, cf, ctx, lp, c2, j) by {
                        }
                        assert(col_ok(process, cf, ctx, lp, length as int, c2, colv));
                    } else {
                        assert(columns@[c2] == cols_old[c2]);
                    }
                }
            }
            c = c + 1;
        }

        let mut z: usize = 0;
        let pad_cols: usize = ctx_depth;
        while z < pad_cols
            invariant
                z <= pad_cols,
                pad_cols == ctx_depth,
                zero == Felt::zero_spec(),
                process.wf(),
                clk_final == process.clk(),
                cf == clk_final as int,
                ctx == ctx_depth as int,
                lp == loop_depth as int,
                columns@.len() == 17 + z,
                forall|c2: int|
                    0 <= c2 < 17 + z ==> col_ok(
                        process,
                        cf,
                        ctx,
                        lp,
                        length as int,
                        c2,
                        (#[trigger] columns@[c2])@,
                    ),
            decreases pad_cols - z,
        {
            let mut col: Vec<Felt> = Vec::new();
            let mut k: usize = 0;
            while k < length
                invariant
                    k <= length,
                    col@.len() == k,
                    zero == Felt::zero_spec(),
                    forall|j: int| 0 <= j < k ==> #[trigger] col@[j] == Felt::zero_spec(),
                decreases length - k,
            {
                col.push(zero);
                k = k + 1;
            }
            let ghost cols_old = columns@;
            let ghost colv = col@;
            columns.push(col);
            proof {
                assert forall|c2: int|
                    0 <= c2 < columns@.len() implies col_ok(
                    process,
                    cf,
                    ctx,
                    lp,
                    length as int,
                    c2,
                    (#[trigger] columns@[c2])@,
                ) by {
                    if c2 == columns@.len() - 1 {
                        assert(columns@[c2]@ == colv);
                        assert forall|j: int| 0 <= j < length implies #[trigger] colv[j]
                            == expected_cell(process, cf, ctx, lp, c2, j) by {
                        }
                        assert(col_ok(process, cf, ctx, lp, length as int, c2, colv));
                    } else {
                        assert(columns@[c2] == cols_old[c2]);
                    }
                }
            }
            z = z + 1;
        }

        let mut z2: usize = 0;
        while z2 < loop_depth
            invariant
                z2 <= loop_depth,
                zero == Felt::zero_spec(),
                process.wf(),
                clk_final == process.clk(),
                cf == clk_final as int,
                ctx == ctx_depth as int,
                lp == loop_depth as int,
                columns@.len() == 17 + ctx_depth + z2,
                forall|c2: int|
                    0 <= c2 < 17 + ctx_depth + z2 ==> col_ok(
                        process,
                        cf,
                        ctx,
                        lp,
                        length as int,
                        c2,
                        (#[trigger] columns@[c2])@,
                    ),
            decreases loop_depth - z2,
        {
            let mut col: Vec<Felt> = Vec::new();
            let mut k: usize = 0;
            while k < length
                invariant
                    k <= length,
                    col@.len() == k,
                    zero == Felt::zero_spec(),
                    forall|j: int| 0 <= j < k ==> #[trigger] col@[j] == Felt::zero_spec(),
                decreases length - k,
            {
                col.push(zero);
                k = k + 1;
            }
            let ghost cols_old = columns@;
            let ghost colv = col@;
            columns.push(col);
            proof {
                assert forall|c2: int|
                    0 <= c2 < columns@.len() implies col_ok(
                    process,
                    cf,
                    ctx,
                    lp,
                    length as int,
                    c2,
                    (#[trigger] columns@[c2])@,
                ) by {
                    if c2 == columns@.len() - 1 {
                        assert(columns@[c2]@ == colv);
                        assert forall|j: int| 0 <= j < length implies #[trigger] colv[j]
                            == expected_cell(process, cf, ctx, lp, c2, j) by {
                        }
                        assert(col_ok(process, cf, ctx, lp, length as int, c2, colv));
                    } else {
                        assert(columns@[c2] == cols_old[c2]);
                    }
                }
            }
            z2 = z2 + 1;
        }

        let mut oi: usize = 0;
        while oi < overflow_depth
            invariant
                oi <= overflow_depth,
                zero == Felt::zero_spec(),
                process.wf(),
                clk_final == process.clk(),
                cf == clk_final as int,
                ctx == ctx_depth as int,
                lp == loop_depth as int,
                columns@.len() == 17 + ctx_depth + loop_depth + oi,
                forall|c2: int|
                    0 <= c2 < 17 + ctx_depth + loop_depth + oi ==> col_ok(
                        process,
                        cf,
                        ctx,
                        lp,
                        length as int,
                        c2,
                        (#[trigger] columns@[c2])@,
                    ),
            decreases overflow_depth - oi,
        {
            let mut col: Vec<Felt> = Vec::new();
            let mut k: usize = 0;
            while k < length
                invariant
                    k <= length,
                    oi < overflow_depth,
                    process.wf(),
                    clk_final == process.clk(),
                    cf == clk_final as int,
                    zero == Felt::zero_spec(),
                    col@.len() == k,
                    forall|j: int|
                        0 <= j < k ==> #[trigger] col@[j] == {
                            let snap = snapshot_spec(
                                process.stack.overflow_table().trace_view(),
                                clamp(j, cf) as usize,
                            );
                            if oi < snap.len() {
                                snap[oi as int]
                            } else {
                                Felt::zero_spec()
                            }
                        },
                decreases length - k,
            {
                let kk = if k <= clk_final {
                    k
                } else {
                    clk_final
                };
                let snap = process.stack.snapshot_at(kk);
                let v = if oi < snap.len() {
                    snap[oi]
                } else {
                    zero
                };
                col.push(v);
                k = k + 1;
            }
            let ghost cols_old = columns@;
            let ghost colv = col@;
            columns.push(col);
            proof {
                assert forall|c2: int|
                    0 <= c2 < columns@.len() implies col_ok(
                    process,
                    cf,
                    ctx,
                    lp,
                    length as int,
                    c2,
                    (#[trigger] columns@[c2])@,
                ) by {
                    if c2 == columns@.len() - 1 {
                        assert(columns@[c2]@ == colv);
                        assert forall|j: int| 0 <= j < length implies #[trigger] colv[j]
                            == expected_cell(process, cf, ctx, lp, c2, j) by {
                        }
                        assert(col_ok(process, cf, ctx, lp, length as int, c2, colv));
                    } else {
                        assert(columns@[c2] == cols_old[c2]);
                    }
                }
            }
            oi = oi + 1;
        }

        let r = ExecutionTrace {
            columns,
            length,
            clk_final,
            ctx_depth,
            loop_depth,
            overflow_depth,
            source: Ghost(process),
        };
        proof {
            assert forall|k6: int| 0 <= k6 < r.length_spec() implies #[trigger] r.fmp_cell(k6)
                == r.source_view().system.fmp_at(clamp(k6, r.clk_final_spec())) by {
                assert(col_ok(process, cf, ctx, lp, length as int, 0, r.columns@[0]@));
            }
            assert forall|i6: int, k6: int|
                0 <= i6 < 16 && 0 <= k6 < r.length_spec() implies #[trigger] r.stack_cell(
                i6,
                k6,
            ) == r.source_view().stack.row_at(clamp(k6, r.clk_final_spec()))[i6] by {
                assert(col_ok(process, cf, ctx, lp, length as int, 1 + i6, r.columns@[1 + i6]@));
            }
            assert forall|c6: int, k6: int|
                17 <= c6 < 17 + r.ctx_depth_spec() + r.loop_depth_spec() && 0 <= k6
                    < r.length_spec() implies #[trigger] r.cell(c6, k6) == Felt::zero_spec() by {
                assert(col_ok(process, cf, ctx, lp, length as int, c6, r.columns@[c6]@));
            }
            assert forall|i6: int, k6: int|
                0 <= i6 < r.overflow_depth_spec() && 0 <= k6 < r.length_spec()
                implies #[trigger] r.overflow_cell(i6, k6) == {
                let snap = snapshot_spec(
                    r.source_view().stack.overflow_table().trace_view(),
                    clamp(k6, r.clk_final_spec()) as usize,
                );
                if i6 < snap.len() {
                    snap[i6]
                } else {
                    Felt::zero_spec()
                }
            } by {
                assert(col_ok(
                    process,
                    cf,
                    ctx,
                    lp,
                    length as int,
                    17 + ctx + lp + i6,
                    r.columns@[17 + ctx + lp + i6]@,
                ));
            }
            assert forall|c6: int|
                0 <= c6 < r.columns@.len() implies (#[trigger] r.columns@[c6])@.len()
                    == r.length by {
                assert(col_ok(process, cf, ctx, lp, length as int, c6, r.columns@[c6]@));
            }
        }
        r
    }
}

/// The padded trace length for a final cycle count: the least power of two
/// above `clk_final` and at least the floor length.
fn padded_length(clk_final: usize) -> (r: usize)
    requires
        clk_final < usize::MAX,
    ensures
        r > clk_final,
        clk_final <= usize::MAX / 4 ==> is_power_of_two(r as nat) && r >= MIN_TRACE_LEN,
{
    let mut n: usize = MIN_TRACE_LEN;
    if clk_final > usize::MAX / 4 {
        return clk_final + 1;
    }
    proof {
        reveal_with_fuel(is_power_of_two, 10);
        assert(is_power_of_two(64));
    }
    while n <= clk_final
        invariant
            is_power_of_two(n as nat),
            n >= MIN_TRACE_LEN,
            clk_final <= usize::MAX / 4,
            n <= usize::MAX / 2,
        decreases (if n <= clk_final { clk_final + 1 - n } else { 0int }),
    {
        proof {
            assert((2 * n) as nat % 2 == 0);
            assert((2 * n) as nat / 2 == n as nat);
        }
        n = n * 2;
    }
    n
}

/// Trace and iterator agreement: at every cycle `k` of a finished run, the
/// trace's stack columns hold exactly the logical stack that the debug
/// iterator reconstructs for `k` — the top segment in the fixed columns and
/// the spilled elements in the overflow columns.
pub proof fn lemma_trace_matches_states(t: ExecutionTrace, k: usize)
    requires
        t.wf(),
        k <= t.clk_final_spec(),
    ensures
        crate::process::state_stack_spec(t.source_view(), k).len() >= 16,
        forall|i: int|
            0 <= i < 16 ==> t.stack_cell(i, k as int) == crate::process::state_stack_spec(
                t.source_view(),
                k,
            )[i],
        forall|i: int|
            0 <= i < t.overflow_depth_spec() && 16 + i < crate::process::state_stack_spec(
                t.source_view(),
                k,
            ).len() ==> t.overflow_cell(i, k as int) == crate::process::state_stack_spec(
                t.source_view(),
                k,
            )[16 + i],
{
    let p = t.source_view();
    p.stack.lemma_rows_wf();
    assert(p.stack.row_at(k as int).len() == 16);
    assert(clamp(k as int, t.clk_final_spec()) == k as int);
    assert forall|i: int|
        0 <= i < 16 implies t.stack_cell(i, k as int) == crate::process::state_stack_spec(
        p,
        k,
    )[i] by {
        assert(crate::process::state_stack_spec(p, k)[i] == p.stack.row_at(k as int)[i]);
    }
    assert forall|i: int|
        0 <= i < t.overflow_depth_spec() && 16 + i < crate::process::state_stack_spec(
            p,
            k,
        ).len() implies t.overflow_cell(i, k as int) == crate::process::state_stack_spec(p, k)[
        16 + i] by {
        assert(crate::process::state_stack_spec(p, k)[16 + i] == snapshot_spec(
            p.stack.overflow_table().trace_view(),
            k,
        )[i]);
    }
}

} // verus!
