//! The blocked driver: the walk over column panels and depth slices, and for each slice the
//! kernel calls of every thread.

use crate::arith::{
    ceil_div, chunk_len, div_ceil, lemma_ceil_div_bounds, lemma_ceil_div_monotone, lemma_chunk,
    min_usize,
};
use crate::layout::{abs, lemma_fits_cell, stride_abs};
use crate::params::{AlphaMode, BlockSizes, KernelShape};
use crate::problem::Problem;
use crate::tiles::{lemma_band, TileGrid};
use crate::workspace::{lhs_elems, packed_stride, packed_stride_spec, rhs_elems};
use vstd::prelude::*;

verus! {

/// The largest product of the three extents that is still run on one thread.
pub const SMALL_WORKLOAD: usize = 589824;

/// Whether a multiply of these extents is too small to be shared among threads.
pub open spec fn is_small(m: int, n: int, k: int) -> bool {
    m * n * k <= 48 * 48 * 256
}

/// The number of threads for a multiply of these extents where `requested` are offered.
pub open spec fn threads_for(requested: int, m: int, n: int, k: int) -> int {
    if is_small(m, n, k) {
        1
    } else {
        requested
    }
}

/// Whether a multiply of these extents is too small to be shared among threads.
pub fn small_workload(m: usize, n: usize, k: usize) -> (small: bool)
    ensures
        small == is_small(m as int, n as int, k as int),
{
    if m == 0 || n == 0 || k == 0 {
        assert(m * n * k == 0) by (nonlinear_arith)
            requires
                m == 0 || n == 0 || k == 0,
        ;
        return true;
    }
    if m > SMALL_WORKLOAD || n > SMALL_WORKLOAD || k > SMALL_WORKLOAD {
        assert(m * n * k > 589824) by (nonlinear_arith)
            requires
                m >= 1,
                n >= 1,
                k >= 1,
                m > 589824 || n > 589824 || k > 589824,
        ;
        return false;
    }
    assert(m * n <= 589824 * 589824) by (nonlinear_arith)
        requires
            m <= 589824,
            n <= 589824,
    ;
    let mn: u64 = (m as u64) * (n as u64);
    if mn > 589824 {
        assert(m * n * k > 589824) by (nonlinear_arith)
            requires
                m * n > 589824,
                k >= 1,
        ;
        return false;
    }
    assert(mn * k <= 589824 * 589824) by (nonlinear_arith)
        requires
            mn <= 589824,
            k <= 589824,
    ;
    mn * (k as u64) <= 589824
}

/// A blocked multiply, ready to be walked: the canonical problem, the kernel's tile
/// shape, the cache block sizes and what follows from them.
#[derive(Clone, Copy, Debug, PartialEq, Eq, Structural)]
pub struct Driver {
    /// The multiply, in canonical form.
    pub problem: Problem,
    pub shape: KernelShape,
    pub blocks: BlockSizes,
    /// Whether the output is read before it is written.
    pub read_dst: bool,
    /// How the caller's `alpha` scales the output.
    pub alpha: AlphaMode,
    /// Threads offered to the depth slices.
    pub n_threads: usize,
    /// Elements from one packed block of the right operand to the next.
    pub packed_rhs_stride: usize,
    /// Elements from one packed block of the left operand to the next.
    pub packed_lhs_stride: usize,
    /// Whether the right operand is packed.
    pub do_pack_rhs: bool,
}

/// One step of the walk: a depth slice of a column panel.
#[derive(Clone, Copy, Debug, PartialEq, Eq, Structural)]
pub struct Slice {
    /// Number of the column panel.
    pub panel: usize,
    /// Number of the depth slice.
    pub depth: usize,
    /// First column of the panel.
    pub col_outer: usize,
    /// Columns of the panel.
    pub n_chunk: usize,
    /// First depth index of the slice.
    pub depth_outer: usize,
    /// Depth of the slice.
    pub k_chunk: usize,
    /// How the kernels of this slice treat the output.
    pub mode: AlphaMode,
    /// Threads that share the slice.
    pub n_threads: usize,
    /// Kernel tiles of the slice.
    pub n_jobs: usize,
    /// Whether the right operand's part is packed before the threads start.
    pub pack_rhs: bool,
    /// Offset of the right operand's part: the cell at the slice's first depth index and
    /// the panel's first column.
    pub rhs_src: isize,
}

impl Driver {
    /// Column panels of the output.
    pub open spec fn n_panels(self) -> int {
        ceil_div(self.problem.n as int, self.blocks.nc as int)
    }

    /// Depth slices of the operands.
    pub open spec fn n_depths(self) -> int {
        ceil_div(self.problem.k as int, self.blocks.kc as int)
    }

    /// The tile grid of a panel of `n_chunk` columns.
    pub open spec fn grid(self, n_chunk: int) -> TileGrid {
        TileGrid {
            m: self.problem.m,
            n_chunk: n_chunk as usize,
            mc: self.blocks.mc,
            mr: self.shape.mr,
            nr: self.shape.nr,
        }
    }

    /// Columns of the widest panel.
    pub open spec fn widest(self) -> int {
        if self.problem.n <= self.blocks.nc {
            self.problem.n as int
        } else {
            self.blocks.nc as int
        }
    }

    /// Packed blocks of the left operand that a thread keeps: the row strips of the
    /// tallest band.
    pub open spec fn lhs_blocks(self) -> int {
        let a = ceil_div(self.blocks.mc as int, self.shape.mr as int);
        let b = ceil_div(self.problem.m as int, self.shape.mr as int);
        if a <= b {
            a
        } else {
            b
        }
    }

    /// The multiply is valid and not degenerate, the shapes and sizes are positive, and
    /// the packed buffers and the job lists can be counted in machine words.
    pub open spec fn wf(self) -> bool {
        &&& self.problem.wf()
        &&& self.problem.m > 0
        &&& self.problem.n > 0
        &&& self.problem.k > 0
        &&& self.shape.wf()
        &&& self.shape.mr <= isize::MAX
        &&& self.shape.nr <= isize::MAX
        &&& self.blocks.mc > 0
        &&& self.blocks.nc > 0
        &&& self.blocks.kc > 0
        &&& self.n_threads >= 1
        &&& self.blocks.kc * self.shape.nr <= self.packed_rhs_stride
        &&& self.blocks.kc * self.shape.mr <= self.packed_lhs_stride
        &&& self.packed_rhs_stride * ceil_div(self.blocks.nc as int, self.shape.nr as int)
            <= usize::MAX
        &&& self.n_threads * self.packed_lhs_stride * ceil_div(
            self.blocks.mc as int,
            self.shape.mr as int,
        ) <= usize::MAX
        &&& self.grid(self.widest()).n_jobs() <= usize::MAX
        &&& self.do_pack_rhs == (self.problem.m > self.shape.mr && abs(self.problem.rhs.rs as int)
            != 1)
    }

    /// Depth slice `d` of column panel `c`.
    pub open spec fn slice_spec(self, c: int, d: int) -> Slice {
        let n_chunk = chunk_len(self.problem.n as int, self.blocks.nc as int, c);
        let k_chunk = chunk_len(self.problem.k as int, self.blocks.kc as int, d);
        Slice {
            panel: c as usize,
            depth: d as usize,
            col_outer: (c * self.blocks.nc) as usize,
            n_chunk: n_chunk as usize,
            depth_outer: (d * self.blocks.kc) as usize,
            k_chunk: k_chunk as usize,
            mode: self.alpha.of_slice(self.read_dst, d),
            n_threads: threads_for(
                self.n_threads as int,
                self.problem.m as int,
                n_chunk,
                k_chunk,
            ) as usize,
            n_jobs: self.grid(n_chunk).n_jobs() as usize,
            pack_rhs: self.do_pack_rhs,
            rhs_src: self.problem.rhs.at(d * self.blocks.kc, c * self.blocks.nc) as isize,
        }
    }

    /// Whether `slice` is a slice of this walk.
    pub open spec fn has_slice(self, slice: Slice) -> bool {
        &&& slice.panel < self.n_panels()
        &&& slice.depth < self.n_depths()
        &&& slice == self.slice_spec(slice.panel as int, slice.depth as int)
    }
}

/// A walk that can be set up is valid: the driver built for it has strides that hold a
/// block, buffers and job lists that can be counted, and at least one thread.
pub proof fn lemma_build_wf(
    problem: Problem,
    shape: KernelShape,
    blocks: BlockSizes,
    read_dst: bool,
    alpha: AlphaMode,
    requested: int,
    simd_stride: int,
)
    requires
        Driver::admits(problem, shape, blocks, requested, simd_stride),
        requested <= usize::MAX,
    ensures
        Driver::build(problem, shape, blocks, read_dst, alpha, requested, simd_stride).wf(),
{
    crate::arith::lemma_round_up(blocks.kc * shape.nr, simd_stride);
    crate::arith::lemma_round_up(blocks.kc * shape.mr, simd_stride);
    lemma_ceil_div_bounds(blocks.nc as int, shape.nr as int);
    lemma_ceil_div_bounds(blocks.mc as int, shape.mr as int);
    assert(blocks.kc * shape.nr >= 0 && blocks.kc * shape.mr >= 0) by (nonlinear_arith);
}

/// A wider panel has no fewer jobs.
pub proof fn lemma_jobs_monotone(g: TileGrid, h: TileGrid)
    requires
        g.positive(),
        h.positive(),
        g.m == h.m,
        g.mc == h.mc,
        g.mr == h.mr,
        g.nr == h.nr,
        g.n_chunk <= h.n_chunk,
    ensures
        0 < g.n_jobs() <= h.n_jobs(),
{
    let last = g.n_bands() - 1;
    lemma_ceil_div_bounds(g.m as int, g.mc as int);
    lemma_band(g, last);
    lemma_band(h, last);
    lemma_ceil_div_monotone(g.n_chunk as int, h.n_chunk as int, g.nr as int);
    let a = g.n_col_mini();
    let b = h.n_col_mini();
    let rpb = g.rows_per_band();
    let rl = g.band_row_mini(last);
    assert(a * rpb <= b * rpb && a * rl <= b * rl && last * (a * rpb) <= last * (b * rpb))
        by (nonlinear_arith)
        requires
            1 <= a <= b,
            rpb >= 1,
            rl >= 1,
            last >= 0,
    ;
}

/// What holds of every slice of a valid walk: its extents lie inside the operands, its
/// grid is valid, and it runs on at least one thread and on no more than are offered.
pub proof fn lemma_slice(drv: Driver, c: int, d: int)
    requires
        drv.wf(),
        0 <= c < drv.n_panels(),
        0 <= d < drv.n_depths(),
    ensures
        ({
            let s = drv.slice_spec(c, d);
            &&& s.panel == c
            &&& s.depth == d
            &&& s.col_outer == c * drv.blocks.nc
            &&& s.depth_outer == d * drv.blocks.kc
            &&& 1 <= s.n_chunk <= drv.widest()
            &&& s.n_chunk == chunk_len(drv.problem.n as int, drv.blocks.nc as int, c)
            &&& s.k_chunk == chunk_len(drv.problem.k as int, drv.blocks.kc as int, d)
            &&& s.col_outer + s.n_chunk <= drv.problem.n
            &&& 1 <= s.k_chunk <= drv.blocks.kc
            &&& s.depth_outer + s.k_chunk <= drv.problem.k
            &&& drv.grid(s.n_chunk as int).wf()
            &&& s.n_jobs == drv.grid(s.n_chunk as int).n_jobs()
            &&& 1 <= s.n_threads <= drv.n_threads
            &&& s.rhs_src == drv.problem.rhs.at(s.depth_outer as int, s.col_outer as int)
            &&& drv.has_slice(s)
        }),
{
    lemma_chunk(drv.problem.n as int, drv.blocks.nc as int, c);
    lemma_chunk(drv.problem.k as int, drv.blocks.kc as int, d);
    lemma_ceil_div_bounds(drv.problem.n as int, drv.blocks.nc as int);
    lemma_ceil_div_bounds(drv.problem.k as int, drv.blocks.kc as int);
    let n_chunk = chunk_len(drv.problem.n as int, drv.blocks.nc as int, c);
    lemma_jobs_monotone(drv.grid(n_chunk), drv.grid(drv.widest()));
    lemma_fits_cell(
        drv.problem.rhs,
        drv.problem.k as int,
        drv.problem.n as int,
        d * drv.blocks.kc,
        c * drv.blocks.nc,
    );
}

impl Driver {
    /// Threads offered to the depth slices where the caller offers `requested`.
    pub open spec fn top_threads(problem: Problem, blocks: BlockSizes, requested: int) -> int {
        threads_for(requested, problem.m as int, blocks.nc as int, blocks.kc as int)
    }

    /// Whether a walk can be set up: the views fit their matrices, the multiply is not
    /// degenerate, shapes and sizes are positive, and the packed buffers and the job lists
    /// can be counted in machine words.
    pub open spec fn admits(
        problem: Problem,
        shape: KernelShape,
        blocks: BlockSizes,
        requested: int,
        simd_stride: int,
    ) -> bool {
        let threads = Driver::top_threads(problem, blocks, requested);
        &&& problem.wf()
        &&& problem.m > 0
        &&& problem.n > 0
        &&& problem.k > 0
        &&& shape.wf()
        &&& shape.mr <= isize::MAX
        &&& shape.nr <= isize::MAX
        &&& blocks.mc > 0
        &&& blocks.nc > 0
        &&& blocks.kc > 0
        &&& requested >= 1
        &&& simd_stride > 0
        &&& rhs_elems(blocks, shape.nr as int, simd_stride).is_some()
        &&& lhs_elems(blocks, shape.mr as int, simd_stride, threads).is_some()
        &&& (TileGrid {
            m: problem.m,
            n_chunk: if problem.n <= blocks.nc {
                problem.n
            } else {
                blocks.nc
            },
            mc: blocks.mc,
            mr: shape.mr,
            nr: shape.nr,
        }).n_jobs() <= usize::MAX
    }

    /// The walk for the given multiply, where one can be set up.
    pub open spec fn build(
        problem: Problem,
        shape: KernelShape,
        blocks: BlockSizes,
        read_dst: bool,
        alpha: AlphaMode,
        requested: int,
        simd_stride: int,
    ) -> Driver {
        Driver {
            problem,
            shape,
            blocks,
            read_dst,
            alpha,
            n_threads: Driver::top_threads(problem, blocks, requested) as usize,
            packed_rhs_stride: packed_stride_spec(
                blocks.kc as int,
                shape.nr as int,
                simd_stride,
            ).unwrap() as usize,
            packed_lhs_stride: packed_stride_spec(
                blocks.kc as int,
                shape.mr as int,
                simd_stride,
            ).unwrap() as usize,
            do_pack_rhs: problem.m > shape.mr && abs(problem.rhs.rs as int) != 1,
        }
    }

    /// Sets up the walk for a multiply in canonical form, or returns `None` where a view
    /// does not fit its matrix, the multiply is degenerate, a shape or size is 0, or a
    /// buffer or job list cannot be counted in machine words.
    pub fn new(
        problem: Problem,
        shape: KernelShape,
        blocks: BlockSizes,
        read_dst: bool,
        alpha: AlphaMode,
        n_threads: usize,
        simd_stride: usize,
    ) -> (r: Option<Driver>)
        ensures
            r.is_some() == Driver::admits(
                problem,
                shape,
                blocks,
                n_threads as int,
                simd_stride as int,
            ),
            r.is_some() ==> r.unwrap() == Driver::build(
                problem,
                shape,
                blocks,
                read_dst,
                alpha,
                n_threads as int,
                simd_stride as int,
            ) && r.unwrap().wf(),
    {
        if !problem.is_valid() || problem.m == 0 || problem.n == 0 || problem.k == 0 {
            return None;
        }
        if shape.lanes == 0 || shape.mr == 0 || shape.nr == 0 || shape.mr % shape.lanes != 0 {
            return None;
        }
        if shape.mr > isize::MAX as usize || shape.nr > isize::MAX as usize {
            return None;
        }
        if blocks.mc == 0 || blocks.nc == 0 || blocks.kc == 0 || n_threads == 0 || simd_stride
            == 0 {
            return None;
        }
        let threads: usize = if small_workload(problem.m, blocks.nc, blocks.kc) {
            1
        } else {
            n_threads
        };
        let packed_rhs_stride: usize = match packed_stride(blocks.kc, shape.nr, simd_stride) {
            Some(s) => s,
            None => { return None; },
        };
        let packed_lhs_stride: usize = match packed_stride(blocks.kc, shape.mr, simd_stride) {
            Some(s) => s,
            None => { return None; },
        };
        proof {
            crate::arith::lemma_round_up(blocks.kc * shape.nr, simd_stride as int);
            crate::arith::lemma_round_up(blocks.kc * shape.mr, simd_stride as int);
            lemma_ceil_div_bounds(blocks.nc as int, shape.nr as int);
            lemma_ceil_div_bounds(blocks.mc as int, shape.mr as int);
            assert(blocks.kc * shape.nr >= 0 && blocks.kc * shape.mr >= 0) by (nonlinear_arith);
        }
        if packed_rhs_stride.checked_mul(div_ceil(blocks.nc, shape.nr)).is_none() {
            return None;
        }
        match threads.checked_mul(packed_lhs_stride) {
            Some(n) => {
                if n.checked_mul(div_ceil(blocks.mc, shape.mr)).is_none() {
                    return None;
                }
            },
            None => { return None; },
        }
        let widest: usize = min_usize(problem.n, blocks.nc);
        if TileGrid::new(problem.m, widest, blocks.mc, shape.mr, shape.nr).is_none() {
            return None;
        }
        let do_pack_rhs: bool = problem.m > shape.mr && stride_abs(problem.rhs.rs) != 1;
        Some(
            Driver {
                problem,
                shape,
                blocks,
                read_dst,
                alpha,
                n_threads: threads,
                packed_rhs_stride,
                packed_lhs_stride,
                do_pack_rhs,
            },
        )
    }

    /// Depth slice `d` of column panel `c`.
    pub fn slice(&self, c: usize, d: usize) -> (s: Slice)
        requires
            self.wf(),
            c < self.n_panels(),
            d < self.n_depths(),
        ensures
            s == self.slice_spec(c as int, d as int),
            self.has_slice(s),
    {
        proof {
            lemma_slice(*self, c as int, d as int);
            lemma_chunk(self.problem.n as int, self.blocks.nc as int, c as int);
            lemma_chunk(self.problem.k as int, self.blocks.kc as int, d as int);
        }
        let col_outer: usize = c * self.blocks.nc;
        let n_chunk: usize = min_usize(self.blocks.nc, self.problem.n - col_outer);
        let depth_outer: usize = d * self.blocks.kc;
        let k_chunk: usize = min_usize(self.blocks.kc, self.problem.k - depth_outer);
        let grid = TileGrid {
            m: self.problem.m,
            n_chunk,
            mc: self.blocks.mc,
            mr: self.shape.mr,
            nr: self.shape.nr,
        };
        let n_threads: usize = if small_workload(self.problem.m, n_chunk, k_chunk) {
            1
        } else {
            self.n_threads
        };
        Slice {
            panel: c,
            depth: d,
            col_outer,
            n_chunk,
            depth_outer,
            k_chunk,
            mode: self.alpha.for_slice(self.read_dst, d),
            n_threads,
            n_jobs: grid.count_jobs(),
            pack_rhs: self.do_pack_rhs,
            rhs_src: self.problem.rhs.index(depth_outer, col_outer),
        }
    }

    /// All slices of the walk in the order in which they run: panel by panel, and within
    /// a panel from the first depth slice to the last.
    pub fn slices(&self) -> (out: Vec<Slice>)
        requires
            self.wf(),
        ensures
            out@.len() == self.n_panels() * self.n_depths(),
            forall|s: int|
                0 <= s < out@.len() ==> #[trigger] out@[s] == self.slice_spec(
                    s / self.n_depths(),
                    s % self.n_depths(),
                ),
            forall|s: int| 0 <= s < out@.len() ==> self.has_slice(#[trigger] out@[s]),
    {
        let n_panels: usize = div_ceil(self.problem.n, self.blocks.nc);
        let n_depths: usize = div_ceil(self.problem.k, self.blocks.kc);
        let mut out: Vec<Slice> = Vec::new();
        let mut c: usize = 0;
        proof {
            lemma_ceil_div_bounds(self.problem.k as int, self.blocks.kc as int);
            assert(0 * n_depths == 0) by (nonlinear_arith);
        }
        while c < n_panels
            invariant
                self.wf(),
                n_panels == self.n_panels(),
                n_depths == self.n_depths(),
                n_depths >= 1,
                0 <= c <= n_panels,
                out@.len() == c * n_depths,
                forall|s: int|
                    0 <= s < out@.len() ==> #[trigger] out@[s] == self.slice_spec(
                        s / self.n_depths(),
                        s % self.n_depths(),
                    ),
                forall|s: int| 0 <= s < out@.len() ==> self.has_slice(#[trigger] out@[s]),
            decreases n_panels - c,
        {
            let mut d: usize = 0;
            while d < n_depths
                invariant
                    self.wf(),
                    n_panels == self.n_panels(),
                    n_depths == self.n_depths(),
                    0 <= c < n_panels,
                    0 <= d <= n_depths,
                    out@.len() == c * n_depths + d,
                    forall|s: int|
                        0 <= s < out@.len() ==> #[trigger] out@[s] == self.slice_spec(
                            s / self.n_depths(),
                            s % self.n_depths(),
                        ),
                    forall|s: int| 0 <= s < out@.len() ==> self.has_slice(#[trigger] out@[s]),
                decreases n_depths - d,
            {
                let slice = self.slice(c, d);
                proof {
                    vstd::arithmetic::div_mod::lemma_fundamental_div_mod_converse(
                        c * n_depths + d,
                        n_depths as int,
                        c as int,
                        d as int,
                    );
                }
                out.push(slice);
                d += 1;
            }
            proof {
                assert((c + 1) * n_depths == c * n_depths + n_depths) by (nonlinear_arith);
            }
            c += 1;
        }
        out
    }
}

} // verus!
