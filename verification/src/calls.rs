//! The kernel calls of a depth slice: for each tile the kernel to run, where it reads its
//! operands and where it writes, and which panel of the left operand the thread packs first.

use crate::arith::{
    ceil_div, div_ceil, lemma_ceil_div_bounds, lemma_ceil_div_monotone, lemma_chunk_of_point,
    lemma_chunk_of_point_unique, lemma_round_up, min_usize, round_up,
};
use crate::driver::{lemma_slice, Driver, Slice};
use crate::layout::lemma_fits_cell;
use crate::params::AlphaMode;
use crate::partition::{
    job_count, job_end, job_owner, job_range, job_start, lemma_job_owner, lemma_job_owner_unique,
    lemma_job_range_bounds,
};
use crate::tiles::{
    lemma_band, lemma_cell_covered, lemma_cell_job_unique, lemma_job_coords, lemma_job_decompose,
    lemma_tile_in_bounds, lemma_tile_spec, Tile, TileGrid,
};
use crate::workspace::{basic_req, lemma_product_monotone, packed_stride_spec};
use vstd::prelude::*;

verus! {

/// Where a kernel reads an operand.
#[derive(Clone, Copy, Debug, PartialEq, Eq, Structural)]
pub enum Operand {
    /// In the caller's matrix, at the given element offset from its base.
    Source(isize),
    /// In the packed buffer, at the given element offset from the buffer's start.
    Packed(usize),
}

/// One call of a kernel on one tile.
#[derive(Clone, Copy, Debug, PartialEq, Eq, Structural)]
pub struct KernelCall {
    /// The tile that the call computes.
    pub tile: Tile,
    /// Depth of the slice.
    pub k_chunk: usize,
    /// Row of the kernel in the kernel table.
    pub table_row: usize,
    /// Column of the kernel in the kernel table.
    pub table_col: usize,
    /// The kernel table to take the kernel from.
    pub mode: AlphaMode,
    /// Element offset of the tile's first cell in the output.
    pub dst: isize,
    /// The left operand's rows of the tile, at the slice's depth.
    pub lhs: Operand,
    /// The right operand's columns of the tile, at the slice's depth.
    pub rhs: Operand,
    pub dst_cs: isize,
    pub dst_rs: isize,
    pub lhs_cs: isize,
    pub rhs_rs: isize,
    pub rhs_cs: isize,
    /// Whether the thread packs the band's panel of the left operand before this call.
    pub pack_lhs: bool,
    /// Element offset in the left operand of the band's first row at the slice's depth.
    pub band_src: isize,
    /// Element offset of the thread's packed buffer in the buffer of all threads.
    pub band_dst: usize,
}

impl Driver {
    /// Whether the band of `band_rows` rows is packed: it is left in place only where it
    /// is made of whole row strips, the left operand's rows are contiguous and the output
    /// has at most 16 columns.
    pub open spec fn packs_lhs(self, band_rows: int) -> bool {
        band_rows % (self.shape.mr as int) != 0 || self.problem.lhs.rs != 1 || self.problem.n > 16
    }

    /// Element offset of the packed buffer of thread `tid`.
    pub open spec fn thread_base(self, tid: int) -> int {
        tid * self.packed_lhs_stride * self.lhs_blocks()
    }

    /// The call for job `job` of `slice`, run by thread `tid`.
    pub open spec fn call_spec(self, slice: Slice, tid: int, job: int) -> KernelCall {
        let g = self.grid(slice.n_chunk as int);
        let tile = g.tile_spec(job);
        let packed = self.packs_lhs(tile.m_chunk as int);
        let first = job_start(tid, slice.n_jobs as int, slice.n_threads as int);
        let p = self.problem;
        KernelCall {
            tile,
            k_chunk: slice.k_chunk,
            table_row: self.shape.table_row(tile.m_tile as int) as usize,
            table_col: self.shape.table_col(tile.n_tile as int) as usize,
            mode: slice.mode,
            dst: p.dst.at(tile.row as int, slice.col_outer + tile.col) as isize,
            lhs: if packed {
                Operand::Packed(
                    (self.thread_base(tid) + tile.i * self.packed_lhs_stride) as usize,
                )
            } else {
                Operand::Source(p.lhs.at(tile.row as int, slice.depth_outer as int) as isize)
            },
            rhs: if self.do_pack_rhs {
                Operand::Packed((tile.j * self.packed_rhs_stride) as usize)
            } else {
                Operand::Source(
                    p.rhs.at(slice.depth_outer as int, slice.col_outer + tile.col) as isize,
                )
            },
            dst_cs: p.dst.cs,
            dst_rs: p.dst.rs,
            lhs_cs: if packed {
                self.shape.mr as isize
            } else {
                p.lhs.cs
            },
            rhs_rs: if self.do_pack_rhs {
                self.shape.nr as isize
            } else {
                p.rhs.rs
            },
            rhs_cs: if self.do_pack_rhs {
                1
            } else {
                p.rhs.cs
            },
            pack_lhs: packed && (job == first || job == g.band_first_job(g.job_band(job))),
            band_src: p.lhs.at(tile.row_outer as int, slice.depth_outer as int) as isize,
            band_dst: self.thread_base(tid) as usize,
        }
    }
}

/// Where the packed blocks of a call lie: the left operand's block inside the thread's own
/// part of the buffer, the right operand's block inside the shared buffer, and each block
/// with room for the whole tile at the slice's depth.
pub proof fn lemma_packed_in_bounds(drv: Driver, slice: Slice, tid: int, job: int)
    requires
        drv.wf(),
        drv.has_slice(slice),
        0 <= tid < slice.n_threads,
        0 <= job < slice.n_jobs,
    ensures
        ({
            let g = drv.grid(slice.n_chunk as int);
            let i = g.job_row(job);
            let j = g.job_col(job);
            let base = drv.thread_base(tid);
            &&& 0 <= i < drv.lhs_blocks()
            &&& 0 <= base
            &&& base + drv.packed_lhs_stride * drv.lhs_blocks() == drv.thread_base(tid + 1)
            &&& drv.thread_base(tid + 1) <= drv.thread_base(drv.n_threads as int)
            &&& drv.thread_base(drv.n_threads as int) <= drv.n_threads * drv.packed_lhs_stride
                * ceil_div(drv.blocks.mc as int, drv.shape.mr as int)
            &&& base <= base + i * drv.packed_lhs_stride
            &&& base + i * drv.packed_lhs_stride + slice.k_chunk * drv.shape.mr
                <= drv.thread_base(tid + 1)
            &&& 0 <= j * drv.packed_rhs_stride
            &&& j * drv.packed_rhs_stride + slice.k_chunk * drv.shape.nr <= drv.packed_rhs_stride
                * ceil_div(drv.blocks.nc as int, drv.shape.nr as int)
        }),
{
    lemma_slice(drv, slice.panel as int, slice.depth as int);
    let g = drv.grid(slice.n_chunk as int);
    lemma_job_decompose(g, job);
    let b = g.job_band(job);
    lemma_band(g, b);
    let i = g.job_row(job);
    let j = g.job_col(job);
    let mr = drv.shape.mr as int;
    let nr = drv.shape.nr as int;
    let sl = drv.packed_lhs_stride as int;
    let sr = drv.packed_rhs_stride as int;
    let blocks = drv.lhs_blocks();
    let cap = ceil_div(drv.blocks.mc as int, mr);
    let t = drv.n_threads as int;
    let kc = drv.blocks.kc as int;
    let k = slice.k_chunk as int;
    // the band has no more row strips than a thread has blocks
    lemma_ceil_div_monotone(g.band_rows(b), drv.blocks.mc as int, mr);
    lemma_ceil_div_monotone(g.band_rows(b), drv.problem.m as int, mr);
    lemma_ceil_div_bounds(drv.blocks.mc as int, mr);
    lemma_ceil_div_bounds(drv.problem.m as int, mr);
    // the panel has no more column strips than the shared buffer has blocks
    lemma_ceil_div_monotone(slice.n_chunk as int, drv.blocks.nc as int, nr);
    let ncap = ceil_div(drv.blocks.nc as int, nr);
    assert(k * mr <= kc * mr && k * nr <= kc * nr) by (nonlinear_arith)
        requires
            0 <= k <= kc,
            mr > 0,
            nr > 0,
    ;
    assert(0 <= i * sl && i * sl + sl <= sl * blocks) by (nonlinear_arith)
        requires
            0 <= i < blocks,
            sl >= 0,
    ;
    assert(0 <= j * sr && j * sr + sr <= sr * ncap) by (nonlinear_arith)
        requires
            0 <= j < ncap,
            sr >= 0,
    ;
    assert(0 <= tid * sl * blocks && tid * sl * blocks + sl * blocks == (tid + 1) * sl * blocks && (
    tid + 1) * sl * blocks <= t * sl * blocks && t * sl * blocks <= t * sl * cap)
        by (nonlinear_arith)
        requires
            0 <= tid < t,
            sl >= 0,
            0 <= blocks <= cap,
    ;
}

impl Driver {
    /// Elements of the shared buffer for the packed right operand.
    pub open spec fn rhs_buffer_elems(self) -> int {
        self.packed_rhs_stride * ceil_div(self.blocks.nc as int, self.shape.nr as int)
    }

    /// Elements of the buffer that holds the packed left operand of every thread.
    pub open spec fn lhs_buffer_elems(self) -> int {
        self.n_threads * self.packed_lhs_stride * ceil_div(
            self.blocks.mc as int,
            self.shape.mr as int,
        )
    }

    /// Elements of the shared buffer for the packed right operand.
    pub fn rhs_buffer_len(&self) -> (n: usize)
        requires
            self.wf(),
        ensures
            n == self.rhs_buffer_elems(),
    {
        self.packed_rhs_stride * div_ceil(self.blocks.nc, self.shape.nr)
    }

    /// Elements of the buffer that holds the packed left operand of every thread.
    pub fn lhs_buffer_len(&self) -> (n: usize)
        requires
            self.wf(),
        ensures
            n == self.lhs_buffer_elems(),
    {
        proof {
            lemma_ceil_div_bounds(self.blocks.mc as int, self.shape.mr as int);
            let t = self.n_threads as int;
            let sl = self.packed_lhs_stride as int;
            let cap = ceil_div(self.blocks.mc as int, self.shape.mr as int);
            assert(0 <= t * sl <= t * sl * cap) by (nonlinear_arith)
                requires
                    t >= 0,
                    sl >= 0,
                    cap >= 1,
            ;
        }
        self.n_threads * self.packed_lhs_stride * div_ceil(self.blocks.mc, self.shape.mr)
    }

    /// Whether the band of `m_chunk` rows is packed.
    pub fn do_pack_lhs(&self, m_chunk: usize) -> (packed: bool)
        requires
            self.shape.mr > 0,
        ensures
            packed == self.packs_lhs(m_chunk as int),
    {
        m_chunk % self.shape.mr != 0 || self.problem.lhs.rs != 1 || self.problem.n > 16
    }

    /// The call for `tile` of `slice`, run by thread `tid`.
    pub fn kernel_call(&self, slice: &Slice, tid: usize, tile: &Tile) -> (call: KernelCall)
        requires
            self.wf(),
            self.has_slice(*slice),
            tid < slice.n_threads,
            tile.job < slice.n_jobs,
            tile.is_job(self.grid(slice.n_chunk as int), tile.job as int),
        ensures
            call == self.call_spec(*slice, tid as int, tile.job as int),
    {
        let ghost g = self.grid(slice.n_chunk as int);
        let ghost job = tile.job as int;
        proof {
            lemma_slice(*self, slice.panel as int, slice.depth as int);
            lemma_tile_spec(g, job, *tile);
            lemma_tile_in_bounds(g, job);
            lemma_job_decompose(g, job);
            lemma_band(g, g.job_band(job));
            lemma_packed_in_bounds(*self, *slice, tid as int, job);
            lemma_job_range_bounds(tid as int, slice.n_jobs as int, slice.n_threads as int);
            let p = self.problem;
            lemma_fits_cell(
                p.dst,
                p.m as int,
                p.n as int,
                tile.row as int,
                slice.col_outer + tile.col,
            );
            lemma_fits_cell(p.lhs, p.m as int, p.k as int, tile.row as int, slice.depth_outer as int);
            lemma_fits_cell(
                p.lhs,
                p.m as int,
                p.k as int,
                tile.row_outer as int,
                slice.depth_outer as int,
            );
            lemma_fits_cell(
                p.rhs,
                p.k as int,
                p.n as int,
                slice.depth_outer as int,
                slice.col_outer + tile.col,
            );
            lemma_ceil_div_bounds(self.blocks.mc as int, self.shape.mr as int);
            lemma_ceil_div_bounds(self.problem.m as int, self.shape.mr as int);
        }
        let packed: bool = self.do_pack_lhs(tile.m_chunk);
        let range = job_range(tid, slice.n_jobs, slice.n_threads);
        let lhs_blocks: usize = min_usize(
            div_ceil(self.blocks.mc, self.shape.mr),
            div_ceil(self.problem.m, self.shape.mr),
        );
        proof {
            let sl = self.packed_lhs_stride as int;
            let blocks = lhs_blocks as int;
            assert(0 <= tid * sl <= tid * sl * blocks) by (nonlinear_arith)
                requires
                    tid >= 0,
                    sl >= 0,
                    blocks >= 1,
            ;
        }
        let band_dst: usize = tid * self.packed_lhs_stride * lhs_blocks;
        let col: usize = slice.col_outer + tile.col;
        let band_strips: usize = div_ceil(tile.m_chunk, self.shape.mr);
        let first_of_band: usize = tile.job - (tile.j * band_strips + tile.i);
        let at = self.shape.kernel_index(tile.m_tile, tile.n_tile);
        KernelCall {
            tile: *tile,
            k_chunk: slice.k_chunk,
            table_row: at.0,
            table_col: at.1,
            mode: slice.mode,
            dst: self.problem.dst.index(tile.row, col),
            lhs: if packed {
                Operand::Packed(band_dst + tile.i * self.packed_lhs_stride)
            } else {
                Operand::Source(self.problem.lhs.index(tile.row, slice.depth_outer))
            },
            rhs: if self.do_pack_rhs {
                Operand::Packed(tile.j * self.packed_rhs_stride)
            } else {
                Operand::Source(self.problem.rhs.index(slice.depth_outer, col))
            },
            dst_cs: self.problem.dst.cs,
            dst_rs: self.problem.dst.rs,
            lhs_cs: if packed {
                self.shape.mr as isize
            } else {
                self.problem.lhs.cs
            },
            rhs_rs: if self.do_pack_rhs {
                self.shape.nr as isize
            } else {
                self.problem.rhs.rs
            },
            rhs_cs: if self.do_pack_rhs {
                1
            } else {
                self.problem.rhs.cs
            },
            pack_lhs: packed && (tile.job == range.start || tile.job == first_of_band),
            band_src: self.problem.lhs.index(tile.row_outer, slice.depth_outer),
            band_dst,
        }
    }
}

impl Driver {
    /// Whether `call` is a call of thread `tid` in `slice`: the call for a job of the
    /// thread, whose tile lies in a band of the grid.
    pub open spec fn is_call(self, slice: Slice, tid: int, call: KernelCall) -> bool {
        let g = self.grid(slice.n_chunk as int);
        &&& job_start(tid, slice.n_jobs as int, slice.n_threads as int) <= call.tile.job
            < job_end(tid, slice.n_jobs as int, slice.n_threads as int)
        &&& call == self.call_spec(slice, tid, call.tile.job as int)
        &&& call.tile.band < g.n_bands()
        &&& call.tile.m_chunk == g.band_rows(call.tile.band as int)
        &&& call.k_chunk == slice.k_chunk
    }

    /// The calls of thread `tid` in `slice`, in the order in which the thread makes them.
    pub fn thread_calls(&self, slice: &Slice, tid: usize) -> (calls: Vec<KernelCall>)
        requires
            self.wf(),
            self.has_slice(*slice),
            tid < slice.n_threads,
        ensures
            calls@.len() == job_count(tid as int, slice.n_jobs as int, slice.n_threads as int),
            forall|t: int|
                0 <= t < calls@.len() ==> #[trigger] calls@[t] == self.call_spec(
                    *slice,
                    tid as int,
                    job_start(tid as int, slice.n_jobs as int, slice.n_threads as int) + t,
                ),
            forall|t: int|
                0 <= t < calls@.len() ==> self.is_call(*slice, tid as int, #[trigger] calls@[t]),
    {
        proof {
            lemma_slice(*self, slice.panel as int, slice.depth as int);
        }
        let range = job_range(tid, slice.n_jobs, slice.n_threads);
        let grid = TileGrid {
            m: self.problem.m,
            n_chunk: slice.n_chunk,
            mc: self.blocks.mc,
            mr: self.shape.mr,
            nr: self.shape.nr,
        };
        let tiles = grid.thread_tiles(range);
        let mut calls: Vec<KernelCall> = Vec::new();
        let mut t: usize = 0;
        while t < tiles.len()
            invariant
                self.wf(),
                self.has_slice(*slice),
                tid < slice.n_threads,
                grid == self.grid(slice.n_chunk as int),
                range.start == job_start(tid as int, slice.n_jobs as int, slice.n_threads as int),
                range.end == job_end(tid as int, slice.n_jobs as int, slice.n_threads as int),
                range.end <= slice.n_jobs,
                tiles@.len() == range.end - range.start,
                forall|u: int|
                    0 <= u < tiles@.len() ==> (#[trigger] tiles@[u]).is_job(grid, range.start + u),
                0 <= t <= tiles@.len(),
                calls@.len() == t,
                forall|u: int|
                    0 <= u < calls@.len() ==> #[trigger] calls@[u] == self.call_spec(
                        *slice,
                        tid as int,
                        range.start + u,
                    ),
                forall|u: int|
                    0 <= u < calls@.len() ==> self.is_call(*slice, tid as int, #[trigger] calls@[u]),
            decreases tiles@.len() - t,
        {
            let tile = tiles[t];
            assert(tiles@[t as int].is_job(grid, range.start + t));
            let call = self.kernel_call(slice, tid, &tile);
            proof {
                lemma_slice(*self, slice.panel as int, slice.depth as int);
                lemma_job_decompose(grid, tile.job as int);
                lemma_tile_spec(grid, tile.job as int, tile);
                lemma_job_range_bounds(tid as int, slice.n_jobs as int, slice.n_threads as int);
                assert(self.is_call(*slice, tid as int, call));
            }
            calls.push(call);
            t += 1;
        }
        calls
    }
}

/// The packed buffers of two threads do not overlap: the buffer of the earlier thread ends
/// where that of the later one starts, or before.
pub proof fn lemma_threads_apart(drv: Driver, a: int, b: int)
    requires
        drv.wf(),
        0 <= a < b,
    ensures
        drv.thread_base(a + 1) <= drv.thread_base(b),
        drv.thread_base(a) + drv.packed_lhs_stride * drv.lhs_blocks() == drv.thread_base(a + 1),
{
    let sl = drv.packed_lhs_stride as int;
    let blocks = drv.lhs_blocks();
    lemma_ceil_div_bounds(drv.blocks.mc as int, drv.shape.mr as int);
    lemma_ceil_div_bounds(drv.problem.m as int, drv.shape.mr as int);
    assert((a + 1) * sl * blocks <= b * sl * blocks && a * sl * blocks + sl * blocks == (a + 1)
        * sl * blocks) by (nonlinear_arith)
        requires
            0 <= a < b,
            sl >= 0,
            blocks >= 0,
    ;
}

/// No thread reads a packed panel of the left operand that it has not packed: where a call
/// of a thread reads the packed buffer, an earlier call of that thread in the same slice, or
/// the call itself, is for the same band and packs its panel first.
pub proof fn lemma_packed_before_read(drv: Driver, slice: Slice, tid: int, job: int)
    requires
        drv.wf(),
        drv.has_slice(slice),
        0 <= tid < slice.n_threads,
        job_start(tid, slice.n_jobs as int, slice.n_threads as int) <= job < job_end(
            tid,
            slice.n_jobs as int,
            slice.n_threads as int,
        ),
        drv.call_spec(slice, tid, job).lhs is Packed,
    ensures
        ({
            let g = drv.grid(slice.n_chunk as int);
            let first = job_start(tid, slice.n_jobs as int, slice.n_threads as int);
            let band = g.band_first_job(g.job_band(job));
            let packing = if band < first {
                first
            } else {
                band
            };
            &&& first <= packing <= job
            &&& drv.call_spec(slice, tid, packing).pack_lhs
            &&& drv.call_spec(slice, tid, packing).tile.row_outer == drv.call_spec(
                slice,
                tid,
                job,
            ).tile.row_outer
            &&& drv.call_spec(slice, tid, packing).band_dst == drv.call_spec(
                slice,
                tid,
                job,
            ).band_dst
        }),
{
    lemma_slice(drv, slice.panel as int, slice.depth as int);
    lemma_job_range_bounds(tid, slice.n_jobs as int, slice.n_threads as int);
    let g = drv.grid(slice.n_chunk as int);
    let first = job_start(tid, slice.n_jobs as int, slice.n_threads as int);
    lemma_job_decompose(g, job);
    let b = g.job_band(job);
    lemma_band(g, b);
    let band = g.band_first_job(b);
    let rm = g.band_row_mini(b);
    assert(0 <= g.job_col(job) * rm) by (nonlinear_arith)
        requires
            0 <= g.job_col(job),
            rm >= 1,
    ;
    let packing = if band < first {
        first
    } else {
        band
    };
    // the packing job lies in the same band
    lemma_ceil_div_bounds(g.n_chunk as int, g.nr as int);
    lemma_job_coords(g, b, 0, 0);
    assert(0 * rm == 0) by (nonlinear_arith);
    assert(g.job_band(band) == b);
    if band < first {
        let f = g.full_band_jobs();
        vstd::arithmetic::div_mod::lemma_div_is_ordered(band, first, f);
        vstd::arithmetic::div_mod::lemma_div_is_ordered(first, job, f);
    }
    assert(g.job_band(packing) == b);
}

/// Every cell of a slice's output panel is written by one call of one thread: the thread
/// that owns the job whose tile holds the cell, and no call of any thread but that one.
pub proof fn lemma_every_cell_once(
    drv: Driver,
    slice: Slice,
    row: int,
    col: int,
    tid: int,
    job: int,
)
    requires
        drv.wf(),
        drv.has_slice(slice),
        0 <= row < drv.problem.m,
        0 <= col < slice.n_chunk,
    ensures
        ({
            let g = drv.grid(slice.n_chunk as int);
            let writer_job = g.cell_job(row, col);
            let writer = job_owner(writer_job, slice.n_jobs as int, slice.n_threads as int);
            &&& 0 <= writer_job < slice.n_jobs
            &&& 0 <= writer < slice.n_threads
            &&& job_start(writer, slice.n_jobs as int, slice.n_threads as int) <= writer_job
                < job_end(writer, slice.n_jobs as int, slice.n_threads as int)
            &&& g.job_covers(writer_job, row, col)
            &&& (0 <= tid < slice.n_threads && job_start(
                tid,
                slice.n_jobs as int,
                slice.n_threads as int,
            ) <= job < job_end(tid, slice.n_jobs as int, slice.n_threads as int) && g.job_covers(
                job,
                row,
                col,
            )) ==> job == writer_job && tid == writer
        }),
{
    lemma_slice(drv, slice.panel as int, slice.depth as int);
    let g = drv.grid(slice.n_chunk as int);
    lemma_cell_covered(g, row, col);
    let writer_job = g.cell_job(row, col);
    lemma_job_owner(writer_job, slice.n_jobs as int, slice.n_threads as int);
    if 0 <= tid < slice.n_threads && job_start(tid, slice.n_jobs as int, slice.n_threads as int)
        <= job < job_end(tid, slice.n_jobs as int, slice.n_threads as int) && g.job_covers(
        job,
        row,
        col,
    ) {
        lemma_job_range_bounds(tid, slice.n_jobs as int, slice.n_threads as int);
        lemma_cell_job_unique(g, job, row, col);
        lemma_job_owner_unique(tid, job, slice.n_jobs as int, slice.n_threads as int);
    }
}

/// Every product term of the multiply is computed once: the output cell `(row, col)` and
/// the depth index `depth` lie in one slice of the walk, the slice of panel `col / nc` and
/// depth `depth / kc`, and in no other. The first depth slice of a panel takes the mode the
/// caller asked for, or overwrites where the output is not read; every later one adds.
pub proof fn lemma_term_once(drv: Driver, col: int, depth: int, c: int, d: int)
    requires
        drv.wf(),
        0 <= col < drv.problem.n,
        0 <= depth < drv.problem.k,
    ensures
        ({
            let panel = col / (drv.blocks.nc as int);
            let step = depth / (drv.blocks.kc as int);
            let s = drv.slice_spec(panel, step);
            &&& 0 <= panel < drv.n_panels()
            &&& 0 <= step < drv.n_depths()
            &&& s.col_outer <= col < s.col_outer + s.n_chunk
            &&& s.depth_outer <= depth < s.depth_outer + s.k_chunk
            &&& s.mode == (if step > 0 {
                AlphaMode::One
            } else if drv.read_dst {
                drv.alpha
            } else {
                AlphaMode::Zero
            })
            &&& (0 <= c < drv.n_panels() && 0 <= d < drv.n_depths() && drv.slice_spec(
                c,
                d,
            ).col_outer <= col < drv.slice_spec(c, d).col_outer + drv.slice_spec(c, d).n_chunk
                && drv.slice_spec(c, d).depth_outer <= depth < drv.slice_spec(c, d).depth_outer
                + drv.slice_spec(c, d).k_chunk) ==> c == panel && d == step
        }),
{
    let nc = drv.blocks.nc as int;
    let kc = drv.blocks.kc as int;
    let panel = col / nc;
    let step = depth / kc;
    lemma_chunk_of_point(drv.problem.n as int, nc, col);
    lemma_chunk_of_point(drv.problem.k as int, kc, depth);
    lemma_slice(drv, panel, step);
    if 0 <= c < drv.n_panels() && 0 <= d < drv.n_depths() {
        lemma_slice(drv, c, d);
        let s = drv.slice_spec(c, d);
        if s.col_outer <= col < s.col_outer + s.n_chunk && s.depth_outer <= depth < s.depth_outer
            + s.k_chunk {
            lemma_chunk_of_point_unique(drv.problem.n as int, nc, col, c);
            lemma_chunk_of_point_unique(drv.problem.k as int, kc, depth, d);
        }
    }
}

/// What a call computes does not depend on the number of threads: two walks that differ
/// in nothing but that number have the same jobs in every slice, and the calls for a job
/// agree in the tile, the kernel, the mode, the strides and the places in the caller's
/// matrices. They may differ only in where the packed panel of the left operand lies and
/// in which call packs it.
pub proof fn lemma_calls_independent_of_threads(
    a: Driver,
    b: Driver,
    c: int,
    d: int,
    tid_a: int,
    tid_b: int,
    job: int,
)
    requires
        a.wf(),
        b.wf(),
        b == (Driver { n_threads: b.n_threads, ..a }),
        0 <= c < a.n_panels(),
        0 <= d < a.n_depths(),
    ensures
        ({
            let sa = a.slice_spec(c, d);
            let sb = b.slice_spec(c, d);
            let ka = a.call_spec(sa, tid_a, job);
            let kb = b.call_spec(sb, tid_b, job);
            &&& sb == (Slice { n_threads: sb.n_threads, ..sa })
            &&& kb == (KernelCall {
                lhs: kb.lhs,
                pack_lhs: kb.pack_lhs,
                band_dst: kb.band_dst,
                ..ka
            })
            &&& (ka.lhs is Packed) == (kb.lhs is Packed)
            &&& ka.lhs is Source ==> ka.lhs == kb.lhs
        }),
{
}

/// The scratch region holds both packed buffers: the shared one at its start and, from
/// the next cache line on, those of all threads, for every walk with no more threads than
/// the region was counted for.
pub proof fn lemma_scratch_sufficient(drv: Driver, max_threads: int, elem_bytes: int, align: int)
    requires
        drv.wf(),
        0 < elem_bytes <= align <= usize::MAX,
        drv.n_threads <= max_threads,
        packed_stride_spec(
            drv.blocks.kc as int,
            drv.shape.nr as int,
            align / elem_bytes,
        ) == Some(drv.packed_rhs_stride as int),
        packed_stride_spec(
            drv.blocks.kc as int,
            drv.shape.mr as int,
            align / elem_bytes,
        ) == Some(drv.packed_lhs_stride as int),
        basic_req(
            drv.shape.mr as int,
            drv.shape.nr as int,
            drv.blocks,
            max_threads,
            elem_bytes,
            align,
        ).is_some(),
    ensures
        ({
            let req = basic_req(
                drv.shape.mr as int,
                drv.shape.nr as int,
                drv.blocks,
                max_threads,
                elem_bytes,
                align,
            ).unwrap();
            let rhs_bytes = drv.packed_rhs_stride * ceil_div(
                drv.blocks.nc as int,
                drv.shape.nr as int,
            ) * elem_bytes;
            let lhs_start = round_up(rhs_bytes, align);
            let lhs_bytes = drv.thread_base(drv.n_threads as int) * elem_bytes;
            &&& 0 <= rhs_bytes <= lhs_start
            &&& lhs_start % align == 0
            &&& 0 <= lhs_bytes
            &&& lhs_start + lhs_bytes <= req.size_bytes
        }),
{
    let mr = drv.shape.mr as int;
    let nr = drv.shape.nr as int;
    let sl = drv.packed_lhs_stride as int;
    let sr = drv.packed_rhs_stride as int;
    let t = drv.n_threads as int;
    let cn = ceil_div(drv.blocks.nc as int, nr);
    let cm = ceil_div(drv.blocks.mc as int, mr);
    let blocks = drv.lhs_blocks();
    lemma_ceil_div_bounds(drv.blocks.nc as int, nr);
    lemma_ceil_div_bounds(drv.blocks.mc as int, mr);
    lemma_ceil_div_bounds(drv.problem.m as int, mr);
    lemma_product_monotone(sr, sr, cn, cn);
    lemma_product_monotone(t, max_threads, sl, sl);
    lemma_product_monotone(t * sl, max_threads * sl, blocks, cm);
    let rhs_elems = sr * cn;
    let lhs_elems = max_threads * sl * cm;
    lemma_product_monotone(rhs_elems, rhs_elems, elem_bytes, elem_bytes);
    lemma_product_monotone(t * sl * blocks, lhs_elems, elem_bytes, elem_bytes);
    lemma_round_up(rhs_elems * elem_bytes, align);
    lemma_round_up(lhs_elems * elem_bytes, align);
}

} // verus!
