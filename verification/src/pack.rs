//! The layout of the packed panels, and what a kernel call reads and writes.
//!
//! A packed panel of the right operand is a row of blocks, one to each column strip. In a
//! block the `nr` columns of a depth index lie side by side, depth index after depth index.
//! A packed panel of the left operand has one block to each row strip of a band, and in a
//! block the `mr` rows of a depth index lie side by side.

use crate::arith::{
    ceil_div, lemma_ceil_div_bounds, lemma_ceil_div_monotone, lemma_chunk, lemma_chunk_of_point,
};
use crate::calls::{lemma_every_cell_once, lemma_packed_in_bounds, lemma_term_once, Operand};
use crate::partition::{job_end, job_owner, job_start};
use crate::driver::{lemma_slice, Driver, Slice};
use crate::layout::lemma_fits_cell;
use crate::tiles::{lemma_band, lemma_job_decompose, lemma_tile_in_bounds, lemma_tile_spec};
use vstd::prelude::*;

verus! {

/// Place of the entry at `(lane, depth)` of a packed panel, where `lane` counts the
/// columns of the right operand's panel or the rows of the left operand's band, `width` is
/// the width of a strip and `stride` the distance between blocks.
pub open spec fn slot(lane: int, depth: int, width: int, stride: int) -> int {
    (lane / width) * stride + depth * width + lane % width
}

/// One element to copy when a panel is packed.
#[derive(Clone, Copy, Debug, PartialEq, Eq, Structural)]
pub struct PackMove {
    /// Element offset in the caller's matrix.
    pub src: isize,
    /// Element offset in the packed buffer.
    pub dst: usize,
}

/// The entries of a block do not reach into the next block, and two entries of a panel
/// share a place only if they are the same entry.
pub proof fn lemma_slots_distinct(
    lane: int,
    depth: int,
    other_lane: int,
    other_depth: int,
    width: int,
    stride: int,
    k_chunk: int,
)
    requires
        width > 0,
        0 <= lane,
        0 <= other_lane,
        0 <= depth < k_chunk,
        0 <= other_depth < k_chunk,
        k_chunk * width <= stride,
        slot(lane, depth, width, stride) == slot(other_lane, other_depth, width, stride),
    ensures
        lane == other_lane,
        depth == other_depth,
        (lane / width) * stride <= slot(lane, depth, width, stride) < (lane / width) * stride
            + k_chunk * width,
{
    lemma_slot_parts(lane, depth, width, stride, k_chunk);
    lemma_slot_parts(other_lane, other_depth, width, stride, k_chunk);
    vstd::arithmetic::div_mod::lemma_fundamental_div_mod(lane, width);
    vstd::arithmetic::div_mod::lemma_fundamental_div_mod(other_lane, width);
}

/// A place determines the strip, the depth index and the lane within the strip.
pub proof fn lemma_slot_parts(lane: int, depth: int, width: int, stride: int, k_chunk: int)
    requires
        width > 0,
        0 <= lane,
        0 <= depth < k_chunk,
        k_chunk * width <= stride,
    ensures
        ({
            let s = slot(lane, depth, width, stride);
            &&& s / stride == lane / width
            &&& (s % stride) / width == depth
            &&& (s % stride) % width == lane % width
            &&& (lane / width) * stride <= s < (lane / width) * stride + k_chunk * width
            &&& 0 <= lane / width
        }),
{
    let strip = lane / width;
    let within = lane % width;
    vstd::arithmetic::div_mod::lemma_fundamental_div_mod(lane, width);
    vstd::arithmetic::div_mod::lemma_mod_bound(lane, width);
    assert(strip >= 0) by (nonlinear_arith)
        requires
            lane == width * strip + within,
            0 <= within < width,
            lane >= 0,
    ;
    let w = depth * width + within;
    assert(0 <= depth * width && depth * width + width <= k_chunk * width) by (nonlinear_arith)
        requires
            0 <= depth < k_chunk,
            width > 0,
    ;
    vstd::arithmetic::div_mod::lemma_fundamental_div_mod_converse(
        strip * stride + w,
        stride,
        strip,
        w,
    );
    vstd::arithmetic::div_mod::lemma_fundamental_div_mod_converse(w, width, depth, within);
}

impl Driver {
    /// The element at `(depth, col)` of the right operand's part of `slice`, and its place
    /// in the shared packed buffer.
    pub open spec fn rhs_move_spec(self, slice: Slice, depth: int, col: int) -> PackMove {
        PackMove {
            src: self.problem.rhs.at(slice.depth_outer + depth, slice.col_outer + col) as isize,
            dst: slot(col, depth, self.shape.nr as int, self.packed_rhs_stride as int) as usize,
        }
    }

    /// The element at `(row, depth)` of the left operand's part of the band that starts at
    /// row `row_outer`, and its place in the packed buffer of thread `tid`.
    pub open spec fn lhs_move_spec(
        self,
        slice: Slice,
        tid: int,
        row_outer: int,
        row: int,
        depth: int,
    ) -> PackMove {
        PackMove {
            src: self.problem.lhs.at(row_outer + row, slice.depth_outer + depth) as isize,
            dst: (self.thread_base(tid) + slot(
                row,
                depth,
                self.shape.mr as int,
                self.packed_lhs_stride as int,
            )) as usize,
        }
    }
}

/// The places of the right operand's packed entries lie inside the shared buffer.
pub proof fn lemma_rhs_slot_in_bounds(drv: Driver, slice: Slice, depth: int, col: int)
    requires
        drv.wf(),
        drv.has_slice(slice),
        0 <= depth < slice.k_chunk,
        0 <= col < slice.n_chunk,
    ensures
        0 <= slot(col, depth, drv.shape.nr as int, drv.packed_rhs_stride as int)
            < drv.packed_rhs_stride * ceil_div(drv.blocks.nc as int, drv.shape.nr as int),
        0 <= col / (drv.shape.nr as int) < ceil_div(slice.n_chunk as int, drv.shape.nr as int),
{
    lemma_slice(drv, slice.panel as int, slice.depth as int);
    let nr = drv.shape.nr as int;
    let sr = drv.packed_rhs_stride as int;
    let kc = drv.blocks.kc as int;
    assert(slice.k_chunk * nr <= kc * nr) by (nonlinear_arith)
        requires
            slice.k_chunk <= kc,
            nr > 0,
    ;
    lemma_slot_parts(col, depth, nr, sr, slice.k_chunk as int);
    lemma_chunk_of_point(slice.n_chunk as int, nr, col);
    lemma_ceil_div_monotone(slice.n_chunk as int, drv.blocks.nc as int, nr);
    let strip = col / nr;
    let cap = ceil_div(drv.blocks.nc as int, nr);
    assert(0 <= strip * sr && strip * sr + sr <= sr * cap) by (nonlinear_arith)
        requires
            0 <= strip < cap,
            sr >= 0,
    ;
}

/// The places of the left operand's packed entries lie inside the buffer of the thread
/// that packs them.
pub proof fn lemma_lhs_slot_in_bounds(
    drv: Driver,
    slice: Slice,
    tid: int,
    band: int,
    row: int,
    depth: int,
)
    requires
        drv.wf(),
        drv.has_slice(slice),
        0 <= tid < slice.n_threads,
        0 <= band < drv.grid(slice.n_chunk as int).n_bands(),
        0 <= row < drv.grid(slice.n_chunk as int).band_rows(band),
        0 <= depth < slice.k_chunk,
    ensures
        drv.thread_base(tid) <= drv.thread_base(tid) + slot(
            row,
            depth,
            drv.shape.mr as int,
            drv.packed_lhs_stride as int,
        ) < drv.thread_base(tid + 1),
        drv.thread_base(tid + 1) <= drv.n_threads * drv.packed_lhs_stride * ceil_div(
            drv.blocks.mc as int,
            drv.shape.mr as int,
        ),
        0 <= row / (drv.shape.mr as int) < drv.grid(slice.n_chunk as int).band_row_mini(band),
{
    lemma_slice(drv, slice.panel as int, slice.depth as int);
    let g = drv.grid(slice.n_chunk as int);
    lemma_band(g, band);
    let mr = drv.shape.mr as int;
    let sl = drv.packed_lhs_stride as int;
    let kc = drv.blocks.kc as int;
    let t = drv.n_threads as int;
    let blocks = drv.lhs_blocks();
    let cap = ceil_div(drv.blocks.mc as int, mr);
    assert(slice.k_chunk * mr <= kc * mr) by (nonlinear_arith)
        requires
            slice.k_chunk <= kc,
            mr > 0,
    ;
    lemma_slot_parts(row, depth, mr, sl, slice.k_chunk as int);
    lemma_chunk_of_point(g.band_rows(band), mr, row);
    lemma_ceil_div_monotone(g.band_rows(band), drv.blocks.mc as int, mr);
    lemma_ceil_div_monotone(g.band_rows(band), drv.problem.m as int, mr);
    lemma_ceil_div_bounds(drv.blocks.mc as int, mr);
    lemma_ceil_div_bounds(drv.problem.m as int, mr);
    let strip = row / mr;
    assert(0 <= strip * sl && strip * sl + sl <= sl * blocks) by (nonlinear_arith)
        requires
            0 <= strip < blocks,
            sl >= 0,
    ;
    assert(0 <= tid * sl * blocks && tid * sl * blocks + sl * blocks == (tid + 1) * sl * blocks && (
    tid + 1) * sl * blocks <= t * sl * blocks && t * sl * blocks <= t * sl * cap)
        by (nonlinear_arith)
        requires
            0 <= tid < t,
            sl >= 0,
            0 <= blocks <= cap,
    ;
}

impl Driver {
    /// The element at `(depth, col)` of the right operand's part of `slice`, and its place
    /// in the shared packed buffer.
    pub fn rhs_move(&self, slice: &Slice, depth: usize, col: usize) -> (mv: PackMove)
        requires
            self.wf(),
            self.has_slice(*slice),
            depth < slice.k_chunk,
            col < slice.n_chunk,
        ensures
            mv == self.rhs_move_spec(*slice, depth as int, col as int),
            mv.dst < self.packed_rhs_stride * ceil_div(
                self.blocks.nc as int,
                self.shape.nr as int,
            ),
    {
        let nr: usize = self.shape.nr;
        proof {
            lemma_slice(*self, slice.panel as int, slice.depth as int);
            lemma_rhs_slot_in_bounds(*self, *slice, depth as int, col as int);
            assert(slice.k_chunk * nr <= self.blocks.kc * nr) by (nonlinear_arith)
                requires
                    slice.k_chunk <= self.blocks.kc,
                    nr > 0,
            ;
            lemma_slot_parts(
                col as int,
                depth as int,
                nr as int,
                self.packed_rhs_stride as int,
                slice.k_chunk as int,
            );
            let p = self.problem;
            lemma_fits_cell(
                p.rhs,
                p.k as int,
                p.n as int,
                slice.depth_outer + depth,
                slice.col_outer + col,
            );
            assert(0 <= depth * nr && depth * nr + nr <= slice.k_chunk * nr) by (nonlinear_arith)
                requires
                    0 <= depth < slice.k_chunk,
                    nr > 0,
            ;
            vstd::arithmetic::div_mod::lemma_mod_bound(col as int, nr as int);
        }
        let strip: usize = col / nr;
        let within: usize = depth * nr + col % nr;
        PackMove {
            src: self.problem.rhs.index(slice.depth_outer + depth, slice.col_outer + col),
            dst: strip * self.packed_rhs_stride + within,
        }
    }

    /// The element at `(row, depth)` of the left operand's part of band `band`, and its
    /// place in the packed buffer of thread `tid`.
    pub fn lhs_move(&self, slice: &Slice, tid: usize, band: usize, row: usize, depth: usize) -> (mv:
        PackMove)
        requires
            self.wf(),
            self.has_slice(*slice),
            tid < slice.n_threads,
            band < self.grid(slice.n_chunk as int).n_bands(),
            row < self.grid(slice.n_chunk as int).band_rows(band as int),
            depth < slice.k_chunk,
        ensures
            mv == self.lhs_move_spec(
                *slice,
                tid as int,
                band * self.blocks.mc,
                row as int,
                depth as int,
            ),
            self.thread_base(tid as int) <= mv.dst < self.thread_base(tid + 1),
    {
        let mr: usize = self.shape.mr;
        let ghost g = self.grid(slice.n_chunk as int);
        proof {
            lemma_slice(*self, slice.panel as int, slice.depth as int);
            lemma_band(g, band as int);
            lemma_lhs_slot_in_bounds(*self, *slice, tid as int, band as int, row as int, depth as int);
            assert(slice.k_chunk * mr <= self.blocks.kc * mr) by (nonlinear_arith)
                requires
                    slice.k_chunk <= self.blocks.kc,
                    mr > 0,
            ;
            lemma_slot_parts(
                row as int,
                depth as int,
                mr as int,
                self.packed_lhs_stride as int,
                slice.k_chunk as int,
            );
            let p = self.problem;
            lemma_fits_cell(
                p.lhs,
                p.m as int,
                p.k as int,
                band * self.blocks.mc + row,
                slice.depth_outer + depth,
            );
            assert(0 <= depth * mr && depth * mr + mr <= slice.k_chunk * mr) by (nonlinear_arith)
                requires
                    0 <= depth < slice.k_chunk,
                    mr > 0,
            ;
            vstd::arithmetic::div_mod::lemma_mod_bound(row as int, mr as int);
            lemma_ceil_div_bounds(self.blocks.mc as int, mr as int);
            lemma_ceil_div_bounds(self.problem.m as int, mr as int);
            let sl = self.packed_lhs_stride as int;
            let blocks = self.lhs_blocks();
            assert(0 <= tid * sl <= tid * sl * blocks) by (nonlinear_arith)
                requires
                    tid >= 0,
                    sl >= 0,
                    blocks >= 1,
            ;
        }
        let lhs_blocks: usize = crate::arith::min_usize(
            crate::arith::div_ceil(self.blocks.mc, mr),
            crate::arith::div_ceil(self.problem.m, mr),
        );
        let base: usize = tid * self.packed_lhs_stride * lhs_blocks;
        let strip: usize = row / mr;
        let within: usize = depth * mr + row % mr;
        PackMove {
            src: self.problem.lhs.index(band * self.blocks.mc + row, slice.depth_outer + depth),
            dst: base + (strip * self.packed_lhs_stride + within),
        }
    }
}

/// What a kernel call reads and writes. The cell `(r, c)` of its tile is the output cell
/// at the tile's place in the panel. For depth index `d` of the slice, the call reads the
/// left operand's entry for row `r` and the right operand's entry for column `c` of the
/// tile: from the packed buffers at the places where packing puts these entries, or from
/// the caller's matrices at the places of these entries.
pub proof fn lemma_call_operands(
    drv: Driver,
    slice: Slice,
    tid: int,
    job: int,
    r: int,
    c: int,
    d: int,
)
    requires
        drv.wf(),
        drv.has_slice(slice),
        0 <= tid < slice.n_threads,
        0 <= job < slice.n_jobs,
        0 <= r < drv.call_spec(slice, tid, job).tile.m_tile,
        0 <= c < drv.call_spec(slice, tid, job).tile.n_tile,
        0 <= d < slice.k_chunk,
    ensures
        ({
            let call = drv.call_spec(slice, tid, job);
            let tile = call.tile;
            let p = drv.problem;
            let row = tile.row + r;
            let col = slice.col_outer + tile.col + c;
            let depth = slice.depth_outer + d;
            &&& row < p.m
            &&& col < p.n
            &&& depth < p.k
            &&& call.dst + r * call.dst_rs + c * call.dst_cs == p.dst.at(row, col)
            &&& match call.lhs {
                Operand::Packed(at) => at + r + d * call.lhs_cs == drv.lhs_move_spec(
                    slice,
                    tid,
                    tile.row_outer as int,
                    tile.i * drv.shape.mr + r,
                    d,
                ).dst,
                Operand::Source(at) => at + r + d * call.lhs_cs == p.lhs.at(row, depth),
            }
            &&& match call.rhs {
                Operand::Packed(at) => at + d * call.rhs_rs + c * call.rhs_cs == drv.rhs_move_spec(
                    slice,
                    d,
                    tile.col + c,
                ).dst,
                Operand::Source(at) => at + d * call.rhs_rs + c * call.rhs_cs == p.rhs.at(
                    depth,
                    col,
                ),
            }
            &&& drv.lhs_move_spec(
                slice,
                tid,
                tile.row_outer as int,
                tile.i * drv.shape.mr + r,
                d,
            ).src == p.lhs.at(row, depth)
            &&& drv.rhs_move_spec(slice, d, tile.col + c).src == p.rhs.at(depth, col)
        }),
{
    lemma_slice(drv, slice.panel as int, slice.depth as int);
    let g = drv.grid(slice.n_chunk as int);
    let call = drv.call_spec(slice, tid, job);
    let tile = call.tile;
    let p = drv.problem;
    lemma_tile_spec(g, job, tile);
    lemma_tile_in_bounds(g, job);
    lemma_job_decompose(g, job);
    let b = g.job_band(job);
    lemma_band(g, b);
    lemma_packed_in_bounds(drv, slice, tid, job);
    let mr = drv.shape.mr as int;
    let nr = drv.shape.nr as int;
    let sl = drv.packed_lhs_stride as int;
    let sr = drv.packed_rhs_stride as int;
    let row = tile.row + r;
    let col = slice.col_outer + tile.col + c;
    let depth = slice.depth_outer + d;
    let i = tile.i as int;
    let j = tile.j as int;
    lemma_chunk(g.band_rows(b), mr, i);
    lemma_chunk(slice.n_chunk as int, nr, j);
    lemma_fits_cell(p.dst, p.m as int, p.n as int, tile.row as int, slice.col_outer + tile.col);
    lemma_fits_cell(p.lhs, p.m as int, p.k as int, tile.row as int, slice.depth_outer as int);
    lemma_fits_cell(p.lhs, p.m as int, p.k as int, row, depth);
    lemma_fits_cell(p.rhs, p.k as int, p.n as int, depth, col);
    lemma_fits_cell(
        p.rhs,
        p.k as int,
        p.n as int,
        slice.depth_outer as int,
        slice.col_outer + tile.col,
    );
    // the output cell
    assert((tile.row + r) * p.dst.rs == tile.row * p.dst.rs + r * p.dst.rs && (slice.col_outer
        + tile.col + c) * p.dst.cs == (slice.col_outer + tile.col) * p.dst.cs + c * p.dst.cs)
        by (nonlinear_arith);
    // the left operand
    assert((slice.depth_outer + d) * p.lhs.cs == slice.depth_outer * p.lhs.cs + d * p.lhs.cs && (
    tile.row + r) * p.lhs.rs == tile.row * p.lhs.rs + r * p.lhs.rs) by (nonlinear_arith);
    vstd::arithmetic::div_mod::lemma_fundamental_div_mod_converse(i * mr + r, mr, i, r);
    assert(d * mr == d * (mr as isize)) by {
        assert(mr as isize == mr);
    }
    assert(r * 1 == r) by (nonlinear_arith);
    // the right operand
    assert((slice.depth_outer + d) * p.rhs.rs == slice.depth_outer * p.rhs.rs + d * p.rhs.rs && (
    slice.col_outer + tile.col + c) * p.rhs.cs == (slice.col_outer + tile.col) * p.rhs.cs + c
        * p.rhs.cs) by (nonlinear_arith);
    vstd::arithmetic::div_mod::lemma_fundamental_div_mod_converse(j * nr + c, nr, j, c);
    assert(c * 1 == c) by (nonlinear_arith);
    lemma_rhs_slot_in_bounds(drv, slice, d, tile.col + c);
    lemma_lhs_slot_in_bounds(drv, slice, tid, b, i * mr + r, d);
}

/// Every product term reaches its output cell: for the output cell `(row, col)` and the
/// depth index `depth`, the slice that holds them has a job whose tile holds the cell, one
/// thread owns that job, and its call reads the left operand's entry at `(row, depth)` and
/// the right operand's entry at `(depth, col)`, in place or as packed, and writes the
/// output cell `(row, col)`.
pub proof fn lemma_term_reaches_cell(drv: Driver, row: int, col: int, depth: int)
    requires
        drv.wf(),
        0 <= row < drv.problem.m,
        0 <= col < drv.problem.n,
        0 <= depth < drv.problem.k,
    ensures
        ({
            let p = drv.problem;
            let s = drv.slice_spec(col / (drv.blocks.nc as int), depth / (drv.blocks.kc as int));
            let g = drv.grid(s.n_chunk as int);
            let job = g.cell_job(row, col - s.col_outer);
            let tid = job_owner(job, s.n_jobs as int, s.n_threads as int);
            let call = drv.call_spec(s, tid, job);
            let r = row - call.tile.row;
            let c = col - s.col_outer - call.tile.col;
            let d = depth - s.depth_outer;
            &&& drv.has_slice(s)
            &&& 0 <= tid < s.n_threads
            &&& job_start(tid, s.n_jobs as int, s.n_threads as int) <= job < job_end(
                tid,
                s.n_jobs as int,
                s.n_threads as int,
            )
            &&& 0 <= r < call.tile.m_tile
            &&& 0 <= c < call.tile.n_tile
            &&& 0 <= d < call.k_chunk
            &&& call.dst + r * call.dst_rs + c * call.dst_cs == p.dst.at(row, col)
            &&& match call.lhs {
                Operand::Packed(at) => {
                    let mv = drv.lhs_move_spec(
                        s,
                        tid,
                        call.tile.row_outer as int,
                        row - call.tile.row_outer,
                        d,
                    );
                    at + r + d * call.lhs_cs == mv.dst && mv.src == p.lhs.at(row, depth)
                },
                Operand::Source(at) => at + r + d * call.lhs_cs == p.lhs.at(row, depth),
            }
            &&& match call.rhs {
                Operand::Packed(at) => {
                    let mv = drv.rhs_move_spec(s, d, col - s.col_outer);
                    at + d * call.rhs_rs + c * call.rhs_cs == mv.dst && mv.src == p.rhs.at(
                        depth,
                        col,
                    )
                },
                Operand::Source(at) => at + d * call.rhs_rs + c * call.rhs_cs == p.rhs.at(
                    depth,
                    col,
                ),
            }
        }),
{
    let panel = col / (drv.blocks.nc as int);
    let step = depth / (drv.blocks.kc as int);
    lemma_term_once(drv, col, depth, panel, step);
    let s = drv.slice_spec(panel, step);
    lemma_slice(drv, panel, step);
    let g = drv.grid(s.n_chunk as int);
    let job = g.cell_job(row, col - s.col_outer);
    lemma_every_cell_once(drv, s, row, col - s.col_outer, 0, 0);
    let tid = job_owner(job, s.n_jobs as int, s.n_threads as int);
    let call = drv.call_spec(s, tid, job);
    lemma_tile_spec(g, job, call.tile);
    lemma_job_decompose(g, job);
    lemma_tile_in_bounds(g, job);
    let r = row - call.tile.row;
    let c = col - s.col_outer - call.tile.col;
    let d = depth - s.depth_outer;
    lemma_call_operands(drv, s, tid, job, r, c, d);
    assert(call.tile.i * drv.shape.mr + r == row - call.tile.row_outer);
}

} // verus!
