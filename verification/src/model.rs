//! The multiply in exact arithmetic.
//!
//! The elements are taken as integers and a matrix as a function from element offsets to
//! values. Under the contract of the kernels, a call stores in every cell of its tile the
//! old value, treated as its mode says, plus `beta` times the sum of the products of the
//! operand entries that it reads. The laws here say that these sums are the right partial
//! products, that the slices of a panel add up to `alpha * D + beta * L * R`, and that
//! every plan, blocked or not, leaves that value in every cell of the output.

use crate::calls::{lemma_every_cell_once, KernelCall, Operand};
use crate::driver::{lemma_build_wf, lemma_slice, Driver, Slice};
use crate::pack::lemma_call_operands;
use crate::params::{AlphaMode, BlockSizes, KernelShape};
use crate::partition::job_owner;
use crate::plan::{blocks_for, is_column_vector_like, plan_spec, plannable, RankOneKind, Work};
use crate::problem::{lemma_canonical_cells, lemma_canonical_shape, Problem};
use vstd::prelude::*;

verus! {

/// The part of the product for the output cell `(row, col)` that comes from the depth
/// indices in `[lo, hi)`.
pub open spec fn dot(
    p: Problem,
    lhs: spec_fn(int) -> int,
    rhs: spec_fn(int) -> int,
    row: int,
    col: int,
    lo: int,
    hi: int,
) -> int
    decreases hi - lo,
{
    if hi <= lo {
        0
    } else {
        dot(p, lhs, rhs, row, col, lo, hi - 1) + lhs(p.lhs.at(row, hi - 1)) * rhs(
            p.rhs.at(hi - 1, col),
        )
    }
}

/// The mode that stands for the factor `alpha`.
pub open spec fn mode_of(alpha: int) -> AlphaMode {
    if alpha == 0 {
        AlphaMode::Zero
    } else if alpha == 1 {
        AlphaMode::One
    } else {
        AlphaMode::General
    }
}

/// What a kernel of mode `mode` stores in a cell that held `old`, where `sum` is the sum of
/// the products for the cell.
pub open spec fn stored(mode: AlphaMode, alpha: int, beta: int, old: int, sum: int) -> int {
    match mode {
        AlphaMode::Zero => beta * sum,
        AlphaMode::One => old + beta * sum,
        AlphaMode::General => alpha * old + beta * sum,
    }
}

/// The entry of the left operand that `call` reads for row `r` of its tile at depth index
/// `d` of its slice: from the packed buffer `packed` or from the matrix `lhs`.
pub open spec fn lhs_read(
    call: KernelCall,
    lhs: spec_fn(int) -> int,
    packed: spec_fn(int) -> int,
    r: int,
    d: int,
) -> int {
    match call.lhs {
        Operand::Packed(at) => packed(at + r + d * call.lhs_cs),
        Operand::Source(at) => lhs(at + r + d * call.lhs_cs),
    }
}

/// The entry of the right operand that `call` reads for column `c` of its tile at depth
/// index `d` of its slice: from the packed buffer `packed` or from the matrix `rhs`.
pub open spec fn rhs_read(
    call: KernelCall,
    rhs: spec_fn(int) -> int,
    packed: spec_fn(int) -> int,
    d: int,
    c: int,
) -> int {
    match call.rhs {
        Operand::Packed(at) => packed(at + d * call.rhs_rs + c * call.rhs_cs),
        Operand::Source(at) => rhs(at + d * call.rhs_rs + c * call.rhs_cs),
    }
}

/// The sum of the products that `call` forms for the cell `(r, c)` of its tile over the
/// first `depth` depth indices of its slice.
pub open spec fn call_sum(
    call: KernelCall,
    lhs: spec_fn(int) -> int,
    rhs: spec_fn(int) -> int,
    packed_lhs: spec_fn(int) -> int,
    packed_rhs: spec_fn(int) -> int,
    r: int,
    c: int,
    depth: int,
) -> int
    decreases depth,
{
    if depth <= 0 {
        0
    } else {
        call_sum(call, lhs, rhs, packed_lhs, packed_rhs, r, c, depth - 1) + lhs_read(
            call,
            lhs,
            packed_lhs,
            r,
            depth - 1,
        ) * rhs_read(call, rhs, packed_rhs, depth - 1, c)
    }
}

/// Whether `packed` holds the right operand's part of `slice` as packing leaves it.
pub open spec fn rhs_is_packed(
    drv: Driver,
    slice: Slice,
    rhs: spec_fn(int) -> int,
    packed: spec_fn(int) -> int,
) -> bool {
    forall|d: int, c: int|
        0 <= d < slice.k_chunk && 0 <= c < slice.n_chunk ==> packed(
            (#[trigger] drv.rhs_move_spec(slice, d, c)).dst as int,
        ) == rhs(drv.rhs_move_spec(slice, d, c).src as int)
}

/// Whether `packed` holds, in the buffer of thread `tid`, the left operand's part of the
/// band of `m_chunk` rows from row `row_outer` as packing leaves it.
pub open spec fn lhs_is_packed(
    drv: Driver,
    slice: Slice,
    tid: int,
    row_outer: int,
    m_chunk: int,
    lhs: spec_fn(int) -> int,
    packed: spec_fn(int) -> int,
) -> bool {
    forall|row: int, d: int|
        0 <= row < m_chunk && 0 <= d < slice.k_chunk ==> packed(
            (#[trigger] drv.lhs_move_spec(slice, tid, row_outer, row, d)).dst as int,
        ) == lhs(drv.lhs_move_spec(slice, tid, row_outer, row, d).src as int)
}

/// The parts of the product for adjoining ranges of depth indices add up.
pub proof fn lemma_dot_split(
    p: Problem,
    lhs: spec_fn(int) -> int,
    rhs: spec_fn(int) -> int,
    row: int,
    col: int,
    lo: int,
    mid: int,
    hi: int,
)
    requires
        lo <= mid <= hi,
    ensures
        dot(p, lhs, rhs, row, col, lo, hi) == dot(p, lhs, rhs, row, col, lo, mid) + dot(
            p,
            lhs,
            rhs,
            row,
            col,
            mid,
            hi,
        ),
    decreases hi - mid,
{
    if mid < hi {
        lemma_dot_split(p, lhs, rhs, row, col, lo, mid, hi - 1);
    }
}

/// A call forms the right part of the product: where the packed buffers hold the panels
/// of the call's slice and band, the sum of the products that the call forms for a cell of
/// its tile is the part of the product for that output cell from the depth indices of the
/// slice.
pub proof fn lemma_call_computes_dot(
    drv: Driver,
    slice: Slice,
    tid: int,
    job: int,
    lhs: spec_fn(int) -> int,
    rhs: spec_fn(int) -> int,
    packed_lhs: spec_fn(int) -> int,
    packed_rhs: spec_fn(int) -> int,
    r: int,
    c: int,
    depth: int,
)
    requires
        drv.wf(),
        drv.has_slice(slice),
        0 <= tid < slice.n_threads,
        0 <= job < slice.n_jobs,
        0 <= r < drv.call_spec(slice, tid, job).tile.m_tile,
        0 <= c < drv.call_spec(slice, tid, job).tile.n_tile,
        0 <= depth <= slice.k_chunk,
        drv.call_spec(slice, tid, job).rhs is Packed ==> rhs_is_packed(drv, slice, rhs, packed_rhs),
        drv.call_spec(slice, tid, job).lhs is Packed ==> lhs_is_packed(
            drv,
            slice,
            tid,
            drv.call_spec(slice, tid, job).tile.row_outer as int,
            drv.call_spec(slice, tid, job).tile.m_chunk as int,
            lhs,
            packed_lhs,
        ),
    ensures
        call_sum(drv.call_spec(slice, tid, job), lhs, rhs, packed_lhs, packed_rhs, r, c, depth)
            == dot(
            drv.problem,
            lhs,
            rhs,
            drv.call_spec(slice, tid, job).tile.row + r,
            slice.col_outer + drv.call_spec(slice, tid, job).tile.col + c,
            slice.depth_outer as int,
            slice.depth_outer + depth,
        ),
    decreases depth,
{
    if depth > 0 {
        lemma_call_computes_dot(
            drv,
            slice,
            tid,
            job,
            lhs,
            rhs,
            packed_lhs,
            packed_rhs,
            r,
            c,
            depth - 1,
        );
        let d = depth - 1;
        let call = drv.call_spec(slice, tid, job);
        let tile = call.tile;
        lemma_call_operands(drv, slice, tid, job, r, c, d);
        lemma_slice(drv, slice.panel as int, slice.depth as int);
        let g = drv.grid(slice.n_chunk as int);
        crate::tiles::lemma_tile_spec(g, job, tile);
        crate::tiles::lemma_tile_in_bounds(g, job);
        crate::tiles::lemma_job_decompose(g, job);
        if call.lhs is Packed {
            let mv = drv.lhs_move_spec(slice, tid, tile.row_outer as int, tile.i * drv.shape.mr + r, d);
            assert(0 <= tile.i * drv.shape.mr) by (nonlinear_arith)
                requires
                    tile.i >= 0,
                    drv.shape.mr >= 0,
            ;
            assert(packed_lhs(mv.dst as int) == lhs(mv.src as int));
        }
        if call.rhs is Packed {
            let mv = drv.rhs_move_spec(slice, d, tile.col + c);
            assert(packed_rhs(mv.dst as int) == rhs(mv.src as int));
        }
    }
}

impl Driver {
    /// The value of the output cell `(row, col)` after the first `steps` depth slices of
    /// its panel, where it held `old` before the first.
    pub open spec fn cell_after(
        self,
        alpha: int,
        beta: int,
        lhs: spec_fn(int) -> int,
        rhs: spec_fn(int) -> int,
        old: int,
        row: int,
        col: int,
        steps: int,
    ) -> int
        decreases steps,
    {
        if steps <= 0 {
            old
        } else {
            let s = self.slice_spec(col / (self.blocks.nc as int), steps - 1);
            stored(
                s.mode,
                alpha,
                beta,
                self.cell_after(alpha, beta, lhs, rhs, old, row, col, steps - 1),
                dot(
                    self.problem,
                    lhs,
                    rhs,
                    row,
                    col,
                    s.depth_outer as int,
                    s.depth_outer + s.k_chunk,
                ),
            )
        }
    }
}

/// One depth slice takes an output cell one step further: the call that writes the cell
/// in depth slice `step` of its panel stores, by the contract of its kernel, the value of
/// the cell after `step + 1` slices where the cell held its value after `step` slices.
pub proof fn lemma_slice_step(
    drv: Driver,
    alpha: int,
    beta: int,
    lhs: spec_fn(int) -> int,
    rhs: spec_fn(int) -> int,
    packed_lhs: spec_fn(int) -> int,
    packed_rhs: spec_fn(int) -> int,
    old: int,
    row: int,
    col: int,
    step: int,
)
    requires
        drv.wf(),
        0 <= row < drv.problem.m,
        0 <= col < drv.problem.n,
        0 <= step < drv.n_depths(),
        ({
            let s = drv.slice_spec(col / (drv.blocks.nc as int), step);
            let job = drv.grid(s.n_chunk as int).cell_job(row, col - s.col_outer);
            let tid = job_owner(job, s.n_jobs as int, s.n_threads as int);
            let call = drv.call_spec(s, tid, job);
            &&& call.rhs is Packed ==> rhs_is_packed(drv, s, rhs, packed_rhs)
            &&& call.lhs is Packed ==> lhs_is_packed(
                drv,
                s,
                tid,
                call.tile.row_outer as int,
                call.tile.m_chunk as int,
                lhs,
                packed_lhs,
            )
        }),
    ensures
        ({
            let s = drv.slice_spec(col / (drv.blocks.nc as int), step);
            let job = drv.grid(s.n_chunk as int).cell_job(row, col - s.col_outer);
            let tid = job_owner(job, s.n_jobs as int, s.n_threads as int);
            let call = drv.call_spec(s, tid, job);
            let r = row - call.tile.row;
            let c = col - s.col_outer - call.tile.col;
            &&& 0 <= r < call.tile.m_tile
            &&& 0 <= c < call.tile.n_tile
            &&& call.dst + r * call.dst_rs + c * call.dst_cs == drv.problem.dst.at(row, col)
            &&& stored(
                call.mode,
                alpha,
                beta,
                drv.cell_after(alpha, beta, lhs, rhs, old, row, col, step),
                call_sum(call, lhs, rhs, packed_lhs, packed_rhs, r, c, call.k_chunk as int),
            ) == drv.cell_after(alpha, beta, lhs, rhs, old, row, col, step + 1)
        }),
{
    let panel = col / (drv.blocks.nc as int);
    crate::arith::lemma_chunk_of_point(drv.problem.n as int, drv.blocks.nc as int, col);
    lemma_slice(drv, panel, step);
    let s = drv.slice_spec(panel, step);
    let g = drv.grid(s.n_chunk as int);
    let job = g.cell_job(row, col - s.col_outer);
    lemma_every_cell_once(drv, s, row, col - s.col_outer, 0, 0);
    let tid = job_owner(job, s.n_jobs as int, s.n_threads as int);
    let call = drv.call_spec(s, tid, job);
    crate::tiles::lemma_tile_spec(g, job, call.tile);
    let r = row - call.tile.row;
    let c = col - s.col_outer - call.tile.col;
    lemma_call_operands(drv, s, tid, job, r, c, 0);
    lemma_call_computes_dot(
        drv,
        s,
        tid,
        job,
        lhs,
        rhs,
        packed_lhs,
        packed_rhs,
        r,
        c,
        s.k_chunk as int,
    );
}

/// The walk computes the multiply: after all depth slices of its panel, an output cell
/// holds `alpha` times what it held, or nothing of it where the output is not read, plus
/// `beta` times the whole product for the cell. The output is scaled in the first slice
/// only.
pub proof fn lemma_walk_computes_product(
    drv: Driver,
    alpha: int,
    beta: int,
    lhs: spec_fn(int) -> int,
    rhs: spec_fn(int) -> int,
    old: int,
    row: int,
    col: int,
)
    requires
        drv.wf(),
        0 <= col < drv.problem.n,
        drv.alpha == mode_of(alpha),
    ensures
        drv.cell_after(alpha, beta, lhs, rhs, old, row, col, drv.n_depths()) == (if drv.read_dst {
            alpha * old
        } else {
            0
        }) + beta * dot(drv.problem, lhs, rhs, row, col, 0, drv.problem.k as int),
{
    crate::arith::lemma_ceil_div_bounds(drv.problem.k as int, drv.blocks.kc as int);
    lemma_walk_prefix(drv, alpha, beta, lhs, rhs, old, row, col, drv.n_depths());
    crate::arith::lemma_chunk(drv.problem.k as int, drv.blocks.kc as int, drv.n_depths() - 1);
}

/// After the first `steps` depth slices of its panel, an output cell holds the scaled old
/// value plus `beta` times the part of the product from the depth indices of these slices.
pub proof fn lemma_walk_prefix(
    drv: Driver,
    alpha: int,
    beta: int,
    lhs: spec_fn(int) -> int,
    rhs: spec_fn(int) -> int,
    old: int,
    row: int,
    col: int,
    steps: int,
)
    requires
        drv.wf(),
        0 <= col < drv.problem.n,
        drv.alpha == mode_of(alpha),
        1 <= steps <= drv.n_depths(),
    ensures
        ({
            let last = drv.slice_spec(col / (drv.blocks.nc as int), steps - 1);
            drv.cell_after(alpha, beta, lhs, rhs, old, row, col, steps) == (if drv.read_dst {
                alpha * old
            } else {
                0
            }) + beta * dot(
                drv.problem,
                lhs,
                rhs,
                row,
                col,
                0,
                last.depth_outer + last.k_chunk,
            )
        }),
    decreases steps,
{
    let panel = col / (drv.blocks.nc as int);
    crate::arith::lemma_chunk_of_point(drv.problem.n as int, drv.blocks.nc as int, col);
    lemma_slice(drv, panel, steps - 1);
    let s = drv.slice_spec(panel, steps - 1);
    let sum = dot(drv.problem, lhs, rhs, row, col, s.depth_outer as int, s.depth_outer + s.k_chunk);
    if steps == 1 {
        assert(s.depth_outer == 0) by (nonlinear_arith)
            requires
                s.depth_outer == 0 * drv.blocks.kc,
        ;
        assert((alpha == 0 ==> alpha * old == 0) && (alpha == 1 ==> alpha * old == old))
            by (nonlinear_arith);
        assert(drv.cell_after(alpha, beta, lhs, rhs, old, row, col, 0) == old);
    } else {
        lemma_walk_prefix(drv, alpha, beta, lhs, rhs, old, row, col, steps - 1);
        lemma_slice(drv, panel, steps - 2);
        let before = drv.slice_spec(panel, steps - 2);
        crate::arith::lemma_chunk(drv.problem.k as int, drv.blocks.kc as int, steps - 2);
        assert(before.depth_outer + before.k_chunk == s.depth_outer) by (nonlinear_arith)
            requires
                before.depth_outer == (steps - 2) * drv.blocks.kc,
                before.k_chunk == drv.blocks.kc,
                s.depth_outer == (steps - 1) * drv.blocks.kc,
        ;
        let done = dot(drv.problem, lhs, rhs, row, col, 0, s.depth_outer as int);
        lemma_dot_split(
            drv.problem,
            lhs,
            rhs,
            row,
            col,
            0,
            s.depth_outer as int,
            s.depth_outer + s.k_chunk,
        );
        assert(beta * (done + sum) == beta * done + beta * sum) by (nonlinear_arith);
    }
}

/// The canonical form computes the given multiply: the product for a cell of the
/// canonical output is the product for the cell of the given output that it is, formed
/// from the given operands. Where the canonical form exchanges the operands, its left
/// operand is read from the given right one and its right operand from the given left one.
pub proof fn lemma_canonical_dot(
    p: Problem,
    lhs: spec_fn(int) -> int,
    rhs: spec_fn(int) -> int,
    row: int,
    col: int,
    depth: int,
)
    requires
        p.wf(),
        p.m != 0,
        p.n != 0,
        0 <= row < p.canonical().m,
        0 <= col < p.canonical().n,
        0 <= depth,
    ensures
        p.is_turned() ==> dot(p.canonical(), rhs, lhs, row, col, 0, depth) == dot(
            p,
            lhs,
            rhs,
            p.origin_row(row, col),
            p.origin_col(row, col),
            0,
            depth,
        ),
        !p.is_turned() ==> dot(p.canonical(), lhs, rhs, row, col, 0, depth) == dot(
            p,
            lhs,
            rhs,
            p.origin_row(row, col),
            p.origin_col(row, col),
            0,
            depth,
        ),
    decreases depth,
{
    if depth > 0 {
        lemma_canonical_dot(p, lhs, rhs, row, col, depth - 1);
        lemma_canonical_cells(p, row, col, depth - 1);
        lemma_canonical_shape(p);
        let q = p.canonical();
        let a = lhs(p.lhs.at(p.origin_row(row, col), depth - 1));
        let b = rhs(p.rhs.at(depth - 1, p.origin_col(row, col)));
        assert(a * b == b * a) by (nonlinear_arith);
    }
}

/// What an output cell keeps of the value `old` that it held: `alpha` times it, or nothing
/// where the output is not read.
pub open spec fn kept(read_dst: bool, alpha: int, old: int) -> int {
    if read_dst {
        alpha * old
    } else {
        0
    }
}

/// What the update by a product of depth 1 stores in a cell that held `old`, where `a`
/// and `b` are the entries of the left and of the right operand.
pub open spec fn rank_one_value(
    kind: RankOneKind,
    alpha: int,
    beta: int,
    a: int,
    b: int,
    old: int,
) -> int {
    match kind {
        RankOneKind::Fused => a * (beta * b) + old,
        RankOneKind::Scaled => alpha * old + a * (beta * b),
        RankOneKind::Overwrite => a * (beta * b),
    }
}

/// The value of the output cell `(row, col)` that held `start` after the products of the
/// first `depth` depth indices were added one by one, each with its right entry scaled by
/// `beta`.
pub open spec fn added_up(
    p: Problem,
    beta: int,
    lhs: spec_fn(int) -> int,
    rhs: spec_fn(int) -> int,
    start: int,
    row: int,
    col: int,
    depth: int,
) -> int
    decreases depth,
{
    if depth <= 0 {
        start
    } else {
        added_up(p, beta, lhs, rhs, start, row, col, depth - 1) + (beta * rhs(
            p.rhs.at(depth - 1, col),
        )) * lhs(p.lhs.at(row, depth - 1))
    }
}

/// The value that the cell `(row, col)` of the plan's output holds after the work, where
/// it held `old` before and `lhs` and `rhs` are the operands of the plan's problem.
pub open spec fn work_value(
    work: Work,
    q: Problem,
    read_dst: bool,
    alpha: int,
    beta: int,
    lhs: spec_fn(int) -> int,
    rhs: spec_fn(int) -> int,
    old: int,
    row: int,
    col: int,
) -> int {
    match work {
        Work::Nothing => old,
        Work::Scale { read_dst } => kept(read_dst, alpha, old),
        Work::RankOne { kind } => rank_one_value(
            kind,
            alpha,
            beta,
            lhs(q.lhs.at(row, 0)),
            rhs(q.rhs.at(0, col)),
            old,
        ),
        Work::Gemv { read_dst } => added_up(
            q,
            beta,
            lhs,
            rhs,
            kept(read_dst, alpha, old),
            row,
            col,
            q.k as int,
        ),
        Work::Blocked { driver } => driver.cell_after(
            alpha,
            beta,
            lhs,
            rhs,
            old,
            row,
            col,
            driver.n_depths(),
        ),
        Work::Fallback { threaded } => dot(q, lhs, rhs, row, col, 0, q.k as int) * beta + kept(
            read_dst,
            alpha,
            old,
        ),
    }
}

/// Adding the products one by one gives `beta` times the product, on top of the start.
pub proof fn lemma_added_up(
    p: Problem,
    beta: int,
    lhs: spec_fn(int) -> int,
    rhs: spec_fn(int) -> int,
    start: int,
    row: int,
    col: int,
    depth: int,
)
    requires
        0 <= depth,
    ensures
        added_up(p, beta, lhs, rhs, start, row, col, depth) == start + beta * dot(
            p,
            lhs,
            rhs,
            row,
            col,
            0,
            depth,
        ),
    decreases depth,
{
    if depth > 0 {
        lemma_added_up(p, beta, lhs, rhs, start, row, col, depth - 1);
        let a = lhs(p.lhs.at(row, depth - 1));
        let b = rhs(p.rhs.at(depth - 1, col));
        let done = dot(p, lhs, rhs, row, col, 0, depth - 1);
        assert((beta * b) * a == beta * (a * b) && beta * (done + a * b) == beta * done + beta * (a
            * b)) by (nonlinear_arith);
    }
}

/// Every plan computes the multiply. In exact arithmetic, and with kernels that keep
/// their contract, the work of the plan leaves in every cell of the canonical output
/// `alpha` times what the cell held plus `beta` times the product for the cell of the
/// given output that it is, formed from the given operands. Where the output is not read,
/// the result depends neither on what the output held nor on `alpha`.
///
/// `lhs` and `rhs` are the given operands; the plan's operands are these, exchanged where
/// the plan says so.
pub proof fn lemma_plan_computes_product(
    p: Problem,
    read_dst: bool,
    alpha: int,
    beta: int,
    n_threads: int,
    shape: KernelShape,
    blocks: BlockSizes,
    blocks_transposed: BlockSizes,
    simd_stride: int,
    lhs: spec_fn(int) -> int,
    rhs: spec_fn(int) -> int,
    old: int,
    row: int,
    col: int,
)
    requires
        plannable(p, n_threads, shape, blocks, blocks_transposed, simd_stride),
        n_threads <= usize::MAX,
        p.m != 0,
        p.n != 0,
        0 <= row < p.canonical().m,
        0 <= col < p.canonical().n,
    ensures
        ({
            let plan = plan_spec(
                p,
                read_dst,
                mode_of(alpha),
                n_threads,
                shape,
                blocks,
                blocks_transposed,
                simd_stride,
            );
            work_value(
                plan.work,
                plan.problem,
                read_dst,
                alpha,
                beta,
                if plan.turned {
                    rhs
                } else {
                    lhs
                },
                if plan.turned {
                    lhs
                } else {
                    rhs
                },
                old,
                row,
                col,
            ) == kept(read_dst, alpha, old) + beta * dot(
                p,
                lhs,
                rhs,
                p.origin_row(row, col),
                p.origin_col(row, col),
                0,
                p.k as int,
            )
        }),
{
    let plan = plan_spec(
        p,
        read_dst,
        mode_of(alpha),
        n_threads,
        shape,
        blocks,
        blocks_transposed,
        simd_stride,
    );
    let q = p.canonical();
    let l = if plan.turned {
        rhs
    } else {
        lhs
    };
    let r = if plan.turned {
        lhs
    } else {
        rhs
    };
    lemma_canonical_shape(p);
    lemma_canonical_dot(p, lhs, rhs, row, col, p.k as int);
    let product = dot(q, l, r, row, col, 0, q.k as int);
    if p.k == 0 {
        assert(beta * 0 == 0) by (nonlinear_arith);
    } else if p.k == 1 {
        let a = l(q.lhs.at(row, 0));
        let b = r(q.rhs.at(0, col));
        assert(dot(q, l, r, row, col, 0, 0) == 0);
        assert(product == a * b);
        assert(a * (beta * b) == beta * (a * b)) by (nonlinear_arith);
        assert(alpha == 1 ==> alpha * old == old) by (nonlinear_arith);
    } else if is_column_vector_like(q) {
        lemma_added_up(q, beta, l, r, kept(read_dst, alpha, old), row, col, q.k as int);
    } else {
        let chosen = blocks_for(p, blocks, blocks_transposed);
        lemma_build_wf(q, shape, chosen, read_dst, mode_of(alpha), n_threads, simd_stride);
        let drv = Driver::build(q, shape, chosen, read_dst, mode_of(alpha), n_threads, simd_stride);
        lemma_walk_computes_product(drv, alpha, beta, l, r, old, row, col);
    }
}

/// An output that is not read does not matter: where `read_dst` is false, two multiplies
/// that differ in nothing but `alpha` and in what the output held leave the same value in
/// every cell.
pub proof fn lemma_unread_output_does_not_matter(
    p: Problem,
    alpha: int,
    other_alpha: int,
    beta: int,
    n_threads: int,
    shape: KernelShape,
    blocks: BlockSizes,
    blocks_transposed: BlockSizes,
    simd_stride: int,
    lhs: spec_fn(int) -> int,
    rhs: spec_fn(int) -> int,
    old: int,
    other_old: int,
    row: int,
    col: int,
)
    requires
        plannable(p, n_threads, shape, blocks, blocks_transposed, simd_stride),
        n_threads <= usize::MAX,
        p.m != 0,
        p.n != 0,
        0 <= row < p.canonical().m,
        0 <= col < p.canonical().n,
    ensures
        ({
            let a = plan_spec(
                p,
                false,
                mode_of(alpha),
                n_threads,
                shape,
                blocks,
                blocks_transposed,
                simd_stride,
            );
            let b = plan_spec(
                p,
                false,
                mode_of(other_alpha),
                n_threads,
                shape,
                blocks,
                blocks_transposed,
                simd_stride,
            );
            let l = if a.turned {
                rhs
            } else {
                lhs
            };
            let r = if a.turned {
                lhs
            } else {
                rhs
            };
            &&& a.problem == b.problem
            &&& a.turned == b.turned
            &&& work_value(a.work, a.problem, false, alpha, beta, l, r, old, row, col)
                == work_value(b.work, b.problem, false, other_alpha, beta, l, r, other_old, row, col)
        }),
{
    lemma_plan_computes_product(
        p,
        false,
        alpha,
        beta,
        n_threads,
        shape,
        blocks,
        blocks_transposed,
        simd_stride,
        lhs,
        rhs,
        old,
        row,
        col,
    );
    lemma_plan_computes_product(
        p,
        false,
        other_alpha,
        beta,
        n_threads,
        shape,
        blocks,
        blocks_transposed,
        simd_stride,
        lhs,
        rhs,
        other_old,
        row,
        col,
    );
}

} // verus!
