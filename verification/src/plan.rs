//! The entry point: which way a multiply is computed, and with what.

use crate::arith::round_up;
use crate::cache::{kernel_params, kernel_params_spec, CacheSizes};
use crate::driver::{lemma_build_wf, Driver};
use crate::layout::{abs, stride_abs, MatView};
use crate::params::{AlphaMode, BlockSizes, KernelShape, Precision};
use crate::problem::{lemma_canonical_shape, Problem};
use crate::workspace::{cache_line_align, is_cache_line, shape_req};
use vstd::prelude::*;

verus! {

/// The three forms of the update of one output cell by a product of depth 1.
#[derive(Clone, Copy, Debug, PartialEq, Eq, Structural)]
pub enum RankOneKind {
    /// The output is read and `alpha` is 1: the product is added in one fused step.
    Fused,
    /// The output is read: it is scaled by `alpha` and the product is added.
    Scaled,
    /// The output is not read: the product is stored.
    Overwrite,
}

/// The work of a multiply on its canonical form.
#[derive(Clone, Copy, Debug, PartialEq, Eq, Structural)]
pub enum Work {
    /// The output is empty: nothing is read or written.
    Nothing,
    /// The depth is 0: every output cell is scaled by `alpha` where the output is read,
    /// and set to 0 where it is not.
    Scale { read_dst: bool },
    /// The depth is 1: every output cell gets one product.
    RankOne { kind: RankOneKind },
    /// The output has at most four columns and the left operand's row stride is, in
    /// absolute value, no larger than its column stride: the output is scaled or set to 0
    /// as for depth 0, then the products are added depth by depth.
    Gemv { read_dst: bool },
    /// The blocked walk with packing, kernels and threads.
    Blocked { driver: Driver },
    /// There are no kernels for the elements: every output cell is computed by itself
    /// from the multiply as given, without scratch memory. The rows are shared among
    /// threads where `threaded` is set.
    Fallback { threaded: bool },
}

/// The way a multiply is computed.
#[derive(Clone, Copy, Debug, PartialEq, Eq, Structural)]
pub struct Plan {
    /// The multiply in canonical form. Offsets in its views count from the bases of the
    /// caller's matrices.
    pub problem: Problem,
    /// Whether the canonical form exchanges the operands: its left operand is then the
    /// caller's right one, and its right operand the caller's left one.
    pub turned: bool,
    /// What is done with the canonical form.
    pub work: Work,
}

impl Plan {
    /// The plan can be carried out: unless nothing is done or the multiply is done as
    /// given, the views of its problem fit their matrices, the output is not empty and its
    /// strides are not negative; the walk of a blocked plan is valid and is a walk of the
    /// plan's problem.
    pub open spec fn wf(self) -> bool {
        match self.work {
            Work::Nothing => true,
            Work::Fallback { threaded } => !self.turned,
            Work::Blocked { driver } => driver.wf() && driver.problem == self.problem
                && driver.problem.dst.rs >= 0 && driver.problem.dst.cs >= 0,
            _ => self.problem.wf() && self.problem.m > 0 && self.problem.n > 0
                && self.problem.dst.rs >= 0 && self.problem.dst.cs >= 0,
        }
    }
}

impl RankOneKind {
    /// The form for the caller's `read_dst` and `alpha`.
    pub open spec fn of(read_dst: bool, alpha: AlphaMode) -> RankOneKind {
        if !read_dst {
            RankOneKind::Overwrite
        } else if alpha == AlphaMode::One {
            RankOneKind::Fused
        } else {
            RankOneKind::Scaled
        }
    }
}

/// Whether the multiply, in canonical form, has at most four columns and a left operand
/// whose row stride is, in absolute value, no larger than its column stride.
pub open spec fn is_column_vector_like(q: Problem) -> bool {
    q.n <= 4 && abs(q.lhs.rs as int) <= abs(q.lhs.cs as int)
}

/// Whether the multiply takes the blocked walk: its output is not empty, its depth is at
/// least 2 and its canonical form is not like a product with a column vector.
pub open spec fn is_blocked(p: Problem) -> bool {
    p.m != 0 && p.n != 0 && p.k >= 2 && !is_column_vector_like(p.canonical())
}

/// The block sizes for the canonical form: those for the transposed multiply where the
/// canonical form exchanges the operands.
pub open spec fn blocks_for(p: Problem, blocks: BlockSizes, blocks_transposed: BlockSizes)
    -> BlockSizes {
    if p.is_turned() {
        blocks_transposed
    } else {
        blocks
    }
}

/// Whether the plan of the multiply can be made. For an empty output it always can.
/// Otherwise the views must fit their matrices and, where the blocked walk is taken, it
/// must be possible to set it up.
pub open spec fn plannable(
    p: Problem,
    n_threads: int,
    shape: KernelShape,
    blocks: BlockSizes,
    blocks_transposed: BlockSizes,
    simd_stride: int,
) -> bool {
    ||| p.m == 0
    ||| p.n == 0
    ||| (p.wf() && (is_blocked(p) ==> Driver::admits(
        p.canonical(),
        shape,
        blocks_for(p, blocks, blocks_transposed),
        n_threads,
        simd_stride,
    )))
}

/// The work of the multiply `p`.
pub open spec fn work_spec(
    p: Problem,
    read_dst: bool,
    alpha: AlphaMode,
    n_threads: int,
    shape: KernelShape,
    blocks: BlockSizes,
    blocks_transposed: BlockSizes,
    simd_stride: int,
) -> Work {
    let q = p.canonical();
    if p.m == 0 || p.n == 0 {
        Work::Nothing
    } else if p.k == 0 {
        Work::Scale { read_dst }
    } else if p.k == 1 {
        Work::RankOne { kind: RankOneKind::of(read_dst, alpha) }
    } else if is_column_vector_like(q) {
        Work::Gemv { read_dst }
    } else {
        Work::Blocked {
            driver: Driver::build(
                q,
                shape,
                blocks_for(p, blocks, blocks_transposed),
                read_dst,
                alpha,
                n_threads,
                simd_stride,
            ),
        }
    }
}

/// The plan of the multiply `p`.
pub open spec fn plan_spec(
    p: Problem,
    read_dst: bool,
    alpha: AlphaMode,
    n_threads: int,
    shape: KernelShape,
    blocks: BlockSizes,
    blocks_transposed: BlockSizes,
    simd_stride: int,
) -> Plan {
    Plan {
        problem: p.canonical(),
        turned: p.is_turned(),
        work: work_spec(
            p,
            read_dst,
            alpha,
            n_threads,
            shape,
            blocks,
            blocks_transposed,
            simd_stride,
        ),
    }
}

/// The plan of the multiply `p`, or `None` where none can be made: where the output is
/// not empty and a view does not fit its matrix on this machine or the blocked walk cannot
/// be set up. For an empty output the plan is to do nothing, whatever the strides.
///
/// `blocks` are the cache block sizes for the multiply as given, `blocks_transposed` those
/// for the transposed one; `simd_stride` is the number of elements to a cache line.
pub fn try_gemm_plan(
    p: Problem,
    read_dst: bool,
    alpha: AlphaMode,
    n_threads: usize,
    shape: KernelShape,
    blocks: BlockSizes,
    blocks_transposed: BlockSizes,
    simd_stride: usize,
) -> (plan: Option<Plan>)
    ensures
        plan.is_some() == plannable(
            p,
            n_threads as int,
            shape,
            blocks,
            blocks_transposed,
            simd_stride as int,
        ),
        plan.is_some() ==> plan.unwrap() == plan_spec(
            p,
            read_dst,
            alpha,
            n_threads as int,
            shape,
            blocks,
            blocks_transposed,
            simd_stride as int,
        ),
        plan.is_some() ==> plan.unwrap().wf(),
{
    if p.m == 0 || p.n == 0 {
        return Some(Plan { problem: p, turned: false, work: Work::Nothing });
    }
    if !p.is_valid() {
        return None;
    }
    proof {
        lemma_canonical_shape(p);
    }
    let q = p.canonicalize();
    let turned: bool = turns_operands(&p);
    if p.k == 0 {
        return Some(Plan { problem: q, turned, work: Work::Scale { read_dst } });
    }
    if p.k == 1 {
        let kind = if !read_dst {
            RankOneKind::Overwrite
        } else {
            match alpha {
                AlphaMode::One => RankOneKind::Fused,
                _ => RankOneKind::Scaled,
            }
        };
        return Some(Plan { problem: q, turned, work: Work::RankOne { kind } });
    }
    proof {
        lemma_canonical_shape(p);
    }
    if q.n <= 4 && stride_abs(q.lhs.rs) <= stride_abs(q.lhs.cs) {
        return Some(Plan { problem: q, turned, work: Work::Gemv { read_dst } });
    }
    let chosen = if turned {
        blocks_transposed
    } else {
        blocks
    };
    match Driver::new(q, shape, chosen, read_dst, alpha, n_threads, simd_stride) {
        Some(driver) => Some(Plan { problem: q, turned, work: Work::Blocked { driver } }),
        None => None,
    }
}

/// Whether the canonical form of `p` exchanges the roles of the two operands.
pub fn turns_operands(p: &Problem) -> (turned: bool)
    requires
        p.wf(),
    ensures
        turned == p.is_turned(),
{
    if p.m == 0 || p.n == 0 {
        return false;
    }
    proof {
        crate::problem::lemma_rows_flipped(*p, 0, 0, 0);
        if p.dst.cs < 0 {
            if p.dst.rs < 0 {
                crate::problem::lemma_cols_flipped(p.rows_flipped(), 0, 0, 0);
            } else {
                crate::problem::lemma_cols_flipped(*p, 0, 0, 0);
            }
        }
        crate::problem::lemma_transposed(p.rows_forward().cols_forward(), 0, 0, 0);
    }
    // strides of the output and of the right operand once rows and columns run forward
    let dst_rs: usize = stride_abs(p.dst.rs);
    let dst_cs: usize = stride_abs(p.dst.cs);
    let wide: bool = dst_cs < dst_rs;
    let rhs_rs: usize = stride_abs(p.rhs.rs);
    let rhs_cs: usize = stride_abs(p.rhs.cs);
    let lhs_rs: usize = stride_abs(p.lhs.rs);
    let lhs_cs: usize = stride_abs(p.lhs.cs);
    let row_vector_like: bool = if wide {
        p.n <= 4 && lhs_rs <= lhs_cs
    } else {
        p.m <= 4 && rhs_cs <= rhs_rs
    };
    wide != row_vector_like
}

/// The plan of the multiply `p`.
///
/// `blocks` are the cache block sizes for the multiply as given, `blocks_transposed` those
/// for the transposed one; `simd_stride` is the number of elements to a cache line.
pub fn gemm_plan(
    p: Problem,
    read_dst: bool,
    alpha: AlphaMode,
    n_threads: usize,
    shape: KernelShape,
    blocks: BlockSizes,
    blocks_transposed: BlockSizes,
    simd_stride: usize,
) -> (plan: Plan)
    requires
        plannable(p, n_threads as int, shape, blocks, blocks_transposed, simd_stride as int),
    ensures
        plan == plan_spec(
            p,
            read_dst,
            alpha,
            n_threads as int,
            shape,
            blocks,
            blocks_transposed,
            simd_stride as int,
        ),
{
    match try_gemm_plan(
        p,
        read_dst,
        alpha,
        n_threads,
        shape,
        blocks,
        blocks_transposed,
        simd_stride,
    ) {
        Some(plan) => plan,
        None => Plan { problem: p, turned: false, work: Work::Nothing },
    }
}

/// The multiply of the given extents and strides, with offset 0 in each matrix.
pub open spec fn problem_of(
    m: usize,
    n: usize,
    k: usize,
    dst_cs: isize,
    dst_rs: isize,
    lhs_cs: isize,
    lhs_rs: isize,
    rhs_cs: isize,
    rhs_rs: isize,
) -> Problem {
    Problem {
        m,
        n,
        k,
        dst: MatView { offset: 0, rs: dst_rs, cs: dst_cs },
        lhs: MatView { offset: 0, rs: lhs_rs, cs: lhs_cs },
        rhs: MatView { offset: 0, rs: rhs_rs, cs: rhs_cs },
    }
}

/// The block sizes for a multiply of `m` by `n` by `k`, or none for a tile shape without
/// rows or columns.
pub open spec fn blocks_of(
    m: int,
    n: int,
    k: int,
    shape: KernelShape,
    elem_bytes: int,
    caches: CacheSizes,
) -> BlockSizes {
    if shape.mr > 0 && shape.nr > 0 {
        kernel_params_spec(m, n, k, shape.mr as int, shape.nr as int, elem_bytes, caches)
    } else {
        BlockSizes { mc: 0, nc: 0, kc: 0 }
    }
}

/// Whether the plan of the multiply `p` for elements of kind `kind` can be made, for cache
/// lines of `align` bytes. With no kernels for the elements it always can.
pub open spec fn gemm_ready(
    kind: Option<Precision>,
    p: Problem,
    n_threads: int,
    shape: KernelShape,
    caches: CacheSizes,
    align: int,
) -> bool {
    match kind {
        Some(precision) => plannable(
            p,
            n_threads,
            shape,
            blocks_of(p.m as int, p.n as int, p.k as int, shape, precision.bytes(), caches),
            blocks_of(p.n as int, p.m as int, p.k as int, shape, precision.bytes(), caches),
            align / precision.bytes(),
        ),
        None => true,
    }
}

/// The plan of the multiply `p` for elements of kind `kind`, for cache lines of `align`
/// bytes. With kernels for the elements it is the plan for the block sizes of the multiply
/// as given and of the transposed one. Without, an empty output needs nothing, and any
/// other is computed cell by cell from the multiply as given, on several threads unless
/// one thread is offered.
pub open spec fn gemm_spec(
    kind: Option<Precision>,
    p: Problem,
    read_dst: bool,
    alpha: AlphaMode,
    n_threads: int,
    shape: KernelShape,
    caches: CacheSizes,
    align: int,
) -> Plan {
    match kind {
        Some(precision) => plan_spec(
            p,
            read_dst,
            alpha,
            n_threads,
            shape,
            blocks_of(p.m as int, p.n as int, p.k as int, shape, precision.bytes(), caches),
            blocks_of(p.n as int, p.m as int, p.k as int, shape, precision.bytes(), caches),
            align / precision.bytes(),
        ),
        None => Plan {
            problem: p,
            turned: false,
            work: if p.m == 0 || p.n == 0 {
                Work::Nothing
            } else {
                Work::Fallback { threaded: n_threads != 1 }
            },
        },
    }
}

/// The block sizes for a multiply of `m` by `n` by `k`, or none for a tile shape without
/// rows or columns.
fn blocks_for_shape(
    m: usize,
    n: usize,
    k: usize,
    shape: KernelShape,
    elem_bytes: usize,
    caches: CacheSizes,
) -> (blocks: BlockSizes)
    requires
        elem_bytes > 0,
    ensures
        blocks == blocks_of(m as int, n as int, k as int, shape, elem_bytes as int, caches),
{
    if shape.mr > 0 && shape.nr > 0 {
        kernel_params(m, n, k, shape.mr, shape.nr, elem_bytes, caches)
    } else {
        BlockSizes { mc: 0, nc: 0, kc: 0 }
    }
}

/// The plan of the multiply `D <- alpha * D + beta * L * R` of an `m` by `k` matrix `L` and
/// a `k` by `n` matrix `R` for cache lines of `align` bytes, or `None` where none can be
/// made.
///
/// `kind` is the precision of the elements, or `None` for elements for which there are no
/// kernels. Strides count elements. `shape` is the tile shape of the kernels and `caches`
/// are the capacities of the caches. For an empty output the plan is to do nothing,
/// whatever the strides.
pub fn try_gemm_aligned(
    kind: Option<Precision>,
    m: usize,
    n: usize,
    k: usize,
    dst_cs: isize,
    dst_rs: isize,
    read_dst: bool,
    lhs_cs: isize,
    lhs_rs: isize,
    rhs_cs: isize,
    rhs_rs: isize,
    alpha: AlphaMode,
    n_threads: usize,
    shape: KernelShape,
    caches: CacheSizes,
    align: usize,
) -> (plan: Option<Plan>)
    ensures
        plan.is_some() == gemm_ready(
            kind,
            problem_of(m, n, k, dst_cs, dst_rs, lhs_cs, lhs_rs, rhs_cs, rhs_rs),
            n_threads as int,
            shape,
            caches,
            align as int,
        ),
        plan.is_some() ==> plan.unwrap() == gemm_spec(
            kind,
            problem_of(m, n, k, dst_cs, dst_rs, lhs_cs, lhs_rs, rhs_cs, rhs_rs),
            read_dst,
            alpha,
            n_threads as int,
            shape,
            caches,
            align as int,
        ),
        plan.is_some() ==> plan.unwrap().wf(),
        (m == 0 || n == 0) ==> plan == Some(
            Plan {
                problem: problem_of(m, n, k, dst_cs, dst_rs, lhs_cs, lhs_rs, rhs_cs, rhs_rs),
                turned: false,
                work: Work::Nothing,
            },
        ),
{
    let p = Problem {
        m,
        n,
        k,
        dst: MatView { offset: 0, rs: dst_rs, cs: dst_cs },
        lhs: MatView { offset: 0, rs: lhs_rs, cs: lhs_cs },
        rhs: MatView { offset: 0, rs: rhs_rs, cs: rhs_cs },
    };
    match kind {
        None => {
            let work = if m == 0 || n == 0 {
                Work::Nothing
            } else {
                Work::Fallback { threaded: n_threads != 1 }
            };
            Some(Plan { problem: p, turned: false, work })
        },
        Some(precision) => {
            let bytes: usize = precision.size();
            let blocks = blocks_for_shape(m, n, k, shape, bytes, caches);
            let blocks_transposed = blocks_for_shape(n, m, k, shape, bytes, caches);
            let simd_stride: usize = align / bytes;
            try_gemm_plan(
                p,
                read_dst,
                alpha,
                n_threads,
                shape,
                blocks,
                blocks_transposed,
                simd_stride,
            )
        },
    }
}

/// The plan of the multiply `D <- alpha * D + beta * L * R` of an `m` by `k` matrix `L` and
/// a `k` by `n` matrix `R` on this machine, or `None` where none can be made.
///
/// `kind` is the precision of the elements, or `None` for elements for which there are no
/// kernels. Strides count elements. `shape` is the tile shape of the kernels and `caches`
/// are the capacities of the caches. The plan is that for cache lines of this machine's
/// size. For an empty output it is to do nothing, whatever the strides.
pub fn try_gemm(
    kind: Option<Precision>,
    m: usize,
    n: usize,
    k: usize,
    dst_cs: isize,
    dst_rs: isize,
    read_dst: bool,
    lhs_cs: isize,
    lhs_rs: isize,
    rhs_cs: isize,
    rhs_rs: isize,
    alpha: AlphaMode,
    n_threads: usize,
    shape: KernelShape,
    caches: CacheSizes,
) -> (plan: Option<Plan>)
    ensures
        exists|align: int| #[trigger]
            is_cache_line(align) && plan.is_some() == gemm_ready(
                kind,
                problem_of(m, n, k, dst_cs, dst_rs, lhs_cs, lhs_rs, rhs_cs, rhs_rs),
                n_threads as int,
                shape,
                caches,
                align,
            ) && (plan.is_some() ==> plan.unwrap() == gemm_spec(
                kind,
                problem_of(m, n, k, dst_cs, dst_rs, lhs_cs, lhs_rs, rhs_cs, rhs_rs),
                read_dst,
                alpha,
                n_threads as int,
                shape,
                caches,
                align,
            )),
        plan.is_some() ==> plan.unwrap().wf(),
        (m == 0 || n == 0) ==> plan == Some(
            Plan {
                problem: problem_of(m, n, k, dst_cs, dst_rs, lhs_cs, lhs_rs, rhs_cs, rhs_rs),
                turned: false,
                work: Work::Nothing,
            },
        ),
        kind.is_none() ==> plan.is_some(),
{
    let align: usize = cache_line_align();
    try_gemm_aligned(
        kind,
        m,
        n,
        k,
        dst_cs,
        dst_rs,
        read_dst,
        lhs_cs,
        lhs_rs,
        rhs_cs,
        rhs_rs,
        alpha,
        n_threads,
        shape,
        caches,
        align,
    )
}

/// The plan of the multiply `D <- alpha * D + beta * L * R` of an `m` by `k` matrix `L` and
/// a `k` by `n` matrix `R` on this machine.
///
/// `kind` is the precision of the elements, or `None` for elements for which there are no
/// kernels. Strides count elements. `shape` is the tile shape of the kernels and `caches`
/// are the capacities of the caches. The plan is that for cache lines of this machine's
/// size. For an empty output it is to do nothing, whatever the strides.
pub fn gemm(
    kind: Option<Precision>,
    m: usize,
    n: usize,
    k: usize,
    dst_cs: isize,
    dst_rs: isize,
    read_dst: bool,
    lhs_cs: isize,
    lhs_rs: isize,
    rhs_cs: isize,
    rhs_rs: isize,
    alpha: AlphaMode,
    n_threads: usize,
    shape: KernelShape,
    caches: CacheSizes,
) -> (plan: Plan)
    requires
        forall|align: int| #[trigger]
            is_cache_line(align) ==> gemm_ready(
                kind,
                problem_of(m, n, k, dst_cs, dst_rs, lhs_cs, lhs_rs, rhs_cs, rhs_rs),
                n_threads as int,
                shape,
                caches,
                align,
            ),
    ensures
        exists|align: int| #[trigger]
            is_cache_line(align) && plan == gemm_spec(
                kind,
                problem_of(m, n, k, dst_cs, dst_rs, lhs_cs, lhs_rs, rhs_cs, rhs_rs),
                read_dst,
                alpha,
                n_threads as int,
                shape,
                caches,
                align,
            ),
        plan.wf(),
        (m == 0 || n == 0) ==> plan.work == Work::Nothing,
{
    match try_gemm(
        kind,
        m,
        n,
        k,
        dst_cs,
        dst_rs,
        read_dst,
        lhs_cs,
        lhs_rs,
        rhs_cs,
        rhs_rs,
        alpha,
        n_threads,
        shape,
        caches,
    ) {
        Some(plan) => plan,
        None => Plan {
            problem: Problem {
                m,
                n,
                k,
                dst: MatView { offset: 0, rs: dst_rs, cs: dst_cs },
                lhs: MatView { offset: 0, rs: lhs_rs, cs: lhs_cs },
                rhs: MatView { offset: 0, rs: rhs_rs, cs: rhs_cs },
            },
            turned: false,
            work: Work::Nothing,
        },
    }
}

/// The region counted for a multiply holds the buffers of every smaller one: where the
/// scratch region of a multiply of `big_m` by `big_n` by `big_k` on `max_threads` threads
/// can be counted, the blocked walk of a multiply with no more rows, columns, depth and
/// threads finds room in it for the shared buffer at its start and, from the next cache
/// line on, for the buffers of all its threads.
pub proof fn lemma_req_holds_walk(
    precision: Precision,
    p: Problem,
    read_dst: bool,
    alpha: AlphaMode,
    threads: int,
    big_m: int,
    big_n: int,
    big_k: int,
    max_threads: int,
    shape: KernelShape,
    caches: CacheSizes,
    align: int,
)
    requires
        p.m <= big_m <= usize::MAX,
        p.n <= big_n <= usize::MAX,
        p.k <= big_k <= usize::MAX,
        threads <= max_threads <= usize::MAX,
        precision.bytes() <= align <= usize::MAX,
        shape_req(Some(precision), big_m, big_n, big_k, max_threads, shape, caches, align).is_ok(),
        gemm_ready(Some(precision), p, threads, shape, caches, align),
        gemm_spec(Some(precision), p, read_dst, alpha, threads, shape, caches, align).work is Blocked,
    ensures
        ({
            let req = shape_req(
                Some(precision),
                big_m,
                big_n,
                big_k,
                max_threads,
                shape,
                caches,
                align,
            ).unwrap();
            let driver = gemm_spec(
                Some(precision),
                p,
                read_dst,
                alpha,
                threads,
                shape,
                caches,
                align,
            ).work->driver;
            let rhs_bytes = driver.rhs_buffer_elems() * precision.bytes();
            let lhs_bytes = driver.lhs_buffer_elems() * precision.bytes();
            &&& driver.wf()
            &&& 0 <= rhs_bytes <= round_up(rhs_bytes, align)
            &&& round_up(rhs_bytes, align) % align == 0
            &&& 0 <= lhs_bytes
            &&& round_up(rhs_bytes, align) + lhs_bytes <= req.size_bytes
        }),
{
    let e = precision.bytes();
    let mr = shape.mr as int;
    let nr = shape.nr as int;
    let ss = align / e;
    let blocks = blocks_of(p.m as int, p.n as int, p.k as int, shape, e, caches);
    let turned = blocks_of(p.n as int, p.m as int, p.k as int, shape, e, caches);
    let chosen = blocks_for(p, blocks, turned);
    let q = p.canonical();
    lemma_build_wf(q, shape, chosen, read_dst, alpha, threads, ss);
    let driver = Driver::build(q, shape, chosen, read_dst, alpha, threads, ss);
    // the region of the multiply itself is no larger than that of the larger one
    crate::workspace::lemma_shape_req_monotone(
        precision,
        p.m as int,
        p.n as int,
        p.k as int,
        threads,
        big_m,
        big_n,
        big_k,
        max_threads,
        shape,
        caches,
        align,
    );
    // and holds the region of either orientation
    crate::workspace::lemma_full_req_covers(shape, blocks, turned, threads, e, align);
    let own = crate::workspace::basic_req(mr, nr, chosen, threads, e, align).unwrap();
    // which holds the buffers of the walk
    let sl = driver.packed_lhs_stride as int;
    let sr = driver.packed_rhs_stride as int;
    let cn = crate::arith::ceil_div(chosen.nc as int, nr);
    let cm = crate::arith::ceil_div(chosen.mc as int, mr);
    crate::arith::lemma_ceil_div_bounds(chosen.nc as int, nr);
    crate::arith::lemma_ceil_div_bounds(chosen.mc as int, mr);
    let t = driver.n_threads as int;
    crate::workspace::lemma_product_monotone(sr, sr, cn, cn);
    crate::workspace::lemma_product_monotone(t, threads, sl, sl);
    crate::workspace::lemma_product_monotone(t * sl, threads * sl, cm, cm);
    crate::workspace::lemma_product_monotone(sr * cn, sr * cn, e, e);
    crate::workspace::lemma_product_monotone(t * sl * cm, threads * sl * cm, e, e);
    crate::arith::lemma_round_up(sr * cn * e, align);
    crate::arith::lemma_round_up(threads * sl * cm * e, align);
}

/// What is planned does not depend on the number of threads: two plans of one multiply
/// for different numbers of threads have the same canonical form and the same work, and
/// where that is the blocked walk, drivers that differ in nothing but the number of
/// threads.
pub proof fn lemma_plan_independent_of_threads(
    p: Problem,
    read_dst: bool,
    alpha: AlphaMode,
    threads: int,
    other_threads: int,
    shape: KernelShape,
    blocks: BlockSizes,
    blocks_transposed: BlockSizes,
    simd_stride: int,
)
    ensures
        ({
            let a = plan_spec(
                p,
                read_dst,
                alpha,
                threads,
                shape,
                blocks,
                blocks_transposed,
                simd_stride,
            );
            let b = plan_spec(
                p,
                read_dst,
                alpha,
                other_threads,
                shape,
                blocks,
                blocks_transposed,
                simd_stride,
            );
            &&& a.problem == b.problem
            &&& a.turned == b.turned
            &&& match a.work {
                Work::Blocked { driver } => b.work matches Work::Blocked { driver: other }
                    && other == (Driver { n_threads: other.n_threads, ..driver }),
                _ => a.work == b.work,
            }
        }),
{
}

/// The same holds of the plans for one machine: for elements with kernels and cache
/// lines of one size, the plans of one multiply for different numbers of threads have the
/// same canonical form, the same block sizes and the same work, and where that is the
/// blocked walk, drivers that differ in nothing but the number of threads.
pub proof fn lemma_gemm_independent_of_threads(
    precision: Precision,
    p: Problem,
    read_dst: bool,
    alpha: AlphaMode,
    threads: int,
    other_threads: int,
    shape: KernelShape,
    caches: CacheSizes,
    align: int,
)
    ensures
        ({
            let a = gemm_spec(Some(precision), p, read_dst, alpha, threads, shape, caches, align);
            let b = gemm_spec(
                Some(precision),
                p,
                read_dst,
                alpha,
                other_threads,
                shape,
                caches,
                align,
            );
            &&& a.problem == b.problem
            &&& a.turned == b.turned
            &&& match a.work {
                Work::Blocked { driver } => b.work matches Work::Blocked { driver: other }
                    && other == (Driver { n_threads: other.n_threads, ..driver }),
                _ => a.work == b.work,
            }
        }),
{
}

} // verus!
