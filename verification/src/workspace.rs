//! Size of the scratch memory that a multiply needs for its packed operands.
//!
//! The right operand's panel is packed once per depth slice into a buffer that all threads
//! read; each thread packs its band of the left operand into a buffer of its own. Both
//! buffers start on a cache line, and so does every packed block in them.

use crate::arith::{
    ceil_div, div_ceil, is_power_of_two, lemma_ceil_div_bounds, lemma_ceil_div_monotone,
    lemma_round_up, lemma_round_up_monotone, round_up,
};
use crate::cache::{kernel_params, kernel_params_spec, CacheSizes};
use crate::params::{BlockSizes, KernelShape, Precision};
use vstd::layout::size_of;
use vstd::prelude::*;

verus! {

/// The error of `dyn_stack`'s size computations, carried through unopened.
#[verifier::external_type_specification]
#[verifier::external_body]
pub struct ExSizeOverflow(dyn_stack::SizeOverflow);

/// A size computation left the range of the machine word.
#[derive(Clone, Copy, Debug, PartialEq, Eq, Structural)]
pub struct Overflow;

/// Bytes and alignment of a scratch region.
#[derive(Clone, Copy, Debug, PartialEq, Eq, Structural)]
pub struct ScratchReq {
    pub size_bytes: usize,
    pub align_bytes: usize,
}

/// `x`, where it is the value of a `usize`.
pub open spec fn fit(x: int) -> Option<int> {
    if 0 <= x <= usize::MAX {
        Some(x)
    } else {
        None
    }
}

/// The product of `a` and `b`, where `a` is there and the product is the value of a `usize`.
pub open spec fn mul_fit(a: Option<int>, b: int) -> Option<int> {
    match a {
        Some(x) => fit(x * b),
        None => None,
    }
}

/// Elements from one packed block to the next: a block of `kc` by `width` elements,
/// rounded up to whole cache lines of `simd_stride` elements.
pub open spec fn packed_stride_spec(kc: int, width: int, simd_stride: int) -> Option<int> {
    match fit(kc * width) {
        Some(block) => fit(round_up(block, simd_stride)),
        None => None,
    }
}

/// Elements of the shared buffer for the packed right operand: one block for each of the
/// column strips of a column panel.
pub open spec fn rhs_elems(blocks: BlockSizes, nr: int, simd_stride: int) -> Option<int> {
    mul_fit(
        packed_stride_spec(blocks.kc as int, nr, simd_stride),
        ceil_div(blocks.nc as int, nr),
    )
}

/// Elements of the buffers for the packed left operand: for each thread one block for each
/// of the row strips of a band.
pub open spec fn lhs_elems(blocks: BlockSizes, mr: int, simd_stride: int, threads: int) -> Option<
    int,
> {
    match packed_stride_spec(blocks.kc as int, mr, simd_stride) {
        Some(stride) => mul_fit(fit(threads * stride), ceil_div(blocks.mc as int, mr)),
        None => None,
    }
}

/// The region for `elems` elements of `elem_bytes` bytes each.
pub open spec fn region(elems: Option<int>, elem_bytes: int, align: int) -> Option<ScratchReq> {
    match mul_fit(elems, elem_bytes) {
        Some(bytes) => Some(ScratchReq { size_bytes: bytes as usize, align_bytes: align as usize }),
        None => None,
    }
}

/// The larger of the two alignments.
pub open spec fn joint_align(a: ScratchReq, b: ScratchReq) -> int {
    if a.align_bytes > b.align_bytes {
        a.align_bytes as int
    } else {
        b.align_bytes as int
    }
}

/// Whether both sizes can be rounded up to the joint alignment within the machine word.
pub open spec fn roundable(a: ScratchReq, b: ScratchReq) -> bool {
    let align = joint_align(a, b);
    a.size_bytes + align - 1 <= usize::MAX && b.size_bytes + align - 1 <= usize::MAX
}

/// The region that holds both `a` and `b` at once, each rounded up to the joint alignment.
pub open spec fn both(a: ScratchReq, b: ScratchReq) -> Option<ScratchReq> {
    let align = joint_align(a, b);
    let total = round_up(a.size_bytes as int, align) + round_up(b.size_bytes as int, align);
    if roundable(a, b) && total <= usize::MAX {
        Some(ScratchReq { size_bytes: total as usize, align_bytes: align as usize })
    } else {
        None
    }
}

/// The region that holds `a` or `b`, one at a time, each rounded up to the joint alignment.
pub open spec fn either(a: ScratchReq, b: ScratchReq) -> Option<ScratchReq> {
    let align = joint_align(a, b);
    let x = round_up(a.size_bytes as int, align);
    let y = round_up(b.size_bytes as int, align);
    if roundable(a, b) {
        Some(
            ScratchReq {
                size_bytes: (if x > y {
                    x
                } else {
                    y
                }) as usize,
                align_bytes: align as usize,
            },
        )
    } else {
        None
    }
}

/// The scratch region of a multiply in one orientation: the shared buffer and, behind it,
/// the threads' buffers.
pub open spec fn basic_req(
    mr: int,
    nr: int,
    blocks: BlockSizes,
    threads: int,
    elem_bytes: int,
    align: int,
) -> Option<ScratchReq> {
    let simd_stride = align / elem_bytes;
    let rhs = region(rhs_elems(blocks, nr, simd_stride), elem_bytes, align);
    let lhs = region(lhs_elems(blocks, mr, simd_stride, threads), elem_bytes, align);
    if packed_stride_spec(blocks.kc as int, nr, simd_stride).is_some() && packed_stride_spec(
        blocks.kc as int,
        mr,
        simd_stride,
    ).is_some() && rhs.is_some() && lhs.is_some() {
        both(rhs.unwrap(), lhs.unwrap())
    } else {
        None
    }
}

/// The scratch region of a multiply that may run as given or transposed: the larger of the
/// regions of the two orientations.
pub open spec fn full_req(
    shape: KernelShape,
    blocks: BlockSizes,
    blocks_transposed: BlockSizes,
    threads: int,
    elem_bytes: int,
    align: int,
) -> Option<ScratchReq> {
    let a = basic_req(shape.mr as int, shape.nr as int, blocks_transposed, threads, elem_bytes, align);
    let b = basic_req(shape.mr as int, shape.nr as int, blocks, threads, elem_bytes, align);
    if a.is_some() && b.is_some() {
        either(a.unwrap(), b.unwrap())
    } else {
        None
    }
}

/// The result that reports `req`, or the overflow where there is none.
pub open spec fn reported(req: Option<ScratchReq>) -> Result<ScratchReq, Overflow> {
    match req {
        Some(r) => Ok(r),
        None => Err(Overflow),
    }
}

/// Whether `align` is the size of a cache line on one of the machines that are known.
pub open spec fn is_cache_line(align: int) -> bool {
    align == 32 || align == 64 || align == 128 || align == 256
}

/// The constant `aligned_vec::CACHELINE_ALIGN`: the cache line size that the crate assumes
/// for the machine the program is built for, one of 32, 64, 128 and 256 bytes.
#[verifier::external_body]
pub(crate) fn cache_line_align() -> (align: usize)
    ensures
        is_cache_line(align as int),
{
    aligned_vec::CACHELINE_ALIGN
}

/// `dyn_stack::StackReq::try_new_aligned`: the requirement for `n` elements of type `T`
/// at alignment `align`. Its size is `n` times the size of `T`; it fails exactly where
/// that product leaves the machine word. The outside function panics where `align` is no
/// power of two or smaller than the alignment of `T`.
#[verifier::external_body]
fn try_new_aligned<T>(n: usize, align: usize) -> (r: Result<ScratchReq, dyn_stack::SizeOverflow>)
    requires
        is_power_of_two(align as int),
        align >= vstd::layout::align_of::<T>(),
    ensures
        r.is_ok() == (n * size_of::<T>() <= usize::MAX),
        r.is_ok() ==> r.unwrap().size_bytes == n * size_of::<T>() && r.unwrap().align_bytes
            == align,
{
    match dyn_stack::StackReq::try_new_aligned::<T>(n, align) {
        Ok(req) => Ok(ScratchReq { size_bytes: req.size_bytes(), align_bytes: req.align_bytes() }),
        Err(e) => Err(e),
    }
}

/// `dyn_stack::StackReq::try_and`: the requirement for holding both `a` and `b` at once.
/// Its alignment is the larger of the two; its size is the sum of the two sizes, each
/// rounded up to that alignment. It fails exactly where a rounding or the sum leaves the
/// machine word.
#[verifier::external_body]
fn try_and(a: ScratchReq, b: ScratchReq) -> (r: Result<ScratchReq, dyn_stack::SizeOverflow>)
    requires
        is_power_of_two(a.align_bytes as int),
        is_power_of_two(b.align_bytes as int),
    ensures
        r.is_ok() == both(a, b).is_some(),
        r.is_ok() ==> r.unwrap() == both(a, b).unwrap(),
{
    let x = dyn_stack::StackReq::new_aligned::<u8>(a.size_bytes, a.align_bytes);
    let y = dyn_stack::StackReq::new_aligned::<u8>(b.size_bytes, b.align_bytes);
    match x.try_and(y) {
        Ok(req) => Ok(ScratchReq { size_bytes: req.size_bytes(), align_bytes: req.align_bytes() }),
        Err(e) => Err(e),
    }
}

/// `dyn_stack::StackReq::try_or`: the requirement for holding `a` or `b`, one at a time.
/// Its alignment is the larger of the two; its size is the larger of the two sizes, each
/// rounded up to that alignment. It fails exactly where a rounding leaves the machine word.
#[verifier::external_body]
fn try_or(a: ScratchReq, b: ScratchReq) -> (r: Result<ScratchReq, dyn_stack::SizeOverflow>)
    requires
        is_power_of_two(a.align_bytes as int),
        is_power_of_two(b.align_bytes as int),
    ensures
        r.is_ok() == either(a, b).is_some(),
        r.is_ok() ==> r.unwrap() == either(a, b).unwrap(),
{
    let x = dyn_stack::StackReq::new_aligned::<u8>(a.size_bytes, a.align_bytes);
    let y = dyn_stack::StackReq::new_aligned::<u8>(b.size_bytes, b.align_bytes);
    match x.try_or(y) {
        Ok(req) => Ok(ScratchReq { size_bytes: req.size_bytes(), align_bytes: req.align_bytes() }),
        Err(e) => Err(e),
    }
}

/// Elements from one packed block to the next, or `None` where the count leaves the
/// machine word.
pub fn packed_stride(kc: usize, width: usize, simd_stride: usize) -> (stride: Option<usize>)
    requires
        simd_stride > 0,
    ensures
        match packed_stride_spec(kc as int, width as int, simd_stride as int) {
            Some(s) => stride == Some(s as usize),
            None => stride.is_none(),
        },
{
    match kc.checked_mul(width) {
        Some(block) => {
            proof {
                lemma_ceil_div_bounds(block as int, simd_stride as int);
            }
            div_ceil(block, simd_stride).checked_mul(simd_stride)
        },
        None => None,
    }
}

/// The scratch region of a multiply in one orientation, for elements of type `T` and cache
/// lines of `align` bytes.
pub fn gemm_basic_req_generic<T>(
    mr: usize,
    nr: usize,
    blocks: BlockSizes,
    max_n_threads: usize,
    align: usize,
) -> (r: Result<ScratchReq, Overflow>)
    requires
        mr > 0,
        nr > 0,
        is_power_of_two(align as int),
        0 < size_of::<T>() <= align,
    ensures
        r == reported(
            basic_req(
                mr as int,
                nr as int,
                blocks,
                max_n_threads as int,
                size_of::<T>() as int,
                align as int,
            ),
        ),
        r.is_ok() ==> r.unwrap().align_bytes == align,
{
    broadcast use vstd::layout::align_properties, vstd::layout::align_nonzero;

    let elem_bytes: usize = core::mem::size_of::<T>();
    let simd_stride: usize = align / elem_bytes;
    proof {
        vstd::arithmetic::div_mod::lemma_fundamental_div_mod(align as int, elem_bytes as int);
        vstd::arithmetic::div_mod::lemma_mod_bound(align as int, elem_bytes as int);
        let rest = (align as int) % (elem_bytes as int);
        assert(simd_stride > 0) by (nonlinear_arith)
            requires
                align == elem_bytes * simd_stride + rest,
                0 <= rest,
                rest < elem_bytes,
                align >= elem_bytes,
        ;
        lemma_ceil_div_bounds(blocks.nc as int, nr as int);
        lemma_ceil_div_bounds(blocks.mc as int, mr as int);
        lemma_align_of_bound::<T>();
    }
    let packed_rhs_stride: usize = match packed_stride(blocks.kc, nr, simd_stride) {
        Some(s) => s,
        None => { return Err(Overflow); },
    };
    let packed_lhs_stride: usize = match packed_stride(blocks.kc, mr, simd_stride) {
        Some(s) => s,
        None => { return Err(Overflow); },
    };
    let rhs_n: usize = match packed_rhs_stride.checked_mul(div_ceil(blocks.nc, nr)) {
        Some(n) => n,
        None => { return Err(Overflow); },
    };
    let lhs_n: usize = match max_n_threads.checked_mul(packed_lhs_stride) {
        Some(n) => match n.checked_mul(div_ceil(blocks.mc, mr)) {
            Some(n) => n,
            None => { return Err(Overflow); },
        },
        None => { return Err(Overflow); },
    };
    let rhs_req: ScratchReq = match try_new_aligned::<T>(rhs_n, align) {
        Ok(req) => req,
        Err(_) => { return Err(Overflow); },
    };
    let lhs_req: ScratchReq = match try_new_aligned::<T>(lhs_n, align) {
        Ok(req) => req,
        Err(_) => { return Err(Overflow); },
    };
    match try_and(rhs_req, lhs_req) {
        Ok(req) => Ok(req),
        Err(_) => Err(Overflow),
    }
}

/// The alignment of a type that has a size is no larger than the size.
pub proof fn lemma_align_of_bound<T>()
    requires
        size_of::<T>() > 0,
    ensures
        0 < vstd::layout::align_of::<T>() <= size_of::<T>(),
{
    broadcast use vstd::layout::align_properties, vstd::layout::align_nonzero;

    let s = size_of::<T>() as int;
    let a = vstd::layout::align_of::<T>() as int;
    vstd::arithmetic::div_mod::lemma_fundamental_div_mod(s, a);
    assert(s >= a) by (nonlinear_arith)
        requires
            s == a * (s / a),
            s > 0,
            a > 0,
    ;
}

/// The scratch region of a multiply that may run as given or transposed, for elements of
/// the size of `T` and cache lines of `align` bytes.
fn either_req<T>(
    shape: KernelShape,
    blocks: BlockSizes,
    blocks_transposed: BlockSizes,
    max_n_threads: usize,
    align: usize,
) -> (r: Result<ScratchReq, Overflow>)
    requires
        shape.mr > 0,
        shape.nr > 0,
        is_power_of_two(align as int),
        0 < size_of::<T>() <= align,
    ensures
        r == reported(
            full_req(
                shape,
                blocks,
                blocks_transposed,
                max_n_threads as int,
                size_of::<T>() as int,
                align as int,
            ),
        ),
{
    let a: ScratchReq = match gemm_basic_req_generic::<T>(
        shape.mr,
        shape.nr,
        blocks_transposed,
        max_n_threads,
        align,
    ) {
        Ok(req) => req,
        Err(e) => { return Err(e); },
    };
    let b: ScratchReq = match gemm_basic_req_generic::<T>(
        shape.mr,
        shape.nr,
        blocks,
        max_n_threads,
        align,
    ) {
        Ok(req) => req,
        Err(e) => { return Err(e); },
    };
    match try_or(a, b) {
        Ok(req) => Ok(req),
        Err(_) => Err(Overflow),
    }
}

/// The requirement of a multiply that uses no scratch memory.
pub open spec fn no_scratch() -> ScratchReq {
    ScratchReq { size_bytes: 0, align_bytes: 1 }
}

/// The scratch region of a multiply with the given block sizes. Elements for which there
/// are no kernels are multiplied without scratch memory, whatever the sizes.
pub open spec fn blocks_req(
    kind: Option<Precision>,
    shape: KernelShape,
    blocks: BlockSizes,
    blocks_transposed: BlockSizes,
    threads: int,
    align: int,
) -> Result<ScratchReq, Overflow> {
    match kind {
        Some(precision) => reported(
            full_req(shape, blocks, blocks_transposed, threads, precision.bytes(), align),
        ),
        None => Ok(no_scratch()),
    }
}

/// The scratch region of a multiply of `m` by `n` by `k`: that for the block sizes of the
/// multiply as given and of the transposed one.
pub open spec fn shape_req(
    kind: Option<Precision>,
    m: int,
    n: int,
    k: int,
    threads: int,
    shape: KernelShape,
    caches: CacheSizes,
    align: int,
) -> Result<ScratchReq, Overflow> {
    match kind {
        Some(precision) => blocks_req(
            kind,
            shape,
            kernel_params_spec(
                m,
                n,
                k,
                shape.mr as int,
                shape.nr as int,
                precision.bytes(),
                caches,
            ),
            kernel_params_spec(
                n,
                m,
                k,
                shape.mr as int,
                shape.nr as int,
                precision.bytes(),
                caches,
            ),
            threads,
            align,
        ),
        None => Ok(no_scratch()),
    }
}

/// The scratch region of a multiply that may run as given or transposed, for elements of
/// kind `kind` and cache lines of `align` bytes. `kind` is `None` for elements for which
/// there are no kernels: they need no scratch memory. `blocks` are the block sizes for the
/// multiply as given, `blocks_transposed` those for the transposed one.
pub fn gemm_req_aligned(
    kind: Option<Precision>,
    shape: KernelShape,
    blocks: BlockSizes,
    blocks_transposed: BlockSizes,
    max_n_threads: usize,
    align: usize,
) -> (r: Result<ScratchReq, Overflow>)
    requires
        kind.is_some() ==> shape.mr > 0 && shape.nr > 0 && is_power_of_two(align as int)
            && kind.unwrap().bytes() <= align,
    ensures
        r == blocks_req(
            kind,
            shape,
            blocks,
            blocks_transposed,
            max_n_threads as int,
            align as int,
        ),
{
    broadcast use vstd::layout::layout_of_primitives;

    // an unsigned integer of the elements' width stands for them: the region depends on
    // the element type by its size only
    match kind {
        None => Ok(ScratchReq { size_bytes: 0, align_bytes: 1 }),
        Some(Precision::Single) => either_req::<u32>(
            shape,
            blocks,
            blocks_transposed,
            max_n_threads,
            align,
        ),
        Some(Precision::Double) => either_req::<u64>(
            shape,
            blocks,
            blocks_transposed,
            max_n_threads,
            align,
        ),
    }
}

/// The scratch region of a multiply with the given block sizes on this machine: the
/// region for the machine's cache line size.
pub fn gemm_req_for_blocks(
    kind: Option<Precision>,
    shape: KernelShape,
    blocks: BlockSizes,
    blocks_transposed: BlockSizes,
    max_n_threads: usize,
) -> (r: Result<ScratchReq, Overflow>)
    requires
        kind.is_some() ==> shape.mr > 0 && shape.nr > 0,
    ensures
        exists|align: int| #[trigger]
            is_cache_line(align) && r == blocks_req(
                kind,
                shape,
                blocks,
                blocks_transposed,
                max_n_threads as int,
                align,
            ),
{
    let align: usize = cache_line_align();
    proof {
        lemma_cache_line_power_of_two(align as int);
    }
    gemm_req_aligned(kind, shape, blocks, blocks_transposed, max_n_threads, align)
}

/// The scratch region of a multiply of `m` by `n` by `k` on at most `max_n_threads`
/// threads, for elements of kind `kind`, kernels of tile shape `shape`, the given caches
/// and cache lines of `align` bytes. `kind` is `None` for elements for which there are no
/// kernels: they need no scratch memory.
///
/// The block sizes are those of the multiply as given and of the transposed one, and the
/// region is the larger of the two.
pub fn gemm_req_shape_aligned(
    kind: Option<Precision>,
    m: usize,
    n: usize,
    k: usize,
    max_n_threads: usize,
    shape: KernelShape,
    caches: CacheSizes,
    align: usize,
) -> (r: Result<ScratchReq, Overflow>)
    requires
        kind.is_some() ==> shape.mr > 0 && shape.nr > 0 && is_power_of_two(align as int)
            && kind.unwrap().bytes() <= align,
    ensures
        r == shape_req(
            kind,
            m as int,
            n as int,
            k as int,
            max_n_threads as int,
            shape,
            caches,
            align as int,
        ),
{
    match kind {
        None => Ok(ScratchReq { size_bytes: 0, align_bytes: 1 }),
        Some(precision) => {
            let bytes: usize = precision.size();
            let blocks = kernel_params(m, n, k, shape.mr, shape.nr, bytes, caches);
            let blocks_transposed = kernel_params(n, m, k, shape.mr, shape.nr, bytes, caches);
            gemm_req_aligned(kind, shape, blocks, blocks_transposed, max_n_threads, align)
        },
    }
}

/// The scratch region of a multiply of `m` by `n` by `k` on at most `max_n_threads`
/// threads on this machine, for elements of kind `kind`, kernels of tile shape `shape` and
/// the given caches: the region for the machine's cache line size. `kind` is `None` for
/// elements for which there are no kernels: they need no scratch memory, whatever the
/// extents and the number of threads.
pub fn gemm_req(
    kind: Option<Precision>,
    m: usize,
    n: usize,
    k: usize,
    max_n_threads: usize,
    shape: KernelShape,
    caches: CacheSizes,
) -> (r: Result<ScratchReq, Overflow>)
    requires
        kind.is_some() ==> shape.mr > 0 && shape.nr > 0,
    ensures
        exists|align: int| #[trigger]
            is_cache_line(align) && r == shape_req(
                kind,
                m as int,
                n as int,
                k as int,
                max_n_threads as int,
                shape,
                caches,
                align,
            ),
        kind.is_none() ==> r == Ok::<ScratchReq, Overflow>(no_scratch()),
{
    let align: usize = cache_line_align();
    proof {
        lemma_cache_line_power_of_two(align as int);
    }
    gemm_req_shape_aligned(kind, m, n, k, max_n_threads, shape, caches, align)
}

/// A product of two factors is no larger than the product of two factors that are no
/// smaller.
pub proof fn lemma_product_monotone(a: int, b: int, c: int, d: int)
    requires
        0 <= a <= b,
        0 <= c <= d,
    ensures
        0 <= a * c <= b * d,
{
    assert(0 <= a * c <= b * d) by (nonlinear_arith)
        requires
            0 <= a <= b,
            0 <= c <= d,
    ;
}

/// A shallower or narrower block has no larger packed stride, and its stride can be
/// counted where that of the larger block can.
pub proof fn lemma_packed_stride_monotone(kc: int, big_kc: int, width: int, simd_stride: int)
    requires
        0 <= kc <= big_kc,
        width >= 0,
        simd_stride > 0,
        packed_stride_spec(big_kc, width, simd_stride).is_some(),
    ensures
        packed_stride_spec(kc, width, simd_stride).is_some(),
        kc * width <= packed_stride_spec(kc, width, simd_stride).unwrap()
            <= packed_stride_spec(big_kc, width, simd_stride).unwrap(),
{
    lemma_product_monotone(kc, big_kc, width, width);
    lemma_round_up(kc * width, simd_stride);
    lemma_round_up(big_kc * width, simd_stride);
    lemma_round_up_monotone(kc * width, big_kc * width, simd_stride);
}

/// The scratch region is large enough for every multiply with no more threads and no
/// larger blocks: where the region of the larger multiply can be counted, so can that of
/// the smaller one, and it is no larger.
pub proof fn lemma_basic_req_monotone(
    mr: int,
    nr: int,
    small: BlockSizes,
    big: BlockSizes,
    threads: int,
    max_threads: int,
    elem_bytes: int,
    align: int,
)
    requires
        mr > 0,
        nr > 0,
        0 < elem_bytes <= align <= usize::MAX,
        small.mc <= big.mc,
        small.nc <= big.nc,
        small.kc <= big.kc,
        0 <= threads <= max_threads,
        basic_req(mr, nr, big, max_threads, elem_bytes, align).is_some(),
    ensures
        basic_req(mr, nr, small, threads, elem_bytes, align).is_some(),
        basic_req(mr, nr, small, threads, elem_bytes, align).unwrap().size_bytes <= basic_req(
            mr,
            nr,
            big,
            max_threads,
            elem_bytes,
            align,
        ).unwrap().size_bytes,
        basic_req(mr, nr, small, threads, elem_bytes, align).unwrap().align_bytes == basic_req(
            mr,
            nr,
            big,
            max_threads,
            elem_bytes,
            align,
        ).unwrap().align_bytes,
{
    let ss = align / elem_bytes;
    vstd::arithmetic::div_mod::lemma_fundamental_div_mod(align, elem_bytes);
    vstd::arithmetic::div_mod::lemma_mod_bound(align, elem_bytes);
    assert(ss > 0) by (nonlinear_arith)
        requires
            align == elem_bytes * ss + align % elem_bytes,
            0 <= align % elem_bytes < elem_bytes,
            align >= elem_bytes,
    ;
    lemma_packed_stride_monotone(small.kc as int, big.kc as int, nr, ss);
    lemma_packed_stride_monotone(small.kc as int, big.kc as int, mr, ss);
    let rs_small = packed_stride_spec(small.kc as int, nr, ss).unwrap();
    let rs_big = packed_stride_spec(big.kc as int, nr, ss).unwrap();
    let ls_small = packed_stride_spec(small.kc as int, mr, ss).unwrap();
    let ls_big = packed_stride_spec(big.kc as int, mr, ss).unwrap();
    assert(0 <= small.kc * nr && 0 <= small.kc * mr) by (nonlinear_arith)
        requires
            mr > 0,
            nr > 0,
    ;
    lemma_ceil_div_bounds(small.nc as int, nr);
    lemma_ceil_div_bounds(small.mc as int, mr);
    lemma_ceil_div_monotone(small.nc as int, big.nc as int, nr);
    lemma_ceil_div_monotone(small.mc as int, big.mc as int, mr);
    let cn_small = ceil_div(small.nc as int, nr);
    let cn_big = ceil_div(big.nc as int, nr);
    let cm_small = ceil_div(small.mc as int, mr);
    let cm_big = ceil_div(big.mc as int, mr);
    // elements of the two buffers
    lemma_product_monotone(rs_small, rs_big, cn_small, cn_big);
    lemma_product_monotone(threads, max_threads, ls_small, ls_big);
    lemma_product_monotone(threads * ls_small, max_threads * ls_big, cm_small, cm_big);
    let re_small = rs_small * cn_small;
    let re_big = rs_big * cn_big;
    let le_small = threads * ls_small * cm_small;
    let le_big = max_threads * ls_big * cm_big;
    // bytes of the two buffers
    lemma_product_monotone(re_small, re_big, elem_bytes, elem_bytes);
    lemma_product_monotone(le_small, le_big, elem_bytes, elem_bytes);
    let rb_small = re_small * elem_bytes;
    let rb_big = re_big * elem_bytes;
    let lb_small = le_small * elem_bytes;
    let lb_big = le_big * elem_bytes;
    lemma_round_up_monotone(rb_small, rb_big, align);
    lemma_round_up_monotone(lb_small, lb_big, align);
    lemma_round_up(rb_small, align);
    lemma_round_up(lb_small, align);
}

/// The region for a multiply that may run either way is large enough for each way.
pub proof fn lemma_full_req_covers(
    shape: KernelShape,
    blocks: BlockSizes,
    blocks_transposed: BlockSizes,
    threads: int,
    elem_bytes: int,
    align: int,
)
    requires
        0 < align <= usize::MAX,
        full_req(shape, blocks, blocks_transposed, threads, elem_bytes, align).is_some(),
    ensures
        ({
            let full = full_req(shape, blocks, blocks_transposed, threads, elem_bytes, align);
            let a = basic_req(shape.mr as int, shape.nr as int, blocks, threads, elem_bytes, align);
            let b = basic_req(
                shape.mr as int,
                shape.nr as int,
                blocks_transposed,
                threads,
                elem_bytes,
                align,
            );
            &&& a.is_some()
            &&& b.is_some()
            &&& a.unwrap().size_bytes <= full.unwrap().size_bytes
            &&& b.unwrap().size_bytes <= full.unwrap().size_bytes
            &&& a.unwrap().align_bytes <= full.unwrap().align_bytes
            &&& b.unwrap().align_bytes <= full.unwrap().align_bytes
        }),
{
    let a = basic_req(shape.mr as int, shape.nr as int, blocks, threads, elem_bytes, align).unwrap();
    let b = basic_req(
        shape.mr as int,
        shape.nr as int,
        blocks_transposed,
        threads,
        elem_bytes,
        align,
    ).unwrap();
    let al = joint_align(b, a);
    lemma_round_up(a.size_bytes as int, al);
    lemma_round_up(b.size_bytes as int, al);
}

/// The region counted for a multiply holds every smaller one: a multiply with no more
/// rows, columns, depth and threads needs a region that can be counted where that of the
/// larger multiply can, of the same alignment and no larger.
pub proof fn lemma_shape_req_monotone(
    precision: Precision,
    m: int,
    n: int,
    k: int,
    threads: int,
    big_m: int,
    big_n: int,
    big_k: int,
    max_threads: int,
    shape: KernelShape,
    caches: CacheSizes,
    align: int,
)
    requires
        m <= big_m <= usize::MAX,
        n <= big_n <= usize::MAX,
        k <= big_k <= usize::MAX,
        0 <= threads <= max_threads,
        shape.mr > 0,
        shape.nr > 0,
        precision.bytes() <= align <= usize::MAX,
        shape_req(Some(precision), big_m, big_n, big_k, max_threads, shape, caches, align).is_ok(),
    ensures
        shape_req(Some(precision), m, n, k, threads, shape, caches, align).is_ok(),
        shape_req(Some(precision), m, n, k, threads, shape, caches, align).unwrap().size_bytes
            <= shape_req(
            Some(precision),
            big_m,
            big_n,
            big_k,
            max_threads,
            shape,
            caches,
            align,
        ).unwrap().size_bytes,
        shape_req(Some(precision), m, n, k, threads, shape, caches, align).unwrap().align_bytes
            == shape_req(
            Some(precision),
            big_m,
            big_n,
            big_k,
            max_threads,
            shape,
            caches,
            align,
        ).unwrap().align_bytes,
{
    let mr = shape.mr as int;
    let nr = shape.nr as int;
    let e = precision.bytes();
    let blocks = kernel_params_spec(m, n, k, mr, nr, e, caches);
    let turned = kernel_params_spec(n, m, k, mr, nr, e, caches);
    let big_blocks = kernel_params_spec(big_m, big_n, big_k, mr, nr, e, caches);
    let big_turned = kernel_params_spec(big_n, big_m, big_k, mr, nr, e, caches);
    crate::cache::lemma_kernel_params_monotone(m, n, k, big_m, big_n, big_k, mr, nr, e, caches);
    crate::cache::lemma_kernel_params_monotone(n, m, k, big_n, big_m, big_k, mr, nr, e, caches);
    lemma_basic_req_monotone(mr, nr, blocks, big_blocks, threads, max_threads, e, align);
    lemma_basic_req_monotone(mr, nr, turned, big_turned, threads, max_threads, e, align);
    let a = basic_req(mr, nr, turned, threads, e, align).unwrap();
    let b = basic_req(mr, nr, blocks, threads, e, align).unwrap();
    let big_a = basic_req(mr, nr, big_turned, max_threads, e, align).unwrap();
    let big_b = basic_req(mr, nr, big_blocks, max_threads, e, align).unwrap();
    let al = joint_align(big_a, big_b);
    lemma_round_up_monotone(a.size_bytes as int, big_a.size_bytes as int, al);
    lemma_round_up_monotone(b.size_bytes as int, big_b.size_bytes as int, al);
    lemma_round_up(a.size_bytes as int, al);
    lemma_round_up(b.size_bytes as int, al);
    lemma_round_up(big_a.size_bytes as int, al);
    lemma_round_up(big_b.size_bytes as int, al);
}

/// Every known cache line size is a power of two.
pub proof fn lemma_cache_line_power_of_two(align: int)
    requires
        is_cache_line(align),
    ensures
        is_power_of_two(align),
{
    reveal_with_fuel(is_power_of_two, 10);
}

} // verus!
