use gemm::cache::{kernel_params, CacheSizes};
use gemm::driver::Driver;
use gemm::layout::MatView;
use gemm::params::{AlphaMode, BlockSizes, Isa, KernelShape, Precision};
use gemm::problem::Problem;
use gemm::workspace::{
    gemm_basic_req_generic, gemm_req, gemm_req_aligned, gemm_req_for_blocks,
    gemm_req_shape_aligned, packed_stride, Overflow, ScratchReq,
};

#[test]
fn packed_stride_is_whole_cache_lines() {
    assert_eq!(packed_stride(16, 4, 16), Some(64));
    assert_eq!(packed_stride(5, 4, 16), Some(32));
    assert_eq!(packed_stride(5, 8, 16), Some(48));
    assert_eq!(packed_stride(1, 1, 16), Some(16));
    assert_eq!(packed_stride(0, 4, 16), Some(0));
    assert_eq!(packed_stride(3, 5, 1), Some(15));
    assert_eq!(packed_stride(usize::MAX, 2, 16), None);
    // the block can be counted, the rounded stride cannot
    assert_eq!(packed_stride(usize::MAX, 1, 16), None);
    assert_eq!(packed_stride(usize::MAX, 1, 1), Some(usize::MAX));
}

#[test]
fn region_of_one_orientation() {
    let shape = Isa::Fma.shape(Precision::Double);
    let blocks = BlockSizes { mc: 24, nc: 8, kc: 16 };
    // shared buffer: 2 blocks of 64 elements; per thread: 2 blocks of 192 elements
    let req = gemm_basic_req_generic::<f64>(shape.mr, shape.nr, blocks, 3, 128);
    assert_eq!(req, Ok(ScratchReq { size_bytes: 1024 + 9216, align_bytes: 128 }));
    // elements of 4 bytes: 32 to a cache line
    let shape = Isa::Fma.shape(Precision::Single);
    let req = gemm_basic_req_generic::<f32>(shape.mr, shape.nr, blocks, 3, 128);
    // blocks of 16 * 4 and 16 * 24 elements
    assert_eq!(req, Ok(ScratchReq { size_bytes: 4 * 2 * 64 + 4 * 3 * 384 * 1, align_bytes: 128 }));
}

#[test]
fn region_rounds_each_buffer_up_to_the_cache_line() {
    // one block of 3 elements of 8 bytes on either side, cache lines of 32 bytes
    let blocks = BlockSizes { mc: 1, nc: 1, kc: 3 };
    let req = gemm_basic_req_generic::<f64>(1, 1, blocks, 1, 32);
    assert_eq!(req, Ok(ScratchReq { size_bytes: 64, align_bytes: 32 }));
    // cache lines of 16 bytes hold 2 elements: strides of 4 elements
    let req = gemm_basic_req_generic::<f64>(1, 1, blocks, 1, 16);
    assert_eq!(req, Ok(ScratchReq { size_bytes: 64, align_bytes: 16 }));
    // no thread: only the shared buffer
    let req = gemm_basic_req_generic::<f64>(1, 1, blocks, 0, 32);
    assert_eq!(req, Ok(ScratchReq { size_bytes: 32, align_bytes: 32 }));
    // elements of one byte: 5 bytes are rounded up to the cache line
    let blocks = BlockSizes { mc: 1, nc: 1, kc: 5 };
    let req = gemm_basic_req_generic::<u8>(1, 1, blocks, 1, 1);
    assert_eq!(req, Ok(ScratchReq { size_bytes: 10, align_bytes: 1 }));
}

#[test]
fn region_grows_with_threads_and_blocks() {
    let shape = Isa::Avx.shape(Precision::Double);
    let blocks = BlockSizes { mc: 64, nc: 32, kc: 40 };
    let size = |blocks: BlockSizes, threads: usize| {
        gemm_basic_req_generic::<f64>(shape.mr, shape.nr, blocks, threads, 64).unwrap().size_bytes
    };
    let full = size(blocks, 8);
    for threads in 0..8 {
        assert!(size(blocks, threads) <= size(blocks, threads + 1));
        assert!(size(blocks, threads) <= full);
    }
    for mc in [8, 16, 63, 64] {
        for nc in [4, 31, 32] {
            for kc in [1, 39, 40] {
                assert!(size(BlockSizes { mc, nc, kc }, 8) <= full);
            }
        }
    }
}

#[test]
fn region_for_either_orientation_is_the_larger_one() {
    let shape = Isa::Fma.shape(Precision::Double);
    let small = BlockSizes { mc: 24, nc: 8, kc: 16 };
    let large = BlockSizes { mc: 48, nc: 8, kc: 16 };
    let a = gemm_basic_req_generic::<f64>(shape.mr, shape.nr, small, 3, 128).unwrap();
    let b = gemm_basic_req_generic::<f64>(shape.mr, shape.nr, large, 3, 128).unwrap();
    assert_eq!(a.size_bytes, 10240);
    assert_eq!(b.size_bytes, 1024 + 2 * 9216);
    assert_eq!(gemm_req_aligned(Some(Precision::Double), shape, small, large, 3, 128), Ok(b));
    assert_eq!(gemm_req_aligned(Some(Precision::Double), shape, large, small, 3, 128), Ok(b));
    assert_eq!(gemm_req_aligned(Some(Precision::Double), shape, small, small, 3, 128), Ok(a));
}

#[test]
fn region_for_this_machine() {
    let shape = Isa::Fma.shape(Precision::Double);
    let blocks = BlockSizes { mc: 24, nc: 8, kc: 16 };
    let req = gemm_req_for_blocks(Some(Precision::Double), shape, blocks, blocks, 3).unwrap();
    assert!([32, 64, 128, 256].contains(&req.align_bytes));
    assert_eq!(gemm_req_aligned(Some(Precision::Double), shape, blocks, blocks, 3, req.align_bytes), Ok(req));
    // blocks of 64 and 192 elements are whole cache lines of any size
    assert_eq!(req.size_bytes, 10240);
}

#[test]
fn sizes_that_leave_the_machine_word() {
    let shape = KernelShape { lanes: 1, mr: 2, nr: 4 };
    let huge_kc = BlockSizes { mc: 2, nc: 4, kc: usize::MAX / 2 };
    assert_eq!(gemm_basic_req_generic::<f64>(2, 4, huge_kc, 1, 64), Err(Overflow));
    // the strides can be counted, the buffers cannot
    let huge_nc = BlockSizes { mc: 2, nc: usize::MAX, kc: 16 };
    assert_eq!(gemm_basic_req_generic::<f64>(2, 4, huge_nc, 1, 64), Err(Overflow));
    let huge_mc = BlockSizes { mc: usize::MAX, nc: 4, kc: 16 };
    assert_eq!(gemm_basic_req_generic::<f64>(2, 4, huge_mc, 1, 64), Err(Overflow));
    let blocks = BlockSizes { mc: 2, nc: 4, kc: 16 };
    assert_eq!(gemm_basic_req_generic::<f64>(2, 4, blocks, usize::MAX, 64), Err(Overflow));
    // the elements can be counted, the bytes cannot
    let many = BlockSizes { mc: 2, nc: 4 * (usize::MAX / 64 / 4), kc: 16 };
    assert!(gemm_basic_req_generic::<u8>(2, 4, many, 0, 64).is_ok());
    assert_eq!(gemm_basic_req_generic::<f64>(2, 4, many, 0, 64), Err(Overflow));
    // each buffer can be counted, their sum cannot
    let half = BlockSizes { mc: 2 * (usize::MAX / 64 / 2), nc: 4 * (usize::MAX / 128 / 2), kc: 16 };
    assert!(gemm_basic_req_generic::<u8>(2, 4, half, 0, 64).is_ok());
    assert_eq!(gemm_basic_req_generic::<u8>(2, 4, half, 2, 64), Err(Overflow));
    // one orientation is enough to fail
    assert_eq!(gemm_req_aligned(Some(Precision::Double), shape, blocks, huge_kc, 1, 64), Err(Overflow));
    assert_eq!(gemm_req_aligned(Some(Precision::Double), shape, huge_kc, blocks, 1, 64), Err(Overflow));
    assert_eq!(gemm_req_for_blocks(Some(Precision::Double), shape, blocks, huge_kc, 1), Err(Overflow));
    assert!(gemm_req_aligned(Some(Precision::Double), shape, blocks, blocks, 1, 64).is_ok());
}

#[test]
fn block_sizes_fit_the_caches() {
    let caches = CacheSizes { l1: 32 * 1024, l2: 256 * 1024, l3: 8 * 1024 * 1024 };
    // tiles of 12 by 4, elements of 8 bytes: 1024 depth indices of a strip fit 32 KiB
    let b = kernel_params(1000, 2000, 3000, 12, 4, 8, caches);
    assert_eq!(b.kc, 1024);
    // 32 rows of depth 1024 fit 256 KiB: two strips of 12
    assert_eq!(b.mc, 24);
    // 1024 columns of depth 1024 fit 8 MiB
    assert_eq!(b.nc, 1024);
    // a small multiply gets blocks no larger than itself, rounded up to whole tiles
    let b = kernel_params(5, 6, 7, 12, 4, 8, caches);
    assert_eq!(b, BlockSizes { mc: 12, nc: 8, kc: 7 });
    // an empty multiply still gets one tile
    let b = kernel_params(0, 0, 0, 12, 4, 8, caches);
    assert_eq!(b, BlockSizes { mc: 12, nc: 4, kc: 1 });
    // caches too small for one tile
    let tiny = CacheSizes { l1: 1, l2: 1, l3: 1 };
    let b = kernel_params(100, 100, 100, 12, 4, 8, tiny);
    assert_eq!(b, BlockSizes { mc: 12, nc: 4, kc: 1 });
    // sizes that cannot be multiplied in a machine word
    let b = kernel_params(usize::MAX, usize::MAX, usize::MAX, usize::MAX, usize::MAX, usize::MAX, caches);
    assert_eq!(b, BlockSizes { mc: usize::MAX, nc: usize::MAX, kc: 1 });
    let huge = CacheSizes { l1: usize::MAX, l2: usize::MAX, l3: usize::MAX };
    // the rows and columns are those for the deepest block, whatever the depth
    let b = kernel_params(usize::MAX, usize::MAX, 10, 12, 4, 1, huge);
    assert_eq!(b, BlockSizes { mc: 12, nc: 4, kc: 10 });
    let big = CacheSizes { l1: 64, l2: usize::MAX, l3: usize::MAX };
    let b = kernel_params(usize::MAX, usize::MAX, 10, 12, 4, 1, big);
    assert_eq!(b.kc, 10);
    assert_eq!(b.mc, (usize::MAX / 16 / 12) * 12);
    assert_eq!(b.nc, (usize::MAX / 16 / 4) * 4);
    for &(m, n, k) in [(1, 1, 1), (13, 5, 2000), (4000, 3, 9), (777, 888, 999)].iter() {
        for &(mr, nr, bytes) in [(2, 4, 4), (8, 4, 4), (12, 4, 8), (24, 8, 8)].iter() {
            let b = kernel_params(m, n, k, mr, nr, bytes, caches);
            assert!(b.mc > 0 && b.mc % mr == 0 && b.mc - mr < m);
            assert!(b.nc > 0 && b.nc % nr == 0 && b.nc - nr < n);
            assert!(b.kc > 0 && b.kc <= k);
            assert!(b.kc * nr * bytes <= caches.l1 || b.kc == 1);
            assert!(b.mc * b.kc * bytes <= caches.l2 || b.mc == mr);
            assert!(b.nc * b.kc * bytes <= caches.l3 || b.nc == nr);
        }
    }
}

#[test]
fn scratch_region_holds_the_buffers_of_the_walk() {
    let shape = Isa::Fma.shape(Precision::Double);
    let blocks = BlockSizes { mc: 48, nc: 128, kc: 64 };
    let p = Problem {
        m: 100,
        n: 130,
        k: 70,
        dst: MatView::new(1, 100),
        lhs: MatView::new(70, 1),
        rhs: MatView::new(1, 70),
    };
    for threads in 1..6 {
        let driver = Driver::new(p, shape, blocks, true, AlphaMode::One, threads, 16).unwrap();
        assert_eq!(driver.n_threads, threads);
        // blocks of 64 * 4 and 64 * 12 elements
        assert_eq!(driver.rhs_buffer_len(), 256 * 32);
        assert_eq!(driver.lhs_buffer_len(), threads * 768 * 4);
        let req = gemm_basic_req_generic::<f64>(shape.mr, shape.nr, blocks, 5, 128).unwrap();
        assert!(8 * (driver.rhs_buffer_len() + driver.lhs_buffer_len()) <= req.size_bytes);
    }
}

#[test]
fn smaller_multiply_never_gets_larger_blocks() {
    let caches = CacheSizes { l1: 32 * 1024, l2: 256 * 1024, l3: 8 * 1024 * 1024 };
    let sizes = [0, 1, 7, 10, 100, 1000, 4000];
    for &m in sizes.iter() {
        for &n in sizes.iter() {
            for &k in sizes.iter() {
                let big = kernel_params(m, n, k, 2, 4, 8, caches);
                for &(m2, n2, k2) in [(m / 2, n, k), (m, n / 3, k), (m, n, k / 100), (0, 0, 0)].iter() {
                    let small = kernel_params(m2, n2, k2, 2, 4, 8, caches);
                    assert!(small.mc <= big.mc && small.nc <= big.nc && small.kc <= big.kc);
                }
            }
        }
    }
}

#[test]
fn region_of_a_shape_holds_every_smaller_shape() {
    let shape = Isa::Scalar.shape(Precision::Double);
    let caches = CacheSizes { l1: 32 * 1024, l2: 256 * 1024, l3: 8 * 1024 * 1024 };
    let kind = Some(Precision::Double);
    let deep = gemm_req(kind, 4000, 4000, 1000, 64, shape, caches).unwrap();
    let shallow = gemm_req(kind, 4000, 4000, 10, 64, shape, caches).unwrap();
    assert!(shallow.size_bytes <= deep.size_bytes);
    assert_eq!(shallow.align_bytes, deep.align_bytes);
    for &(m, n, k, t) in [(4000, 4000, 1000, 1), (1, 4000, 1000, 64), (4000, 1, 1, 64), (0, 0, 0, 0), (3999, 17, 999, 63)].iter() {
        let small = gemm_req(kind, m, n, k, t, shape, caches).unwrap();
        assert!(small.size_bytes <= deep.size_bytes);
    }
}

#[test]
fn region_of_a_shape_is_that_of_its_block_sizes() {
    let shape = Isa::Fma.shape(Precision::Single);
    let caches = CacheSizes { l1: 32 * 1024, l2: 256 * 1024, l3: 8 * 1024 * 1024 };
    let kind = Some(Precision::Single);
    let blocks = kernel_params(300, 500, 700, shape.mr, shape.nr, 4, caches);
    let turned = kernel_params(500, 300, 700, shape.mr, shape.nr, 4, caches);
    let req = gemm_req(kind, 300, 500, 700, 6, shape, caches).unwrap();
    assert_eq!(gemm_req_for_blocks(kind, shape, blocks, turned, 6), Ok(req));
    assert_eq!(gemm_req_aligned(kind, shape, blocks, turned, 6, req.align_bytes), Ok(req));
    assert_eq!(
        gemm_req_shape_aligned(kind, 300, 500, 700, 6, shape, caches, req.align_bytes),
        Ok(req)
    );
    assert!(req.size_bytes > 0);
    // the first level holds 2048 depth indices of a strip, the second 32 rows of such a
    // block: one strip of 24 rows
    assert_eq!(blocks, BlockSizes { mc: 24, nc: 500, kc: 700 });
    let exact = gemm_req_shape_aligned(kind, 300, 500, 700, 6, shape, caches, 128).unwrap();
    assert_eq!(exact.align_bytes, 128);
    // the same region for the transposed shape
    assert_eq!(gemm_req(kind, 500, 300, 700, 6, shape, caches), Ok(req));
}

#[test]
fn elements_without_kernels_need_no_scratch() {
    let shape = Isa::Scalar.shape(Precision::Single);
    let caches = CacheSizes { l1: 32 * 1024, l2: 256 * 1024, l3: 8 * 1024 * 1024 };
    let none = ScratchReq { size_bytes: 0, align_bytes: 1 };
    assert_eq!(gemm_req(None, 1000, 1000, 1000, 8, shape, caches), Ok(none));
    assert_eq!(gemm_req(None, usize::MAX, usize::MAX, usize::MAX, usize::MAX, shape, caches), Ok(none));
    assert_eq!(gemm_req(None, 0, 0, 0, 0, KernelShape { lanes: 0, mr: 0, nr: 0 }, caches), Ok(none));
    let huge = BlockSizes { mc: usize::MAX, nc: usize::MAX, kc: usize::MAX };
    assert_eq!(gemm_req_for_blocks(None, shape, huge, huge, usize::MAX), Ok(none));
    assert_eq!(gemm_req_aligned(None, shape, huge, huge, usize::MAX, 3), Ok(none));
    assert_eq!(gemm_req_shape_aligned(None, 7, 8, 9, 10, shape, caches, 0), Ok(none));
    // with kernels the same shape needs a region
    let req = gemm_req(Some(Precision::Single), 1000, 1000, 1000, 8, shape, caches).unwrap();
    assert!(req.size_bytes > 0);
}
