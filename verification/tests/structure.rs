use gemm::driver::{small_workload, Driver};
use gemm::layout::{stride_abs, MatView};
use gemm::params::{AlphaMode, BlockSizes, Isa, KernelShape, Precision};
use gemm::partition::job_range;
use gemm::cache::{kernel_params, CacheSizes};
use gemm::plan::{
    gemm, gemm_plan, try_gemm, try_gemm_aligned, try_gemm_plan, turns_operands, RankOneKind,
    Work,
};
use gemm::problem::Problem;
use gemm::tiles::{Tile, TileGrid};

fn problem(m: usize, n: usize, k: usize, dst: (isize, isize), lhs: (isize, isize), rhs: (isize, isize)) -> Problem {
    Problem {
        m,
        n,
        k,
        dst: MatView::new(dst.0, dst.1),
        lhs: MatView::new(lhs.0, lhs.1),
        rhs: MatView::new(rhs.0, rhs.1),
    }
}

#[test]
fn kernel_shapes_per_instruction_set() {
    let table = [
        (Isa::Scalar, 1, 1, 2, 2, 4),
        (Isa::Sse, 4, 2, 8, 4, 4),
        (Isa::Avx, 8, 4, 16, 8, 4),
        (Isa::Fma, 8, 4, 24, 12, 4),
        (Isa::Avx512f, 16, 8, 48, 24, 8),
    ];
    for &(isa, lanes_single, lanes_double, mr_single, mr_double, nr) in table.iter() {
        assert_eq!(
            isa.shape(Precision::Single),
            KernelShape { lanes: lanes_single, mr: mr_single, nr }
        );
        assert_eq!(
            isa.shape(Precision::Double),
            KernelShape { lanes: lanes_double, mr: mr_double, nr }
        );
    }
    assert_eq!(Precision::Single.size(), 4);
    assert_eq!(Precision::Double.size(), 8);
}

#[test]
fn widest_instruction_set_wins() {
    assert_eq!(Isa::select(true, true, true, true), Isa::Avx512f);
    assert_eq!(Isa::select(false, true, true, true), Isa::Fma);
    assert_eq!(Isa::select(false, false, true, true), Isa::Avx);
    assert_eq!(Isa::select(false, false, false, true), Isa::Sse);
    assert_eq!(Isa::select(false, false, false, false), Isa::Scalar);
    assert_eq!(Isa::select(true, false, false, false), Isa::Avx512f);
    assert_eq!(Isa::select(false, true, false, false), Isa::Fma);
}

#[test]
fn kernel_table_index() {
    let shape = Isa::Fma.shape(Precision::Double);
    assert_eq!(shape.kernel_index(1, 1), (0, 0));
    assert_eq!(shape.kernel_index(4, 4), (0, 3));
    assert_eq!(shape.kernel_index(5, 2), (1, 1));
    assert_eq!(shape.kernel_index(8, 3), (1, 2));
    assert_eq!(shape.kernel_index(9, 1), (2, 0));
    assert_eq!(shape.kernel_index(12, 4), (2, 3));
}

#[test]
fn block_sizes_must_be_whole_tiles() {
    let shape = Isa::Avx.shape(Precision::Double);
    assert!(BlockSizes { mc: 16, nc: 8, kc: 1 }.is_valid(&shape));
    assert!(!BlockSizes { mc: 12, nc: 8, kc: 1 }.is_valid(&shape));
    assert!(!BlockSizes { mc: 16, nc: 6, kc: 1 }.is_valid(&shape));
    assert!(!BlockSizes { mc: 16, nc: 8, kc: 0 }.is_valid(&shape));
    assert!(!BlockSizes { mc: 0, nc: 8, kc: 1 }.is_valid(&shape));
}

#[test]
fn scaling_mode_per_depth_slice() {
    for mode in [AlphaMode::Zero, AlphaMode::One, AlphaMode::General] {
        assert_eq!(mode.for_slice(true, 0), mode);
        assert_eq!(mode.for_slice(false, 0), AlphaMode::Zero);
        assert_eq!(mode.for_slice(true, 1), AlphaMode::One);
        assert_eq!(mode.for_slice(false, 1), AlphaMode::One);
        assert_eq!(mode.for_slice(true, 7), AlphaMode::One);
    }
}

#[test]
fn workload_threshold() {
    assert!(small_workload(48, 48, 256));
    assert!(!small_workload(48, 48, 257));
    assert!(!small_workload(49, 48, 256));
    assert!(small_workload(589824, 1, 1));
    assert!(!small_workload(589825, 1, 1));
    assert!(small_workload(0, usize::MAX, usize::MAX));
    assert!(small_workload(usize::MAX, 0, 3));
    assert!(!small_workload(usize::MAX, usize::MAX, usize::MAX));
    assert!(!small_workload(768, 768, 2));
    assert!(small_workload(768, 768, 1));
}

#[test]
fn view_addresses_cells() {
    let v = MatView { offset: 10, rs: -1, cs: 5 };
    assert_eq!(v.index(0, 0), 10);
    assert_eq!(v.index(4, 0), 6);
    assert_eq!(v.index(4, 3), 21);
    assert!(v.can_address(5, 4));
    assert_eq!(v.reverse_rows(5, 4), MatView { offset: 6, rs: 1, cs: 5 });
    assert_eq!(v.reverse_cols(5, 4), MatView { offset: 25, rs: -1, cs: -5 });
    assert_eq!(v.transpose(), MatView { offset: 10, rs: 5, cs: -1 });
    assert_eq!(stride_abs(-5), 5);
    assert_eq!(stride_abs(isize::MAX), isize::MAX as usize);
}

#[test]
fn view_limits() {
    assert!(!MatView::new(isize::MIN, 1).can_address(1, 1));
    assert!(!MatView::new(1, isize::MIN).can_address(1, 1));
    assert!(MatView::new(isize::MAX, 1).can_address(2, 1));
    assert!(!MatView::new(isize::MAX, 1).can_address(3, 1));
    assert!(!MatView::new(isize::MAX, 1).can_address(2, 2));
    assert!(MatView::new(1, 1).can_address(0, 0));
    assert!(!MatView::new(0, 0).can_address(isize::MAX as usize + 1, 1));
    assert!(MatView::new(0, 0).can_address(isize::MAX as usize, isize::MAX as usize));
    let v = MatView { offset: isize::MAX, rs: 1, cs: -1 };
    assert!(v.reaches(0, 0));
    assert!(!v.reaches(1, 0));
    assert!(v.reaches(1, 1));
}

#[test]
fn canonical_form_reverses_negative_strides() {
    // 3 by 4 output with reversed rows
    let p = problem(3, 4, 5, (-1, 3), (1, 3), (1, 5));
    let q = p.canonicalize();
    assert_eq!(q.dst, MatView { offset: -2, rs: 1, cs: 3 });
    assert_eq!(q.lhs, MatView { offset: 2, rs: -1, cs: 3 });
    assert_eq!(q.rhs, p.rhs);
    assert_eq!((q.m, q.n, q.k), (3, 4, 5));
    assert!(!turns_operands(&p));

    // reversed columns
    let p = problem(3, 4, 5, (1, -3), (1, 3), (1, 5));
    let q = p.canonicalize();
    assert_eq!(q.dst, MatView { offset: -9, rs: 1, cs: 3 });
    assert_eq!(q.lhs, p.lhs);
    assert_eq!(q.rhs, MatView { offset: 15, rs: 1, cs: -5 });
}

#[test]
fn canonical_form_makes_the_output_tall() {
    // row-major 5 by 6 output
    let p = problem(5, 6, 7, (6, 1), (7, 1), (6, 1));
    let q = p.canonicalize();
    assert_eq!((q.m, q.n, q.k), (6, 5, 7));
    assert_eq!(q.dst, MatView { offset: 0, rs: 1, cs: 6 });
    // the operands change places, each transposed
    assert_eq!(q.lhs, MatView { offset: 0, rs: 1, cs: 6 });
    assert_eq!(q.rhs, MatView { offset: 0, rs: 1, cs: 7 });
    assert!(turns_operands(&p));
    assert_eq!(p.transpose().transpose(), p);

    // a negative row stride counts by its size once the rows run forward
    let p = problem(5, 6, 7, (-6, 1), (7, 1), (6, 1));
    let q = p.canonicalize();
    assert_eq!((q.m, q.n), (6, 5));
    assert_eq!(q.dst, MatView { offset: -24, rs: 1, cs: 6 });
    assert!(q.dst.rs >= 0 && q.dst.cs >= 0);
}

#[test]
fn canonical_form_turns_a_row_vector_product() {
    // 2 rows of output, right operand walked faster along its columns
    let p = problem(2, 9, 7, (1, 2), (1, 2), (9, 1));
    let q = p.canonicalize();
    assert_eq!((q.m, q.n, q.k), (9, 2, 7));
    assert_eq!(q.dst, MatView { offset: 0, rs: 2, cs: 1 });
    assert_eq!(q.lhs, MatView { offset: 0, rs: 1, cs: 9 });
    assert_eq!(q.rhs, MatView { offset: 0, rs: 2, cs: 1 });
    assert!(turns_operands(&p));

    // the same with a right operand walked faster along its rows stays as it is
    let p = problem(2, 9, 7, (1, 2), (1, 2), (1, 7));
    assert_eq!(p.canonicalize(), p);
    assert!(!turns_operands(&p));

    // made tall and then turned back: twice transposed
    let p = problem(2, 9, 7, (9, 1), (7, 1), (9, 1));
    let q = p.canonicalize();
    assert_eq!((q.m, q.n), (9, 2));
    let p = problem(9, 2, 7, (2, 1), (1, 9), (1, 7));
    let q = p.canonicalize();
    assert_eq!((q.m, q.n), (9, 2));
    assert_eq!(q, p);
    assert!(!turns_operands(&p));
}

#[test]
fn empty_output_has_no_canonical_change() {
    let p = problem(0, 4, 5, (-1, -3), (1, 3), (1, 5));
    assert_eq!(p.canonicalize(), p);
    let p = problem(4, 0, 5, (-1, -3), (1, 3), (1, 5));
    assert_eq!(p.canonicalize(), p);
    assert!(!turns_operands(&p));
}

#[test]
fn tile_grid_counts_jobs() {
    // 10 rows in bands of 4 and strips of 2; 5 columns in strips of 2
    let g = TileGrid::new(10, 5, 4, 2, 2).unwrap();
    assert_eq!(g.count_jobs(), 3 * (2 + 2 + 1));
    // a band that is no whole number of strips
    let g = TileGrid::new(10, 4, 5, 2, 4).unwrap();
    assert_eq!(g.count_jobs(), 3 + 3);
    assert!(TileGrid::new(0, 5, 4, 2, 2).is_none());
    assert!(TileGrid::new(10, 0, 4, 2, 2).is_none());
    assert!(TileGrid::new(10, 5, 0, 2, 2).is_none());
    assert!(TileGrid::new(10, 5, 4, 0, 2).is_none());
    assert!(TileGrid::new(10, 5, 4, 2, 0).is_none());
    assert!(TileGrid::new(usize::MAX, usize::MAX, 1, 1, 1).is_none());
    assert!(TileGrid::new(usize::MAX, usize::MAX, usize::MAX, 1, 1).is_none());
    assert!(TileGrid::new(usize::MAX, 1, 4, 1, 1).is_some());
    assert!(TileGrid::new(usize::MAX, 1, usize::MAX, 1, 1).is_some());
    assert!(TileGrid::new(2, 2, usize::MAX, 1, 1).is_some());
}

#[test]
fn tiles_run_band_by_band_and_column_strip_by_column_strip() {
    let g = TileGrid::new(10, 5, 4, 2, 2).unwrap();
    let all = g.thread_tiles(job_range(0, g.count_jobs(), 1));
    assert_eq!(all.len(), 15);
    assert_eq!(
        all[0],
        Tile { job: 0, band: 0, row_outer: 0, m_chunk: 4, i: 0, j: 0, row: 0, col: 0, m_tile: 2, n_tile: 2 }
    );
    assert_eq!(
        all[1],
        Tile { job: 1, band: 0, row_outer: 0, m_chunk: 4, i: 1, j: 0, row: 2, col: 0, m_tile: 2, n_tile: 2 }
    );
    assert_eq!(
        all[2],
        Tile { job: 2, band: 0, row_outer: 0, m_chunk: 4, i: 0, j: 1, row: 0, col: 2, m_tile: 2, n_tile: 2 }
    );
    assert_eq!(
        all[5],
        Tile { job: 5, band: 0, row_outer: 0, m_chunk: 4, i: 1, j: 2, row: 2, col: 4, m_tile: 2, n_tile: 1 }
    );
    assert_eq!(
        all[6],
        Tile { job: 6, band: 1, row_outer: 4, m_chunk: 4, i: 0, j: 0, row: 4, col: 0, m_tile: 2, n_tile: 2 }
    );
    assert_eq!(
        all[14],
        Tile { job: 14, band: 2, row_outer: 8, m_chunk: 2, i: 0, j: 2, row: 8, col: 4, m_tile: 2, n_tile: 1 }
    );
}

#[test]
fn threads_share_the_tiles_without_gap_or_overlap() {
    for &(m, n, mc, mr, nr) in [(10, 5, 4, 2, 2), (7, 9, 6, 4, 3), (1, 1, 8, 4, 4), (23, 17, 5, 3, 2)].iter() {
        let g = TileGrid::new(m, n, mc, mr, nr).unwrap();
        let total = g.count_jobs();
        let all = g.thread_tiles(job_range(0, total, 1));
        for threads in 1..9 {
            let mut cells = vec![0usize; m * n];
            let mut seen = Vec::new();
            for tid in 0..threads {
                let range = job_range(tid, total, threads);
                let tiles = g.thread_tiles(range);
                assert_eq!(tiles.len(), range.len());
                for tile in tiles {
                    assert!(range.has(tile.job));
                    assert!(tile.m_tile >= 1 && tile.m_tile <= mr);
                    assert!(tile.n_tile >= 1 && tile.n_tile <= nr);
                    for r in tile.row..tile.row + tile.m_tile {
                        for c in tile.col..tile.col + tile.n_tile {
                            cells[r * n + c] += 1;
                        }
                    }
                    seen.push(tile);
                }
            }
            assert_eq!(cells, vec![1usize; m * n]);
            // the tiles do not depend on the number of threads
            assert_eq!(seen, all);
        }
    }
}

#[test]
fn plan_kinds() {
    let shape = KernelShape { lanes: 1, mr: 2, nr: 2 };
    let blocks = BlockSizes { mc: 4, nc: 4, kc: 4 };
    let plan = |p: Problem, read_dst: bool, alpha: AlphaMode| {
        gemm_plan(p, read_dst, alpha, 2, shape, blocks, blocks, 4)
    };
    let p = problem(5, 6, 0, (1, 5), (1, 5), (1, 1));
    assert_eq!(plan(p, true, AlphaMode::General).work, Work::Scale { read_dst: true });
    assert_eq!(plan(p, false, AlphaMode::General).work, Work::Scale { read_dst: false });
    let p = problem(5, 6, 1, (1, 5), (1, 5), (1, 1));
    assert_eq!(
        plan(p, true, AlphaMode::One).work,
        Work::RankOne { kind: RankOneKind::Fused }
    );
    assert_eq!(
        plan(p, true, AlphaMode::General).work,
        Work::RankOne { kind: RankOneKind::Scaled }
    );
    assert_eq!(
        plan(p, true, AlphaMode::Zero).work,
        Work::RankOne { kind: RankOneKind::Scaled }
    );
    assert_eq!(
        plan(p, false, AlphaMode::One).work,
        Work::RankOne { kind: RankOneKind::Overwrite }
    );
    // four columns and a column-major left operand
    let p = problem(5, 4, 3, (1, 5), (1, 5), (1, 3));
    assert_eq!(plan(p, true, AlphaMode::One).work, Work::Gemv { read_dst: true });
    // five columns
    let p = problem(5, 5, 3, (1, 5), (1, 5), (1, 3));
    assert!(matches!(plan(p, true, AlphaMode::One).work, Work::Blocked { .. }));
    // four columns and a row-major left operand
    let p = problem(5, 4, 3, (1, 5), (3, 1), (1, 3));
    assert!(matches!(plan(p, true, AlphaMode::One).work, Work::Blocked { .. }));
}

#[test]
fn blocked_plan_holds_what_the_walk_needs() {
    let shape = Isa::Avx.shape(Precision::Double);
    let blocks = BlockSizes { mc: 16, nc: 8, kc: 5 };
    let other = BlockSizes { mc: 32, nc: 4, kc: 3 };
    let p = problem(40, 30, 20, (1, 40), (20, 1), (30, 1));
    let plan = gemm_plan(p, false, AlphaMode::General, 3, shape, blocks, other, 16);
    assert!(!plan.turned);
    match plan.work {
        Work::Blocked { driver } => {
            assert_eq!(driver.problem, p);
            assert_eq!(driver.blocks, blocks);
            // 40 * 8 * 5 is a small workload
            assert_eq!(driver.n_threads, 1);
            // blocks of 5 * 4 and 5 * 8 elements, rounded up to 16
            assert_eq!(driver.packed_rhs_stride, 32);
            assert_eq!(driver.packed_lhs_stride, 48);
            // more rows than a tile and a right operand that is not contiguous along rows
            assert!(driver.do_pack_rhs);
            assert!(driver.do_pack_lhs(16));
            let s = driver.slice(3, 2);
            assert_eq!((s.col_outer, s.n_chunk, s.depth_outer, s.k_chunk), (24, 6, 10, 5));
            assert_eq!(s.mode, AlphaMode::One);
            assert_eq!(driver.slice(3, 0).mode, AlphaMode::Zero);
            assert_eq!(s.rhs_src, 10 * 30 + 24);
            assert_eq!(s.n_jobs, 2 * (2 + 2 + 1));
        }
        other => panic!("expected the blocked walk, got {:?}", other),
    }
    // the row-major output is computed as its transpose, with the other block sizes
    let p = problem(30, 40, 20, (40, 1), (1, 30), (1, 20));
    let plan = gemm_plan(p, true, AlphaMode::General, 3, shape, blocks, other, 16);
    assert!(plan.turned);
    match plan.work {
        Work::Blocked { driver } => {
            assert_eq!(driver.blocks, other);
            assert_eq!((driver.problem.m, driver.problem.n), (40, 30));
            // the left operand's rows are contiguous and m is large: the right operand is
            // packed unless its rows are contiguous
            assert_eq!(driver.problem.rhs, MatView { offset: 0, rs: 30, cs: 1 });
            assert!(driver.do_pack_rhs);
        }
        other => panic!("expected the blocked walk, got {:?}", other),
    }
}

#[test]
fn packing_is_skipped_where_the_operand_is_in_place() {
    let shape = KernelShape { lanes: 2, mr: 4, nr: 4 };
    let blocks = BlockSizes { mc: 8, nc: 8, kc: 8 };
    // contiguous rows on both sides, 16 columns, bands of whole strips
    let p = problem(16, 16, 8, (1, 16), (1, 16), (1, 8));
    let driver = Driver::new(p, shape, blocks, true, AlphaMode::One, 1, 8).unwrap();
    assert!(!driver.do_pack_rhs);
    assert!(!driver.do_pack_lhs(8));
    assert!(driver.do_pack_lhs(6));
    // 17 columns
    let p = problem(16, 17, 8, (1, 16), (1, 16), (1, 8));
    let driver = Driver::new(p, shape, blocks, true, AlphaMode::One, 1, 8).unwrap();
    assert!(driver.do_pack_lhs(8));
    // rows of the left operand 2 apart
    let p = problem(16, 16, 8, (1, 16), (2, 32), (-1, 8));
    let driver = Driver::new(p, shape, blocks, true, AlphaMode::One, 1, 8).unwrap();
    assert!(driver.do_pack_lhs(8));
    assert!(!driver.do_pack_rhs);
    // rows of the right operand 2 apart
    let p = problem(16, 16, 8, (1, 16), (1, 16), (2, 16));
    let driver = Driver::new(p, shape, blocks, true, AlphaMode::One, 1, 8).unwrap();
    assert!(driver.do_pack_rhs);
    // no more rows than a tile
    let p = problem(4, 16, 8, (1, 4), (1, 4), (2, 16));
    let driver = Driver::new(p, shape, blocks, true, AlphaMode::One, 1, 8).unwrap();
    assert!(!driver.do_pack_rhs);
}

#[test]
fn walks_that_cannot_be_set_up() {
    let shape = KernelShape { lanes: 2, mr: 4, nr: 4 };
    let blocks = BlockSizes { mc: 8, nc: 8, kc: 8 };
    let p = problem(16, 16, 8, (1, 16), (1, 16), (1, 8));
    let new = |p: Problem, shape: KernelShape, blocks: BlockSizes, threads: usize, stride: usize| {
        Driver::new(p, shape, blocks, true, AlphaMode::One, threads, stride)
    };
    assert!(new(p, shape, blocks, 1, 8).is_some());
    assert!(new(p, shape, blocks, 0, 8).is_none());
    assert!(new(p, shape, blocks, 1, 0).is_none());
    assert!(new(p, KernelShape { lanes: 3, mr: 4, nr: 4 }, blocks, 1, 8).is_none());
    assert!(new(p, KernelShape { lanes: 0, mr: 4, nr: 4 }, blocks, 1, 8).is_none());
    assert!(new(p, KernelShape { lanes: 2, mr: 4, nr: 0 }, blocks, 1, 8).is_none());
    assert!(new(p, shape, BlockSizes { mc: 0, nc: 8, kc: 8 }, 1, 8).is_none());
    assert!(new(p, shape, BlockSizes { mc: 8, nc: 8, kc: usize::MAX }, 1, 8).is_none());
    assert!(new(p, shape, BlockSizes { mc: 8, nc: 8, kc: usize::MAX / 4 }, 1, 8).is_none());
    assert!(new(problem(0, 16, 8, (1, 16), (1, 16), (1, 8)), shape, blocks, 1, 8).is_none());
    assert!(new(problem(16, 16, 0, (1, 16), (1, 16), (1, 8)), shape, blocks, 1, 8).is_none());
    // large blocks are fine while the buffers can be counted
    assert!(new(p, shape, BlockSizes { mc: 1 << 20, nc: 1 << 20, kc: 1 << 20 }, 1, 8).is_some());
}

#[test]
fn plans_that_cannot_be_made() {
    let shape = KernelShape { lanes: 2, mr: 4, nr: 4 };
    let blocks = BlockSizes { mc: 8, nc: 8, kc: 8 };
    let bad = BlockSizes { mc: 8, nc: 8, kc: 0 };
    let p = problem(16, 16, 8, (1, 16), (1, 16), (1, 8));
    let try_plan = |p: Problem, blocks: BlockSizes, other: BlockSizes| {
        try_gemm_plan(p, true, AlphaMode::One, 2, shape, blocks, other, 8)
    };
    assert!(try_plan(p, blocks, bad).is_some());
    assert!(try_plan(p, bad, blocks).is_none());
    // the degenerate shapes need no walk
    assert!(try_plan(problem(16, 16, 1, (1, 16), (1, 16), (1, 1)), bad, bad).is_some());
    assert!(try_plan(problem(16, 16, 0, (1, 16), (1, 16), (1, 1)), bad, bad).is_some());
    assert!(try_plan(problem(0, 16, 8, (1, 16), (1, 16), (1, 8)), bad, bad).is_some());
    // a view that does not fit
    assert!(try_plan(problem(16, 16, 8, (isize::MAX, 16), (1, 16), (1, 8)), blocks, blocks).is_none());
    assert!(try_plan(problem(16, 16, 8, (1, 16), (isize::MIN, 16), (1, 8)), blocks, blocks).is_none());
}

#[test]
fn plan_for_this_machine() {
    let shape = Isa::Scalar.shape(Precision::Double);
    let caches = CacheSizes { l1: 256, l2: 1024, l3: 4096 };
    // blocks of 8 depth indices, 16 rows and 64 columns
    let blocks = kernel_params(20, 30, 40, shape.mr, shape.nr, 8, caches);
    assert_eq!(blocks, BlockSizes { mc: 16, nc: 32, kc: 8 });
    let turned = kernel_params(30, 20, 40, shape.mr, shape.nr, 8, caches);
    let kind = Some(Precision::Double);
    let plan = gemm(kind, 20, 30, 40, 20, 1, true, 20, 1, 40, 1, AlphaMode::General, 4, shape, caches);
    assert_eq!(
        try_gemm(kind, 20, 30, 40, 20, 1, true, 20, 1, 40, 1, AlphaMode::General, 4, shape, caches),
        Some(plan)
    );
    let lines = [32, 64, 128, 256].iter().copied().find(|&align| {
        try_gemm_aligned(
            kind, 20, 30, 40, 20, 1, true, 20, 1, 40, 1, AlphaMode::General, 4, shape, caches,
            align,
        ) == Some(plan)
    });
    assert!(lines.is_some());
    // no plan for cache lines that hold no element
    let none = try_gemm_aligned(
        kind, 20, 30, 40, 20, 1, true, 20, 1, 40, 1, AlphaMode::General, 4, shape, caches, 4,
    );
    assert!(none.is_none());
    match plan.work {
        Work::Blocked { driver } => {
            assert_eq!(driver.blocks, blocks);
            // cache lines of 32, 64, 128 or 256 bytes hold 4, 8, 16 or 32 elements
            assert_eq!(driver.packed_rhs_stride, 32, "a block of 8 by 4 elements is whole cache lines");
            let simd = [4, 8, 16, 32].iter().copied().find(|&s| {
                gemm_plan(plan.problem, true, AlphaMode::General, 4, shape, blocks, turned, s) == plan
            });
            assert!(simd.is_some());
        }
        other => panic!("expected the blocked walk, got {:?}", other),
    }
}

#[test]
fn empty_output_needs_nothing_whatever_the_strides() {
    let shape = Isa::Scalar.shape(Precision::Double);
    let caches = CacheSizes { l1: 256, l2: 1024, l3: 4096 };
    let blocks = BlockSizes { mc: 8, nc: 8, kc: 8 };
    let none = BlockSizes { mc: 0, nc: 0, kc: 0 };
    for &(m, n) in [(0, 5), (5, 0), (0, 0)].iter() {
        for &stride in [isize::MIN, isize::MAX, -1, 0].iter() {
            let p = problem(m, n, usize::MAX, (stride, stride), (stride, isize::MIN), (isize::MAX, stride));
            let nothing = gemm::plan::Plan { problem: p, turned: false, work: Work::Nothing };
            assert_eq!(try_gemm_plan(p, true, AlphaMode::One, 0, shape, none, none, 0), Some(nothing));
            assert_eq!(gemm_plan(p, false, AlphaMode::Zero, 3, shape, blocks, blocks, 8), nothing);
            for kind in [None, Some(Precision::Single), Some(Precision::Double)] {
                let plan = try_gemm(
                    kind, m, n, usize::MAX, stride, stride, true, isize::MIN, stride, stride,
                    isize::MAX, AlphaMode::General, 0, shape, caches,
                );
                assert_eq!(plan, Some(nothing));
                let plan = gemm(
                    kind, m, n, usize::MAX, stride, stride, true, isize::MIN, stride, stride,
                    isize::MAX, AlphaMode::General, 0, shape, caches,
                );
                assert_eq!(plan, nothing);
            }
        }
    }
    // depth 0 alone is no empty output: the output is written
    let plan = try_gemm_plan(problem(2, 2, 0, (1, 2), (1, 2), (1, 2)), true, AlphaMode::One, 1, shape, none, none, 0);
    assert_eq!(plan.unwrap().work, Work::Scale { read_dst: true });
    assert!(try_gemm_plan(problem(2, 2, 0, (isize::MIN, 2), (1, 2), (1, 2)), true, AlphaMode::One, 1, shape, none, none, 0).is_none());
}

#[test]
fn elements_without_kernels_are_multiplied_cell_by_cell() {
    let shape = Isa::Scalar.shape(Precision::Double);
    let caches = CacheSizes { l1: 256, l2: 1024, l3: 4096 };
    for &threads in [0, 1, 2, 8].iter() {
        let plan = gemm(None, 20, 30, 40, -20, 1, true, 20, isize::MIN, 40, 1, AlphaMode::General, threads, shape, caches);
        // the multiply as given, also with strides that no kernel could take
        assert_eq!(plan.problem, problem(20, 30, 40, (1, -20), (isize::MIN, 20), (1, 40)));
        assert!(!plan.turned);
        assert_eq!(plan.work, Work::Fallback { threaded: threads != 1 });
    }
    // a shape for which the kernels take another way
    for &k in [0, 1, 5].iter() {
        let plan = try_gemm(None, 3, 2, k, 3, 1, false, 3, 1, 2, 1, AlphaMode::One, 1, shape, caches);
        assert_eq!(plan.unwrap().work, Work::Fallback { threaded: false });
    }
}
