use gemm::calls::Operand;
use gemm::driver::Driver;
use gemm::layout::MatView;
use gemm::params::{AlphaMode, BlockSizes, Isa, KernelShape, Precision};
use gemm::plan::{try_gemm_plan, Plan, RankOneKind, Work};
use gemm::problem::Problem;

/// A strided matrix in a vector, with room for negative strides.
#[derive(Clone, Debug)]
struct Mat {
    data: Vec<f64>,
    base: isize,
    rows: usize,
    cols: usize,
    rs: isize,
    cs: isize,
}

const PAD: f64 = -7777.0;

impl Mat {
    fn new(rows: usize, cols: usize, rs: isize, cs: isize, f: &dyn Fn(usize, usize) -> f64) -> Mat {
        let er = rows.saturating_sub(1) as isize;
        let ec = cols.saturating_sub(1) as isize;
        let corners = [0, er * rs, ec * cs, er * rs + ec * cs];
        let lo = *corners.iter().min().unwrap();
        let hi = *corners.iter().max().unwrap();
        let mut mat = Mat {
            data: vec![PAD; (hi - lo + 1) as usize],
            base: -lo,
            rows,
            cols,
            rs,
            cs,
        };
        for i in 0..rows {
            for j in 0..cols {
                let at = mat.place(i, j);
                mat.data[at] = f(i, j);
            }
        }
        mat
    }

    fn place(&self, i: usize, j: usize) -> usize {
        (self.base + i as isize * self.rs + j as isize * self.cs) as usize
    }

    fn get(&self, i: usize, j: usize) -> f64 {
        self.data[self.place(i, j)]
    }

    fn raw(&self, offset: isize) -> f64 {
        self.data[(self.base + offset) as usize]
    }

    fn set_raw(&mut self, offset: isize, value: f64) {
        let at = (self.base + offset) as usize;
        self.data[at] = value;
    }

    fn to_rows(&self) -> Vec<Vec<f64>> {
        (0..self.rows).map(|i| (0..self.cols).map(|j| self.get(i, j)).collect()).collect()
    }
}

fn mode_of(alpha: f64) -> AlphaMode {
    if alpha == 0.0 {
        AlphaMode::Zero
    } else if alpha == 1.0 {
        AlphaMode::One
    } else {
        AlphaMode::General
    }
}

fn reference(
    dst: &Mat,
    lhs: &Mat,
    rhs: &Mat,
    k: usize,
    alpha: f64,
    beta: f64,
    read_dst: bool,
) -> Vec<Vec<f64>> {
    let mut out = Vec::new();
    for i in 0..dst.rows {
        let mut row = Vec::new();
        for j in 0..dst.cols {
            let mut acc = 0.0;
            for d in 0..k {
                acc += lhs.get(i, d) * rhs.get(d, j);
            }
            let old = if read_dst { alpha * dst.get(i, j) } else { 0.0 };
            row.push(old + beta * acc);
        }
        out.push(row);
    }
    out
}

fn scale(q: &Problem, dst: &mut Mat, alpha: f64, read_dst: bool) {
    for col in 0..q.n {
        for row in 0..q.m {
            let at = q.dst_index(row, col);
            let value = if read_dst { alpha * dst.raw(at) } else { 0.0 };
            dst.set_raw(at, value);
        }
    }
}

fn run_blocked(driver: &Driver, dst: &mut Mat, l: &Mat, r: &Mat, alpha: f64, beta: f64) {
    let nr = driver.shape.nr;
    let mr = driver.shape.mr;
    let rhs_len = driver.packed_rhs_stride * driver.blocks.nc.div_ceil(nr);
    let lhs_blocks = driver.blocks.mc.div_ceil(mr);
    let lhs_len = driver.n_threads * driver.packed_lhs_stride * lhs_blocks;
    let per_thread = driver.packed_lhs_stride * lhs_blocks.min(driver.problem.m.div_ceil(mr));
    for slice in driver.slices() {
        // poisoned at every slice: nothing may be read that this slice has not packed
        let mut packed_rhs = vec![f64::NAN; rhs_len];
        let mut packed_lhs = vec![f64::NAN; lhs_len];
        let mut written = vec![0usize; dst.data.len()];
        if slice.pack_rhs {
            for depth in 0..slice.k_chunk {
                for col in 0..slice.n_chunk {
                    let mv = driver.rhs_move(&slice, depth, col);
                    assert!(packed_rhs[mv.dst].is_nan(), "two entries share a place");
                    packed_rhs[mv.dst] = r.raw(mv.src);
                }
            }
        }
        assert!(slice.n_threads >= 1 && slice.n_threads <= driver.n_threads);
        let mut jobs_seen = 0;
        for tid in 0..slice.n_threads {
            let calls = driver.thread_calls(&slice, tid);
            jobs_seen += calls.len();
            for call in calls {
                let tile = call.tile;
                assert_eq!(call.band_dst, tid * per_thread);
                if call.pack_lhs {
                    for row in 0..tile.m_chunk {
                        for depth in 0..slice.k_chunk {
                            let mv = driver.lhs_move(&slice, tid, tile.band, row, depth);
                            assert!(mv.dst >= tid * per_thread && mv.dst < (tid + 1) * per_thread);
                            packed_lhs[mv.dst] = l.raw(mv.src);
                        }
                    }
                }
                assert!(call.table_row < mr / driver.shape.lanes);
                assert!(call.table_col < nr);
                assert_eq!(call.k_chunk, slice.k_chunk);
                for row in 0..tile.m_tile {
                    for col in 0..tile.n_tile {
                        let mut acc = 0.0;
                        for depth in 0..call.k_chunk {
                            let a = match call.lhs {
                                Operand::Packed(at) => {
                                    packed_lhs[at + row + depth * call.lhs_cs as usize]
                                }
                                Operand::Source(at) => {
                                    l.raw(at + row as isize + depth as isize * call.lhs_cs)
                                }
                            };
                            let b = match call.rhs {
                                Operand::Packed(at) => {
                                    packed_rhs[at
                                        + depth * call.rhs_rs as usize
                                        + col * call.rhs_cs as usize]
                                }
                                Operand::Source(at) => r.raw(
                                    at + depth as isize * call.rhs_rs + col as isize * call.rhs_cs,
                                ),
                            };
                            acc += a * b;
                        }
                        let at = call.dst + row as isize * call.dst_rs + col as isize * call.dst_cs;
                        let value = match call.mode {
                            AlphaMode::Zero => beta * acc,
                            AlphaMode::One => dst.raw(at) + beta * acc,
                            AlphaMode::General => alpha * dst.raw(at) + beta * acc,
                        };
                        dst.set_raw(at, value);
                        written[(dst.base + at) as usize] += 1;
                    }
                }
            }
        }
        assert_eq!(jobs_seen, slice.n_jobs);
        // every cell of the panel was written once, and nothing else
        let q = driver.problem;
        let mut expected = vec![0usize; dst.data.len()];
        for row in 0..q.m {
            for col in slice.col_outer..slice.col_outer + slice.n_chunk {
                expected[(dst.base + q.dst_index(row, col)) as usize] += 1;
            }
        }
        assert_eq!(written, expected);
    }
}

fn execute(plan: &Plan, dst: &mut Mat, lhs: &Mat, rhs: &Mat, alpha: f64, beta: f64) {
    let (l, r) = if plan.turned { (rhs, lhs) } else { (lhs, rhs) };
    let q = plan.problem;
    match plan.work {
        Work::Nothing => {}
        Work::Scale { read_dst } => scale(&q, dst, alpha, read_dst),
        Work::RankOne { kind } => {
            for col in 0..q.n {
                let b = beta * r.raw(q.rhs_index(0, col));
                for row in 0..q.m {
                    let a = l.raw(q.lhs_index(row, 0));
                    let at = q.dst_index(row, col);
                    let value = match kind {
                        RankOneKind::Fused => a.mul_add(b, dst.raw(at)),
                        RankOneKind::Scaled => alpha * dst.raw(at) + a * b,
                        RankOneKind::Overwrite => a * b,
                    };
                    dst.set_raw(at, value);
                }
            }
        }
        Work::Gemv { read_dst } => {
            scale(&q, dst, alpha, read_dst);
            for depth in 0..q.k {
                for row in 0..q.m {
                    let a = l.raw(q.lhs_index(row, depth));
                    for col in 0..q.n {
                        let b = beta * r.raw(q.rhs_index(depth, col));
                        let at = q.dst_index(row, col);
                        let value = dst.raw(at) + b * a;
                        dst.set_raw(at, value);
                    }
                }
            }
        }
        Work::Blocked { driver } => run_blocked(&driver, dst, l, r, alpha, beta),
        Work::Fallback { .. } => panic!("a plan for elements without kernels"),
    }
}

struct Setup {
    shape: KernelShape,
    blocks: BlockSizes,
    simd_stride: usize,
    n_threads: usize,
}

fn small_setup(n_threads: usize) -> Setup {
    Setup {
        shape: KernelShape { lanes: 1, mr: 2, nr: 2 },
        blocks: BlockSizes { mc: 4, nc: 6, kc: 3 },
        simd_stride: 4,
        n_threads,
    }
}

fn plan_for(
    dst: &Mat,
    lhs: &Mat,
    rhs: &Mat,
    k: usize,
    alpha: f64,
    read_dst: bool,
    setup: &Setup,
) -> Plan {
    let p = Problem {
        m: dst.rows,
        n: dst.cols,
        k,
        dst: MatView::new(dst.rs, dst.cs),
        lhs: MatView::new(lhs.rs, lhs.cs),
        rhs: MatView::new(rhs.rs, rhs.cs),
    };
    try_gemm_plan(
        p,
        read_dst,
        mode_of(alpha),
        setup.n_threads,
        setup.shape,
        setup.blocks,
        setup.blocks,
        setup.simd_stride,
    )
    .expect("the multiply can be planned")
}

/// Runs the multiply and checks it against the triple loop; returns the output.
fn check(
    mut dst: Mat,
    lhs: &Mat,
    rhs: &Mat,
    k: usize,
    alpha: f64,
    beta: f64,
    read_dst: bool,
    setup: &Setup,
) -> Mat {
    let want = reference(&dst, lhs, rhs, k, alpha, beta, read_dst);
    let before = dst.clone();
    if !read_dst {
        // what the output held must not matter
        for i in 0..dst.rows {
            for j in 0..dst.cols {
                let at = dst.place(i, j);
                dst.data[at] = f64::NAN;
            }
        }
    }
    let plan = plan_for(&dst, lhs, rhs, k, alpha, read_dst, setup);
    assert!(plan.problem.m == 0 || plan.problem.n == 0 || plan.problem.dst.rs >= 0);
    assert!(plan.problem.m == 0 || plan.problem.n == 0 || plan.problem.dst.cs >= 0);
    execute(&plan, &mut dst, lhs, rhs, alpha, beta);
    assert_eq!(dst.to_rows(), want);
    // the room between the cells is untouched
    let mut addressed = vec![false; dst.data.len()];
    for i in 0..dst.rows {
        for j in 0..dst.cols {
            addressed[dst.place(i, j)] = true;
        }
    }
    for at in 0..dst.data.len() {
        if !addressed[at] {
            assert_eq!(dst.data[at], before.data[at]);
        }
    }
    dst
}

fn lhs_value(i: usize, d: usize) -> f64 {
    ((i * 3 + d * 5) % 7) as f64 - 3.0
}

fn rhs_value(d: usize, j: usize) -> f64 {
    ((d * 2 + j * 3) % 5) as f64 - 2.0
}

fn dst_value(i: usize, j: usize) -> f64 {
    ((i + 2 * j) % 4) as f64 + 1.0
}

/// Strides of a matrix of `rows` by `cols`, in one of eight layouts.
fn layout(rows: usize, cols: usize, kind: usize) -> (isize, isize) {
    let r = rows.max(1) as isize;
    let c = cols.max(1) as isize;
    match kind {
        0 => (1, r),
        1 => (c, 1),
        2 => (-1, r),
        3 => (1, -r),
        4 => (-c, -1),
        5 => (2, 2 * r + 1),
        6 => (c + 3, 1),
        _ => (-c - 1, 1),
    }
}

#[test]
fn one_by_one_by_one() {
    let lhs = Mat::new(1, 1, 1, 1, &|_, _| 2.0);
    let rhs = Mat::new(1, 1, 1, 1, &|_, _| 3.0);
    let dst = Mat::new(1, 1, 1, 1, &|_, _| 5.0);
    let out = check(dst, &lhs, &rhs, 1, 4.0, 7.0, true, &small_setup(1));
    // 4 * 5 + 7 * (2 * 3)
    assert_eq!(out.get(0, 0), 62.0);
}

#[test]
fn two_by_two_overwrite() {
    let l = [[1.0, 2.0], [3.0, 4.0]];
    let r = [[5.0, 6.0], [7.0, 8.0]];
    for kind in 0..8 {
        let (rs, cs) = layout(2, 2, kind);
        let lhs = Mat::new(2, 2, rs, cs, &|i, j| l[i][j]);
        let rhs = Mat::new(2, 2, rs, cs, &|i, j| r[i][j]);
        let dst = Mat::new(2, 2, rs, cs, &|_, _| 0.0);
        let out = check(dst, &lhs, &rhs, 2, 0.0, 1.0, false, &small_setup(1));
        assert_eq!(out.to_rows(), vec![vec![19.0, 22.0], vec![43.0, 50.0]]);
    }
}

#[test]
fn matrix_times_column_vector() {
    // row-major left operand, column vector on the right
    let lhs = Mat::new(3, 4, 4, 1, &|i, d| (i * 4 + d + 1) as f64);
    let rhs = Mat::new(4, 1, 1, 4, &|d, _| (d + 1) as f64);
    let dst = Mat::new(3, 1, 1, 3, &|i, _| (i + 1) as f64);
    let out = check(dst, &lhs, &rhs, 4, 2.0, 3.0, true, &small_setup(1));
    // rows (1 2 3 4), (5 6 7 8), (9 10 11 12) times (1 2 3 4)
    assert_eq!(out.to_rows(), vec![vec![2.0 + 90.0], vec![4.0 + 210.0], vec![6.0 + 330.0]]);
}

#[test]
fn column_major_matrix_times_column_vector_skips_the_blocked_walk() {
    let lhs = Mat::new(3, 4, 1, 3, &|i, d| (i * 4 + d + 1) as f64);
    let rhs = Mat::new(4, 1, 1, 4, &|d, _| (d + 1) as f64);
    let dst = Mat::new(3, 1, 1, 3, &|i, _| (i + 1) as f64);
    let plan = plan_for(&dst, &lhs, &rhs, 4, 2.0, true, &small_setup(1));
    assert!(matches!(plan.work, Work::Gemv { read_dst: true }));
    assert!(!plan.turned);
    let out = check(dst, &lhs, &rhs, 4, 2.0, 3.0, true, &small_setup(1));
    assert_eq!(out.to_rows(), vec![vec![2.0 + 90.0], vec![4.0 + 210.0], vec![6.0 + 330.0]]);
}

#[test]
fn row_vector_times_matrix_is_turned() {
    // one row of output and a row-major right operand: computed as its transpose
    let lhs = Mat::new(1, 4, 4, 1, &|_, d| (d + 1) as f64);
    let rhs = Mat::new(4, 3, 3, 1, &|d, j| (d * 3 + j + 1) as f64);
    let dst = Mat::new(1, 3, 3, 1, &|_, j| (j + 1) as f64);
    let plan = plan_for(&dst, &lhs, &rhs, 4, 1.0, true, &small_setup(1));
    assert_eq!(plan.problem.m, 3);
    assert_eq!(plan.problem.n, 1);
    let out = check(dst, &lhs, &rhs, 4, 1.0, 1.0, true, &small_setup(1));
    // (1 2 3 4) times columns (1 4 7 10), (2 5 8 11), (3 6 9 12)
    assert_eq!(out.to_rows(), vec![vec![1.0 + 70.0, 2.0 + 80.0, 3.0 + 90.0]]);
}

#[test]
fn reversed_rows_give_the_same_product() {
    let m = 5;
    let n = 7;
    let k = 4;
    let lhs = Mat::new(m, k, 1, m as isize, &lhs_value);
    let rhs = Mat::new(k, n, 1, k as isize, &rhs_value);
    let forward = Mat::new(m, n, 1, m as isize, &dst_value);
    let backward = Mat::new(m, n, -1, m as isize, &dst_value);
    let a = check(forward, &lhs, &rhs, k, 2.0, 3.0, true, &small_setup(1));
    let b = check(backward, &lhs, &rhs, k, 2.0, 3.0, true, &small_setup(1));
    assert_eq!(a.to_rows(), b.to_rows());
    // in memory the second output is the first with its rows reversed
    for i in 0..m {
        for j in 0..n {
            assert_eq!(b.data[j * m + (m - 1 - i)], a.data[j * m + i]);
        }
    }
}

#[test]
fn depth_zero_scales_the_output() {
    let lhs = Mat::new(3, 0, 1, 3, &lhs_value);
    let rhs = Mat::new(0, 4, 1, 1, &rhs_value);
    let dst = Mat::new(3, 4, 1, 3, &dst_value);
    let plan = plan_for(&dst, &lhs, &rhs, 0, 3.0, true, &small_setup(1));
    assert!(matches!(plan.work, Work::Scale { read_dst: true }));
    let out = check(dst.clone(), &lhs, &rhs, 0, 3.0, 5.0, true, &small_setup(1));
    for i in 0..3 {
        for j in 0..4 {
            assert_eq!(out.get(i, j), 3.0 * dst.get(i, j));
        }
    }
}

#[test]
fn depth_zero_clears_an_output_that_is_not_read() {
    let lhs = Mat::new(3, 0, 1, 3, &lhs_value);
    let rhs = Mat::new(0, 4, 1, 1, &rhs_value);
    let dst = Mat::new(3, 4, 1, 3, &dst_value);
    let out = check(dst, &lhs, &rhs, 0, 3.0, 5.0, false, &small_setup(1));
    assert_eq!(out.to_rows(), vec![vec![0.0; 4]; 3]);
}

#[test]
fn empty_output_is_left_alone() {
    let lhs = Mat::new(0, 3, 1, 1, &lhs_value);
    let rhs = Mat::new(3, 4, 1, 3, &rhs_value);
    let dst = Mat::new(0, 4, 1, 1, &dst_value);
    let plan = plan_for(&dst, &lhs, &rhs, 3, 2.0, true, &small_setup(2));
    assert_eq!(plan.work, Work::Nothing);
    assert!(!plan.turned);
}

#[test]
fn all_layouts_and_modes_agree_with_the_triple_loop() {
    let shapes = [
        (1, 1, 1),
        (1, 5, 3),
        (5, 1, 3),
        (2, 2, 2),
        (3, 4, 1),
        (4, 9, 5),
        (9, 4, 5),
        (5, 5, 7),
        (7, 11, 8),
        (11, 7, 2),
        (6, 13, 4),
    ];
    for &(m, n, k) in shapes.iter() {
        for kind in 0..8 {
            for &(alpha, read_dst) in [(0.0, true), (1.0, true), (3.0, true), (3.0, false)].iter()
            {
                let (rs, cs) = layout(m, n, kind);
                let (lrs, lcs) = layout(m, k, (kind + 1) % 8);
                let (rrs, rcs) = layout(k, n, (kind + 3) % 8);
                let lhs = Mat::new(m, k, lrs, lcs, &lhs_value);
                let rhs = Mat::new(k, n, rrs, rcs, &rhs_value);
                let dst = Mat::new(m, n, rs, cs, &dst_value);
                check(dst, &lhs, &rhs, k, alpha, 2.0, read_dst, &small_setup(3));
            }
        }
    }
}

#[test]
fn blocked_walk_is_taken_and_scales_once() {
    // several depth slices: the output is scaled by alpha in the first one only
    let (m, n, k) = (9, 14, 11);
    let lhs = Mat::new(m, k, 1, m as isize, &lhs_value);
    let rhs = Mat::new(k, n, 1, k as isize, &rhs_value);
    let dst = Mat::new(m, n, 1, m as isize, &dst_value);
    let setup = small_setup(2);
    let plan = plan_for(&dst, &lhs, &rhs, k, 5.0, true, &setup);
    match plan.work {
        Work::Blocked { driver } => {
            let slices = driver.slices();
            // 14 columns in panels of 6, depth 11 in slices of 3
            assert_eq!(slices.len(), 3 * 4);
            assert_eq!(slices[0].mode, AlphaMode::General);
            assert_eq!(slices[1].mode, AlphaMode::One);
            assert_eq!(slices[3].mode, AlphaMode::One);
            assert_eq!(slices[4].mode, AlphaMode::General);
            assert_eq!(slices[4].col_outer, 6);
            assert_eq!(slices[11].n_chunk, 2);
            assert_eq!(slices[11].k_chunk, 2);
            assert_eq!(slices[11].depth_outer, 9);
        }
        other => panic!("expected the blocked walk, got {:?}", other),
    }
    check(dst, &lhs, &rhs, k, 5.0, 2.0, true, &setup);
}

#[test]
fn transposed_multiply_gives_the_transposed_output() {
    let (m, n, k) = (6, 9, 5);
    let lhs = Mat::new(m, k, 1, m as isize, &lhs_value);
    let rhs = Mat::new(k, n, 1, k as isize, &rhs_value);
    let dst = Mat::new(m, n, 1, m as isize, &dst_value);
    let a = check(dst, &lhs, &rhs, k, 2.0, 3.0, true, &small_setup(2));
    // the same memory, read as the transposed matrices
    let lhs_t = Mat::new(n, k, k as isize, 1, &|j, d| rhs_value(d, j));
    let rhs_t = Mat::new(k, m, m as isize, 1, &|d, i| lhs_value(i, d));
    let dst_t = Mat::new(n, m, m as isize, 1, &|j, i| dst_value(i, j));
    assert_eq!(lhs_t.data, rhs.data);
    assert_eq!(rhs_t.data, lhs.data);
    let b = check(dst_t, &lhs_t, &rhs_t, k, 2.0, 3.0, true, &small_setup(2));
    assert_eq!(a.data, b.data);
}

fn wide_setup(n_threads: usize) -> Setup {
    Setup {
        shape: Isa::Fma.shape(Precision::Double),
        blocks: BlockSizes { mc: 48, nc: 128, kc: 64 },
        simd_stride: 16,
        n_threads,
    }
}

#[test]
fn sixty_four_cubed_with_one_and_eight_threads() {
    let (m, n, k) = (64, 64, 64);
    let lhs = Mat::new(m, k, 1, m as isize, &lhs_value);
    let rhs = Mat::new(k, n, 1, k as isize, &rhs_value);
    let dst = Mat::new(m, n, 1, m as isize, &dst_value);
    let one = check(dst.clone(), &lhs, &rhs, k, 2.0, 3.0, true, &wide_setup(1));
    let eight = check(dst, &lhs, &rhs, k, 2.0, 3.0, true, &wide_setup(8));
    assert_eq!(one.data, eight.data);
}

#[test]
fn large_multiply_is_shared_among_threads() {
    let (m, n, k) = (100, 130, 70);
    let lhs = Mat::new(m, k, k as isize, 1, &lhs_value);
    let rhs = Mat::new(k, n, 1, k as isize, &rhs_value);
    let dst = Mat::new(m, n, 1, m as isize, &dst_value);
    let plan = plan_for(&dst, &lhs, &rhs, k, 1.0, true, &wide_setup(5));
    match plan.work {
        Work::Blocked { driver } => {
            assert_eq!(driver.n_threads, 5);
            let slices = driver.slices();
            // panels of 128 and 2 columns, depth slices of 64 and 6
            assert_eq!(slices.len(), 4);
            assert_eq!(slices[0].n_threads, 5);
            // 100 * 128 * 6, 100 * 2 * 64 and 100 * 2 * 6 are small
            assert_eq!(slices[1].n_threads, 1);
            assert_eq!(slices[2].n_threads, 1);
            assert_eq!(slices[3].n_threads, 1);
            // bands of 48, 48 and 4 rows in strips of 12; 32 column strips
            assert_eq!(slices[0].n_jobs, 32 * (4 + 4 + 1));
        }
        other => panic!("expected the blocked walk, got {:?}", other),
    }
    let five = check(dst.clone(), &lhs, &rhs, k, 1.0, 2.0, true, &wide_setup(5));
    let one = check(dst, &lhs, &rhs, k, 1.0, 2.0, true, &wide_setup(1));
    assert_eq!(five.data, one.data);
}
