use gemm::arith::div_ceil;
use gemm::partition::{job_range, JobRange};

#[test]
fn div_ceil_rounds_up() {
    assert_eq!(div_ceil(0, 4), 0);
    assert_eq!(div_ceil(1, 4), 1);
    assert_eq!(div_ceil(4, 4), 1);
    assert_eq!(div_ceil(5, 4), 2);
    assert_eq!(div_ceil(usize::MAX, 1), usize::MAX);
    assert_eq!(div_ceil(usize::MAX, usize::MAX), 1);
}

#[test]
fn job_ranges_are_balanced_and_contiguous() {
    // 10 jobs on 4 threads: q = 2, r = 2
    assert_eq!(job_range(0, 10, 4), JobRange { start: 0, end: 3 });
    assert_eq!(job_range(1, 10, 4), JobRange { start: 3, end: 6 });
    assert_eq!(job_range(2, 10, 4), JobRange { start: 6, end: 8 });
    assert_eq!(job_range(3, 10, 4), JobRange { start: 8, end: 10 });
}

#[test]
fn more_threads_than_jobs_leaves_empty_ranges() {
    assert_eq!(job_range(0, 2, 4), JobRange { start: 0, end: 1 });
    assert_eq!(job_range(1, 2, 4), JobRange { start: 1, end: 2 });
    assert_eq!(job_range(2, 2, 4), JobRange { start: 2, end: 2 });
    assert_eq!(job_range(3, 2, 4), JobRange { start: 2, end: 2 });
}
