//! The grid of kernel tiles of one depth slice, flattened into a linear job list.
//!
//! The `m` rows are cut into bands of `mc` rows, each band into strips of `mr` rows; the
//! `n_chunk` columns are cut into strips of `nr` columns. Within a band the jobs run column
//! strip by column strip, and within a column strip row strip by row strip. Bands follow one
//! another in the job list.

use crate::arith::{
    ceil_div, chunk_len, div_ceil, lemma_ceil_div_bounds, lemma_ceil_div_monotone, lemma_chunk,
    lemma_chunk_of_point, lemma_chunk_of_point_unique, min_usize,
};
use crate::partition::JobRange;
use vstd::prelude::*;

verus! {

/// Extents and step sizes of the tile grid of one depth slice.
#[derive(Clone, Copy, Debug, PartialEq, Eq, Structural)]
pub struct TileGrid {
    /// Rows of the output.
    pub m: usize,
    /// Columns of the current column panel.
    pub n_chunk: usize,
    /// Rows of a band.
    pub mc: usize,
    /// Rows of a tile.
    pub mr: usize,
    /// Columns of a tile.
    pub nr: usize,
}

/// One kernel tile: its place in the job list and in the output.
#[derive(Clone, Copy, Debug, PartialEq, Eq, Structural)]
pub struct Tile {
    /// Linear index in the job list.
    pub job: usize,
    /// Number of the band that holds the tile.
    pub band: usize,
    /// First row of the band that holds the tile.
    pub row_outer: usize,
    /// Rows of that band.
    pub m_chunk: usize,
    /// Row strip within the band.
    pub i: usize,
    /// Column strip within the column panel.
    pub j: usize,
    /// First row of the tile in the output.
    pub row: usize,
    /// First column of the tile within the column panel.
    pub col: usize,
    /// Rows of the tile, at most `mr`.
    pub m_tile: usize,
    /// Columns of the tile, at most `nr`.
    pub n_tile: usize,
}

impl TileGrid {
    /// Column strips of the panel.
    pub open spec fn n_col_mini(self) -> int {
        ceil_div(self.n_chunk as int, self.nr as int)
    }

    /// Row strips of a full band.
    pub open spec fn rows_per_band(self) -> int {
        ceil_div(self.mc as int, self.mr as int)
    }

    /// Bands of the output.
    pub open spec fn n_bands(self) -> int {
        ceil_div(self.m as int, self.mc as int)
    }

    /// Rows of band `b`.
    pub open spec fn band_rows(self, b: int) -> int {
        chunk_len(self.m as int, self.mc as int, b)
    }

    /// Row strips of band `b`.
    pub open spec fn band_row_mini(self, b: int) -> int {
        ceil_div(self.band_rows(b), self.mr as int)
    }

    /// Jobs of a full band.
    pub open spec fn full_band_jobs(self) -> int {
        self.n_col_mini() * self.rows_per_band()
    }

    /// Jobs of band `b`.
    pub open spec fn band_jobs(self, b: int) -> int {
        self.n_col_mini() * self.band_row_mini(b)
    }

    /// Index of the first job of band `b`.
    pub open spec fn band_first_job(self, b: int) -> int {
        b * self.full_band_jobs()
    }

    /// Jobs of the whole grid.
    pub open spec fn n_jobs(self) -> int {
        self.band_first_job(self.n_bands() - 1) + self.band_jobs(self.n_bands() - 1)
    }

    /// The band that holds job `job`.
    pub open spec fn job_band(self, job: int) -> int {
        job / self.full_band_jobs()
    }

    /// The column strip of job `job`.
    pub open spec fn job_col(self, job: int) -> int {
        let b = self.job_band(job);
        (job - self.band_first_job(b)) / self.band_row_mini(b)
    }

    /// The row strip, within its band, of job `job`.
    pub open spec fn job_row(self, job: int) -> int {
        let b = self.job_band(job);
        (job - self.band_first_job(b)) % self.band_row_mini(b)
    }

    /// First output row of job `job`.
    pub open spec fn job_first_row(self, job: int) -> int {
        self.job_band(job) * self.mc + self.job_row(job) * self.mr
    }

    /// First panel column of job `job`.
    pub open spec fn job_first_col(self, job: int) -> int {
        self.job_col(job) * self.nr
    }

    /// Rows of the tile of job `job`.
    pub open spec fn job_m_tile(self, job: int) -> int {
        chunk_len(self.band_rows(self.job_band(job)), self.mr as int, self.job_row(job))
    }

    /// Columns of the tile of job `job`.
    pub open spec fn job_n_tile(self, job: int) -> int {
        chunk_len(self.n_chunk as int, self.nr as int, self.job_col(job))
    }

    /// Whether the tile of job `job` holds the output cell `(row, col)`.
    pub open spec fn job_covers(self, job: int, row: int, col: int) -> bool {
        &&& self.job_first_row(job) <= row < self.job_first_row(job) + self.job_m_tile(job)
        &&& self.job_first_col(job) <= col < self.job_first_col(job) + self.job_n_tile(job)
    }

    /// The job whose tile holds the output cell `(row, col)`.
    pub open spec fn cell_job(self, row: int, col: int) -> int {
        let b = row / (self.mc as int);
        let i = (row - b * self.mc) / (self.mr as int);
        let j = col / (self.nr as int);
        self.band_first_job(b) + j * self.band_row_mini(b) + i
    }

    /// The tile of job `job`.
    pub open spec fn tile_spec(self, job: int) -> Tile {
        let b = self.job_band(job);
        Tile {
            job: job as usize,
            band: b as usize,
            row_outer: (b * self.mc) as usize,
            m_chunk: self.band_rows(b) as usize,
            i: self.job_row(job) as usize,
            j: self.job_col(job) as usize,
            row: self.job_first_row(job) as usize,
            col: self.job_first_col(job) as usize,
            m_tile: self.job_m_tile(job) as usize,
            n_tile: self.job_n_tile(job) as usize,
        }
    }

    /// All extents and steps are positive, and the job count fits the machine word.
    pub open spec fn wf(self) -> bool {
        &&& self.m > 0
        &&& self.n_chunk > 0
        &&& self.mc > 0
        &&& self.mr > 0
        &&& self.nr > 0
        &&& self.n_jobs() <= usize::MAX
    }

    /// All extents and steps are positive.
    pub open spec fn positive(self) -> bool {
        &&& self.m > 0
        &&& self.n_chunk > 0
        &&& self.mc > 0
        &&& self.mr > 0
        &&& self.nr > 0
    }
}

impl Tile {
    /// Whether this is the tile of job `job` in grid `g`.
    pub open spec fn is_job(self, g: TileGrid, job: int) -> bool {
        let b = g.job_band(job);
        &&& self.job == job
        &&& self.band == b
        &&& self.row_outer == b * g.mc
        &&& self.m_chunk == g.band_rows(b)
        &&& self.i == g.job_row(job)
        &&& self.j == g.job_col(job)
        &&& self.row == g.job_first_row(job)
        &&& self.col == g.job_first_col(job)
        &&& self.m_tile == g.job_m_tile(job)
        &&& self.n_tile == g.job_n_tile(job)
    }
}

/// Sizes of the bands: every band has at least one row strip and at most as many as a full
/// band, and all bands but the last are full.
pub proof fn lemma_band(g: TileGrid, b: int)
    requires
        g.positive(),
        0 <= b < g.n_bands(),
    ensures
        g.n_col_mini() >= 1,
        1 <= g.band_row_mini(b) <= g.rows_per_band(),
        1 <= g.band_jobs(b) <= g.full_band_jobs(),
        b + 1 < g.n_bands() ==> g.band_jobs(b) == g.full_band_jobs(),
        0 <= g.band_first_job(b),
        g.band_first_job(b) + g.band_jobs(b) <= g.n_jobs(),
        b + 1 < g.n_bands() ==> g.band_first_job(b) + g.band_jobs(b) == g.band_first_job(b + 1),
        0 <= b * g.mc < g.m,
        1 <= g.band_rows(b) <= g.mc,
        b * g.mc + g.band_rows(b) <= g.m,
{
    let last = g.n_bands() - 1;
    lemma_chunk(g.m as int, g.mc as int, b);
    lemma_chunk(g.m as int, g.mc as int, last);
    lemma_ceil_div_bounds(g.n_chunk as int, g.nr as int);
    lemma_ceil_div_bounds(g.band_rows(b), g.mr as int);
    lemma_ceil_div_bounds(g.band_rows(last), g.mr as int);
    lemma_ceil_div_monotone(g.band_rows(b), g.mc as int, g.mr as int);
    lemma_ceil_div_monotone(g.band_rows(last), g.mc as int, g.mr as int);
    let nc = g.n_col_mini();
    let rpb = g.rows_per_band();
    let rm = g.band_row_mini(b);
    let rl = g.band_row_mini(last);
    let f = g.full_band_jobs();
    assert(nc * rm <= nc * rpb && nc * rm >= 1 && nc * rl >= 1 && nc * rpb >= 1)
        by (nonlinear_arith)
        requires
            nc >= 1,
            1 <= rm <= rpb,
            1 <= rl,
    ;
    assert(0 <= b * f && (b + 1) * f == b * f + f && (b + 1 <= last ==> (b + 1) * f <= last * f))
        by (nonlinear_arith)
        requires
            0 <= b,
            f >= 1,
    ;
}

/// The job at column strip `j` and row strip `i` of band `b` decomposes into these three.
pub proof fn lemma_job_coords(g: TileGrid, b: int, j: int, i: int)
    requires
        g.positive(),
        0 <= b < g.n_bands(),
        0 <= j < g.n_col_mini(),
        0 <= i < g.band_row_mini(b),
    ensures
        ({
            let job = g.band_first_job(b) + j * g.band_row_mini(b) + i;
            &&& g.band_first_job(b) <= job < g.band_first_job(b) + g.band_jobs(b)
            &&& 0 <= job < g.n_jobs()
            &&& g.job_band(job) == b
            &&& g.job_col(job) == j
            &&& g.job_row(job) == i
        }),
{
    lemma_band(g, b);
    let rm = g.band_row_mini(b);
    let nc = g.n_col_mini();
    let f = g.full_band_jobs();
    let w = j * rm + i;
    assert(0 <= j * rm && j * rm + rm <= nc * rm) by (nonlinear_arith)
        requires
            0 <= j < nc,
            rm >= 1,
    ;
    vstd::arithmetic::div_mod::lemma_fundamental_div_mod_converse(b * f + w, f, b, w);
    vstd::arithmetic::div_mod::lemma_fundamental_div_mod_converse(w, rm, j, i);
}

/// Every job of the grid has a band, a column strip and a row strip in range, and is the
/// job at those coordinates.
pub proof fn lemma_job_decompose(g: TileGrid, job: int)
    requires
        g.positive(),
        0 <= job < g.n_jobs(),
    ensures
        0 <= g.job_band(job) < g.n_bands(),
        0 <= g.job_col(job) < g.n_col_mini(),
        0 <= g.job_row(job) < g.band_row_mini(g.job_band(job)),
        job == g.band_first_job(g.job_band(job)) + g.job_col(job) * g.band_row_mini(
            g.job_band(job),
        ) + g.job_row(job),
{
    let last = g.n_bands() - 1;
    lemma_ceil_div_bounds(g.m as int, g.mc as int);
    lemma_band(g, last);
    let f = g.full_band_jobs();
    let b = job / f;
    vstd::arithmetic::div_mod::lemma_fundamental_div_mod(job, f);
    vstd::arithmetic::div_mod::lemma_mod_bound(job, f);
    assert(f * b == b * f) by (nonlinear_arith);
    assert(b >= 0 && (b > last ==> b * f >= last * f + f)) by (nonlinear_arith)
        requires
            job == b * f + job % f,
            0 <= job % f < f,
            job >= 0,
    ;
    lemma_band(g, b);
    let rm = g.band_row_mini(b);
    let nc = g.n_col_mini();
    let w = job - b * f;
    assert(w < nc * rm);
    let j = w / rm;
    vstd::arithmetic::div_mod::lemma_fundamental_div_mod(w, rm);
    vstd::arithmetic::div_mod::lemma_mod_bound(w, rm);
    assert(rm * j == j * rm) by (nonlinear_arith);
    assert(j >= 0 && (j >= nc ==> j * rm >= nc * rm)) by (nonlinear_arith)
        requires
            w == j * rm + w % rm,
            0 <= w % rm < rm,
            w >= 0,
    ;
}

/// The tile of every job is not empty, no larger than the kernel's tile, and lies inside
/// the output panel.
pub proof fn lemma_tile_in_bounds(g: TileGrid, job: int)
    requires
        g.positive(),
        0 <= job < g.n_jobs(),
    ensures
        1 <= g.job_m_tile(job) <= g.mr,
        1 <= g.job_n_tile(job) <= g.nr,
        0 <= g.job_first_row(job),
        g.job_first_row(job) + g.job_m_tile(job) <= g.m,
        0 <= g.job_first_col(job),
        g.job_first_col(job) + g.job_n_tile(job) <= g.n_chunk,
        g.job_row(job) * g.mr + g.job_m_tile(job) <= g.band_rows(g.job_band(job)),
{
    lemma_job_decompose(g, job);
    let b = g.job_band(job);
    lemma_band(g, b);
    lemma_chunk(g.band_rows(b), g.mr as int, g.job_row(job));
    lemma_chunk(g.n_chunk as int, g.nr as int, g.job_col(job));
}

/// The tile of a job is the one tile that describes it.
pub proof fn lemma_tile_spec(g: TileGrid, job: int, tile: Tile)
    requires
        g.wf(),
        0 <= job < g.n_jobs(),
    ensures
        g.tile_spec(job).is_job(g, job),
        tile.is_job(g, job) <==> tile == g.tile_spec(job),
{
    lemma_job_decompose(g, job);
    lemma_tile_in_bounds(g, job);
    let b = g.job_band(job);
    lemma_band(g, b);
    lemma_ceil_div_bounds(g.n_chunk as int, g.nr as int);
    lemma_ceil_div_bounds(g.band_rows(b), g.mr as int);
    assert(0 <= g.job_row(job) * g.mr) by (nonlinear_arith)
        requires
            0 <= g.job_row(job),
    ;
}

/// Every cell of the output panel lies in the tile of a job of the grid.
pub proof fn lemma_cell_covered(g: TileGrid, row: int, col: int)
    requires
        g.positive(),
        0 <= row < g.m,
        0 <= col < g.n_chunk,
    ensures
        0 <= g.cell_job(row, col) < g.n_jobs(),
        g.job_covers(g.cell_job(row, col), row, col),
{
    let b = row / (g.mc as int);
    lemma_chunk_of_point(g.m as int, g.mc as int, row);
    lemma_band(g, b);
    let within = row - b * g.mc;
    lemma_chunk_of_point(g.band_rows(b), g.mr as int, within);
    lemma_chunk_of_point(g.n_chunk as int, g.nr as int, col);
    let i = within / (g.mr as int);
    let j = col / (g.nr as int);
    lemma_job_coords(g, b, j, i);
}

/// A cell of the output lies in the tile of one job only.
pub proof fn lemma_cell_job_unique(g: TileGrid, job: int, row: int, col: int)
    requires
        g.positive(),
        0 <= job < g.n_jobs(),
        g.job_covers(job, row, col),
    ensures
        job == g.cell_job(row, col),
{
    lemma_job_decompose(g, job);
    lemma_tile_in_bounds(g, job);
    let b = g.job_band(job);
    let i = g.job_row(job);
    let j = g.job_col(job);
    lemma_band(g, b);
    assert(b * g.mc <= row < b * g.mc + chunk_len(g.m as int, g.mc as int, b)) by {
        assert(0 <= i * g.mr) by (nonlinear_arith)
            requires
                i >= 0,
                g.mr > 0,
        ;
    }
    lemma_chunk_of_point_unique(g.m as int, g.mc as int, row, b);
    lemma_chunk_of_point_unique(g.band_rows(b), g.mr as int, row - b * g.mc, i);
    lemma_chunk_of_point_unique(g.n_chunk as int, g.nr as int, col, j);
}

/// Two different jobs of the grid have no output cell in common.
pub proof fn lemma_tiles_disjoint(g: TileGrid, a: int, b: int, row: int, col: int)
    requires
        g.positive(),
        0 <= a < g.n_jobs(),
        0 <= b < g.n_jobs(),
        g.job_covers(a, row, col),
        g.job_covers(b, row, col),
    ensures
        a == b,
{
    lemma_cell_job_unique(g, a, row, col);
    lemma_cell_job_unique(g, b, row, col);
}

/// `x` brought into `[lo, hi]`.
pub open spec fn clamp(x: int, lo: int, hi: int) -> int {
    if x < lo {
        lo
    } else if x > hi {
        hi
    } else {
        x
    }
}

impl TileGrid {
    /// A grid with the given extents and steps, if all are positive and the job count fits
    /// the machine word.
    pub fn new(m: usize, n_chunk: usize, mc: usize, mr: usize, nr: usize) -> (grid: Option<
        TileGrid,
    >)
        ensures
            grid.is_some() == (TileGrid { m, n_chunk, mc, mr, nr }).wf(),
            grid.is_some() ==> grid.unwrap() == (TileGrid { m, n_chunk, mc, mr, nr }),
    {
        if m == 0 || n_chunk == 0 || mc == 0 || mr == 0 || nr == 0 {
            return None;
        }
        let g = TileGrid { m, n_chunk, mc, mr, nr };
        let n_bands: usize = div_ceil(m, mc);
        let n_col: usize = div_ceil(n_chunk, nr);
        proof {
            lemma_ceil_div_bounds(m as int, mc as int);
            lemma_band(g, g.n_bands() - 1);
            lemma_chunk(m as int, mc as int, g.n_bands() - 1);
            assert(0 * g.full_band_jobs() == 0) by (nonlinear_arith);
        }
        let last_rows: usize = m - (n_bands - 1) * mc;
        let last_strips: usize = div_ceil(last_rows, mr);
        if n_bands == 1 {
            return match n_col.checked_mul(last_strips) {
                Some(_) => Some(g),
                None => None,
            };
        }
        let per_band: usize = div_ceil(mc, mr);
        proof {
            assert((n_bands - 1) * g.full_band_jobs() >= g.full_band_jobs()) by (nonlinear_arith)
                requires
                    n_bands >= 2,
                    g.full_band_jobs() >= 1,
            ;
        }
        let full: usize = match n_col.checked_mul(per_band) {
            Some(f) => f,
            None => { return None; },
        };
        let first: usize = match (n_bands - 1).checked_mul(full) {
            Some(f) => f,
            None => { return None; },
        };
        match first.checked_add(n_col * last_strips) {
            Some(_) => Some(g),
            None => None,
        }
    }

    /// Number of jobs of the grid: the sum, over the bands, of column strips times row
    /// strips.
    pub fn count_jobs(&self) -> (n: usize)
        requires
            self.wf(),
        ensures
            n == self.n_jobs(),
    {
        let n_col_mini_chunks: usize = div_ceil(self.n_chunk, self.nr);
        let mut n_jobs: usize = 0;
        let mut row_outer: usize = 0;
        let ghost mut b: int = 0;
        proof {
            lemma_ceil_div_bounds(self.m as int, self.mc as int);
            lemma_band(*self, 0);
        }
        while row_outer != self.m
            invariant
                self.wf(),
                n_col_mini_chunks == self.n_col_mini(),
                0 <= b <= self.n_bands(),
                b < self.n_bands() ==> row_outer == b * self.mc && n_jobs == self.band_first_job(b),
                b == self.n_bands() ==> row_outer == self.m && n_jobs == self.n_jobs(),
            decreases self.n_bands() - b,
        {
            proof {
                lemma_band(*self, b);
            }
            let m_chunk: usize = min_usize(self.mc, self.m - row_outer);
            let n_row_mini_chunks: usize = div_ceil(m_chunk, self.mr);
            n_jobs += n_col_mini_chunks * n_row_mini_chunks;
            row_outer += m_chunk;
            proof {
                if b + 1 < self.n_bands() {
                    lemma_chunk(self.m as int, self.mc as int, b);
                    assert((b + 1) * self.mc == b * self.mc + self.mc) by (nonlinear_arith);
                } else {
                    lemma_chunk(self.m as int, self.mc as int, b);
                }
                b = b + 1;
            }
        }
        proof {
            if b < self.n_bands() {
                lemma_band(*self, b);
            }
        }
        n_jobs
    }

    /// The tiles of the jobs in `range`, in job order.
    ///
    /// The bands are walked in order; a band none of whose jobs lies in the range adds
    /// nothing, and the walk ends at the first band that starts at or after the range's end.
    pub fn thread_tiles(&self, range: JobRange) -> (tiles: Vec<Tile>)
        requires
            self.wf(),
            range.start <= range.end <= self.n_jobs(),
        ensures
            tiles@.len() == range.end - range.start,
            forall|t: int|
                0 <= t < tiles@.len() ==> (#[trigger] tiles@[t]).is_job(*self, range.start + t),
    {
        let n_col_mini_chunks: usize = div_ceil(self.n_chunk, self.nr);
        let mut tiles: Vec<Tile> = Vec::new();
        let mut row_outer: usize = 0;
        let mut job_id: usize = 0;
        let mut band: usize = 0;
        let ghost mut b: int = 0;
        let ghost lo = range.start as int;
        let ghost hi = range.end as int;
        proof {
            lemma_ceil_div_bounds(self.m as int, self.mc as int);
            lemma_band(*self, 0);
        }
        while row_outer != self.m && job_id < range.end
            invariant
                self.wf(),
                lo == range.start,
                hi == range.end,
                lo <= hi <= self.n_jobs(),
                n_col_mini_chunks == self.n_col_mini(),
                0 <= b <= self.n_bands(),
                band == b,
                self.n_bands() <= self.m,
                b < self.n_bands() ==> row_outer == b * self.mc && job_id == self.band_first_job(
                    b,
                ),
                b == self.n_bands() ==> row_outer == self.m && job_id == self.n_jobs(),
                tiles@.len() == clamp(job_id as int, lo, hi) - lo,
                forall|t: int|
                    0 <= t < tiles@.len() ==> (#[trigger] tiles@[t]).is_job(*self, lo + t),
            decreases self.n_bands() - b,
        {
            proof {
                lemma_band(*self, b);
                lemma_chunk(self.m as int, self.mc as int, b);
            }
            let m_chunk: usize = min_usize(self.mc, self.m - row_outer);
            let n_row_mini_chunks: usize = div_ceil(m_chunk, self.mr);
            let n_mini_jobs: usize = n_col_mini_chunks * n_row_mini_chunks;
            if job_id + n_mini_jobs <= range.start {
                job_id += n_mini_jobs;
            } else {
                let ghost first = job_id as int;
                let mut j: usize = 0;
                while j < n_col_mini_chunks
                    invariant
                        self.wf(),
                        lo == range.start,
                        hi == range.end,
                        lo <= hi <= self.n_jobs(),
                        n_col_mini_chunks == self.n_col_mini(),
                        0 <= b < self.n_bands(),
                        band == b,
                        row_outer == b * self.mc,
                        m_chunk == self.band_rows(b),
                        n_row_mini_chunks == self.band_row_mini(b),
                        first == self.band_first_job(b),
                        0 <= j <= n_col_mini_chunks,
                        job_id == first + j * n_row_mini_chunks,
                        first + self.band_jobs(b) <= self.n_jobs(),
                        tiles@.len() == clamp(job_id as int, lo, hi) - lo,
                        forall|t: int|
                            0 <= t < tiles@.len() ==> (#[trigger] tiles@[t]).is_job(*self, lo + t),
                    decreases n_col_mini_chunks - j,
                {
                    let mut i: usize = 0;
                    proof {
                        assert((j + 1) * n_row_mini_chunks == j * n_row_mini_chunks
                            + n_row_mini_chunks && (j + 1) * n_row_mini_chunks
                            <= n_col_mini_chunks * n_row_mini_chunks) by (nonlinear_arith)
                            requires
                                j < n_col_mini_chunks,
                        ;
                    }
                    while i < n_row_mini_chunks
                        invariant
                            self.wf(),
                            lo == range.start,
                            hi == range.end,
                            lo <= hi <= self.n_jobs(),
                            0 <= b < self.n_bands(),
                            band == b,
                            row_outer == b * self.mc,
                            m_chunk == self.band_rows(b),
                            n_row_mini_chunks == self.band_row_mini(b),
                            n_col_mini_chunks == self.n_col_mini(),
                            first == self.band_first_job(b),
                            0 <= j < n_col_mini_chunks,
                            0 <= i <= n_row_mini_chunks,
                            job_id == first + j * n_row_mini_chunks + i,
                            first + (j + 1) * n_row_mini_chunks <= self.n_jobs(),
                            tiles@.len() == clamp(job_id as int, lo, hi) - lo,
                            forall|t: int|
                                0 <= t < tiles@.len() ==> (#[trigger] tiles@[t]).is_job(
                                    *self,
                                    lo + t,
                                ),
                        decreases n_row_mini_chunks - i,
                    {
                        proof {
                            lemma_job_coords(*self, b, j as int, i as int);
                            lemma_tile_in_bounds(*self, job_id as int);
                            lemma_chunk(self.band_rows(b), self.mr as int, i as int);
                            lemma_chunk(self.n_chunk as int, self.nr as int, j as int);
                            assert(self.nr * j == j * self.nr && self.mr * i == i * self.mr)
                                by (nonlinear_arith);
                        }
                        if range.has(job_id) {
                            let col_inner: usize = self.nr * j;
                            let n_chunk_inner: usize = min_usize(self.nr, self.n_chunk - col_inner);
                            let row_inner: usize = self.mr * i;
                            let m_chunk_inner: usize = min_usize(self.mr, m_chunk - row_inner);
                            let tile = Tile {
                                job: job_id,
                                band,
                                row_outer,
                                m_chunk,
                                i,
                                j,
                                row: row_outer + row_inner,
                                col: col_inner,
                                m_tile: m_chunk_inner,
                                n_tile: n_chunk_inner,
                            };
                            assert(tile.is_job(*self, job_id as int));
                            tiles.push(tile);
                        }
                        job_id += 1;
                        i += 1;
                    }
                    j += 1;
                }
            }
            row_outer += m_chunk;
            band += 1;
            proof {
                if b + 1 < self.n_bands() {
                    assert((b + 1) * self.mc == b * self.mc + self.mc) by (nonlinear_arith);
                }
                b = b + 1;
            }
        }
        proof {
            if b < self.n_bands() {
                lemma_band(*self, b);
            }
        }
        tiles
    }
}

} // verus!
