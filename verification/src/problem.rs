//! A multiply `D <- alpha * D + beta * L * R` as extents and three strided views, and its
//! canonical form.

use crate::layout::{
    abs, lemma_cols_reversed, lemma_fits_cell, lemma_rows_reversed, lemma_view_transposed,
    stride_abs, MatView,
};
use vstd::prelude::*;

verus! {

/// Extents and views of one multiply: `dst` is `m` by `n`, `lhs` is `m` by `k`, `rhs` is
/// `k` by `n`.
#[derive(Clone, Copy, Debug, PartialEq, Eq, Structural)]
pub struct Problem {
    pub m: usize,
    pub n: usize,
    pub k: usize,
    pub dst: MatView,
    pub lhs: MatView,
    pub rhs: MatView,
}

impl Problem {
    /// Each view fits the extents of its matrix.
    pub open spec fn wf(self) -> bool {
        &&& self.dst.fits(self.m as int, self.n as int)
        &&& self.lhs.fits(self.m as int, self.k as int)
        &&& self.rhs.fits(self.k as int, self.n as int)
    }

    /// The same multiply with the rows of the output, and with them those of the left
    /// operand, in reverse order.
    pub open spec fn rows_flipped(self) -> Problem {
        Problem {
            dst: self.dst.rows_reversed(self.m as int),
            lhs: self.lhs.rows_reversed(self.m as int),
            ..self
        }
    }

    /// The same multiply with the columns of the output, and with them those of the right
    /// operand, in reverse order.
    pub open spec fn cols_flipped(self) -> Problem {
        Problem {
            dst: self.dst.cols_reversed(self.n as int),
            rhs: self.rhs.cols_reversed(self.n as int),
            ..self
        }
    }

    /// The transposed multiply: the output, and the two operands exchanged, each with rows
    /// and columns exchanged.
    pub open spec fn transposed(self) -> Problem {
        Problem {
            m: self.n,
            n: self.m,
            k: self.k,
            dst: self.dst.transposed(),
            lhs: self.rhs.transposed(),
            rhs: self.lhs.transposed(),
        }
    }

    /// Rows reversed where the output's row stride is negative.
    pub open spec fn rows_forward(self) -> Problem {
        if self.dst.rs < 0 {
            self.rows_flipped()
        } else {
            self
        }
    }

    /// Columns reversed where the output's column stride is negative.
    pub open spec fn cols_forward(self) -> Problem {
        if self.dst.cs < 0 {
            self.cols_flipped()
        } else {
            self
        }
    }

    /// Whether the output's column stride is the smaller one.
    pub open spec fn is_wide(self) -> bool {
        self.dst.cs < self.dst.rs
    }

    /// Transposed where the output's column stride is the smaller one.
    pub open spec fn made_tall(self) -> Problem {
        if self.is_wide() {
            self.transposed()
        } else {
            self
        }
    }

    /// Whether the output has at most four rows and the right operand's column stride is,
    /// in absolute value, no larger than its row stride.
    pub open spec fn is_row_vector_like(self) -> bool {
        self.m <= 4 && abs(self.rhs.cs as int) <= abs(self.rhs.rs as int)
    }

    /// Transposed where the output has at most four rows and the right operand is walked
    /// faster along its columns.
    pub open spec fn made_column_vector_like(self) -> Problem {
        if self.is_row_vector_like() {
            self.transposed()
        } else {
            self
        }
    }

    /// The canonical form: nothing changes for an empty output; otherwise rows and columns
    /// are brought into forward order, then the multiply is made tall, then a multiply with
    /// few rows is turned into one with few columns.
    pub open spec fn canonical(self) -> Problem {
        if self.m == 0 || self.n == 0 {
            self
        } else {
            self.rows_forward().cols_forward().made_tall().made_column_vector_like()
        }
    }

    /// Whether the canonical form exchanges the roles of the two operands.
    pub open spec fn is_turned(self) -> bool {
        let a = self.rows_forward().cols_forward();
        self.m != 0 && self.n != 0 && (a.is_wide() != a.made_tall().is_row_vector_like())
    }

    /// The row of this multiply's output that holds cell `(row, col)` of the canonical
    /// form's output.
    pub open spec fn origin_row(self, row: int, col: int) -> int {
        let r = if self.is_turned() {
            col
        } else {
            row
        };
        if self.m != 0 && self.n != 0 && self.dst.rs < 0 {
            self.m - 1 - r
        } else {
            r
        }
    }

    /// The column of this multiply's output that holds cell `(row, col)` of the canonical
    /// form's output.
    pub open spec fn origin_col(self, row: int, col: int) -> int {
        let c = if self.is_turned() {
            row
        } else {
            col
        };
        if self.m != 0 && self.n != 0 && self.dst.cs < 0 {
            self.n - 1 - c
        } else {
            c
        }
    }
}

/// Reversing the rows keeps validity and the cells: row `row` of the output and of the
/// left operand is row `m - 1 - row` of the given ones.
pub proof fn lemma_rows_flipped(p: Problem, row: int, col: int, depth: int)
    requires
        p.wf(),
        p.m > 0,
    ensures
        p.rows_flipped().wf(),
        p.rows_flipped().dst.at(row, col) == p.dst.at(p.m - 1 - row, col),
        p.rows_flipped().lhs.at(row, depth) == p.lhs.at(p.m - 1 - row, depth),
        p.rows_flipped().rhs == p.rhs,
        p.rows_flipped().dst.rs == -p.dst.rs,
        p.rows_flipped().dst.cs == p.dst.cs,
{
    lemma_rows_reversed(p.dst, p.m as int, p.n as int, row, col);
    lemma_rows_reversed(p.lhs, p.m as int, p.k as int, row, depth);
}

/// Reversing the columns keeps validity and the cells: column `col` of the output and of
/// the right operand is column `n - 1 - col` of the given ones.
pub proof fn lemma_cols_flipped(p: Problem, row: int, col: int, depth: int)
    requires
        p.wf(),
        p.n > 0,
    ensures
        p.cols_flipped().wf(),
        p.cols_flipped().dst.at(row, col) == p.dst.at(row, p.n - 1 - col),
        p.cols_flipped().rhs.at(depth, col) == p.rhs.at(depth, p.n - 1 - col),
        p.cols_flipped().lhs == p.lhs,
        p.cols_flipped().dst.cs == -p.dst.cs,
        p.cols_flipped().dst.rs == p.dst.rs,
{
    lemma_cols_reversed(p.dst, p.m as int, p.n as int, row, col);
    lemma_cols_reversed(p.rhs, p.k as int, p.n as int, depth, col);
}

/// The transposed multiply is valid where the given one is, addresses the same output cell
/// with exchanged indices, and takes for it the same pairs of operand cells, with the
/// operands' roles exchanged. Transposing twice gives the multiply back.
pub proof fn lemma_transposed(p: Problem, row: int, col: int, depth: int)
    ensures
        p.wf() ==> p.transposed().wf(),
        p.transposed().dst.at(col, row) == p.dst.at(row, col),
        p.transposed().lhs.at(col, depth) == p.rhs.at(depth, col),
        p.transposed().rhs.at(depth, row) == p.lhs.at(row, depth),
        p.transposed().transposed() == p,
{
    lemma_view_transposed(p.dst, p.m as int, p.n as int, row, col);
    lemma_view_transposed(p.rhs, p.k as int, p.n as int, depth, col);
    lemma_view_transposed(p.lhs, p.m as int, p.k as int, row, depth);
}

/// The canonical form is valid, has the same depth and, up to their order, the same output
/// extents, and its output strides are not negative.
pub proof fn lemma_canonical_shape(p: Problem)
    requires
        p.wf(),
    ensures
        p.canonical().wf(),
        p.canonical().k == p.k,
        p.is_turned() ==> p.canonical().m == p.n && p.canonical().n == p.m,
        !p.is_turned() ==> p.canonical().m == p.m && p.canonical().n == p.n,
        p.m != 0 && p.n != 0 ==> p.canonical().dst.rs >= 0 && p.canonical().dst.cs >= 0,
{
    if p.m != 0 && p.n != 0 {
        let a = p.rows_forward();
        if p.dst.rs < 0 {
            lemma_rows_flipped(p, 0, 0, 0);
        }
        let b = a.cols_forward();
        if a.dst.cs < 0 {
            lemma_cols_flipped(a, 0, 0, 0);
        }
        let c = b.made_tall();
        lemma_transposed(b, 0, 0, 0);
        lemma_transposed(c, 0, 0, 0);
    }
}

/// The canonical form is the same multiply: cell `(row, col)` of its output is the cell
/// `(origin_row, origin_col)` of the given output, and the operand cells that it pairs at
/// each depth are those that the given multiply pairs for that cell.
pub proof fn lemma_canonical_cells(p: Problem, row: int, col: int, depth: int)
    requires
        p.wf(),
        p.m != 0,
        p.n != 0,
        0 <= row < p.canonical().m,
        0 <= col < p.canonical().n,
    ensures
        0 <= p.origin_row(row, col) < p.m,
        0 <= p.origin_col(row, col) < p.n,
        p.canonical().dst.at(row, col) == p.dst.at(p.origin_row(row, col), p.origin_col(row, col)),
        !p.is_turned() ==> p.canonical().lhs.at(row, depth) == p.lhs.at(
            p.origin_row(row, col),
            depth,
        ) && p.canonical().rhs.at(depth, col) == p.rhs.at(depth, p.origin_col(row, col)),
        p.is_turned() ==> p.canonical().lhs.at(row, depth) == p.rhs.at(
            depth,
            p.origin_col(row, col),
        ) && p.canonical().rhs.at(depth, col) == p.lhs.at(p.origin_row(row, col), depth),
{
    lemma_canonical_shape(p);
    let a = p.rows_forward();
    let b = a.cols_forward();
    let c = b.made_tall();
    let q = c.made_column_vector_like();
    if p.dst.rs < 0 {
        lemma_rows_flipped(p, 0, 0, 0);
    }
    if a.dst.cs < 0 {
        lemma_cols_flipped(a, 0, 0, 0);
    }
    lemma_transposed(b, 0, 0, 0);
    // cell of `c` that is cell (row, col) of `q`
    let (r2, c2) = if c.is_row_vector_like() {
        lemma_transposed(c, col, row, depth);
        (col, row)
    } else {
        (row, col)
    };
    // cell of `b` that is cell (r2, c2) of `c`
    let (r1, c1) = if b.is_wide() {
        lemma_transposed(b, c2, r2, depth);
        (c2, r2)
    } else {
        (r2, c2)
    };
    if a.dst.cs < 0 {
        lemma_cols_flipped(a, r1, c1, depth);
    }
    if p.dst.rs < 0 {
        lemma_rows_flipped(p, r1, if a.dst.cs < 0 {
            a.n - 1 - c1
        } else {
            c1
        }, depth);
    }
}

/// Transposing both operands, exchanging them, and exchanging the output's strides gives
/// the same multiply: the canonical form of the transposed multiply writes each cell of the
/// given output from the operand cells that the given multiply pairs for it.
pub proof fn lemma_transposed_multiply(p: Problem, row: int, col: int, depth: int)
    requires
        p.wf(),
        p.m != 0,
        p.n != 0,
        0 <= row < p.transposed().canonical().m,
        0 <= col < p.transposed().canonical().n,
    ensures
        ({
            let t = p.transposed();
            let q = t.canonical();
            // the cell of the given output that is written
            let r = t.origin_col(row, col);
            let c = t.origin_row(row, col);
            &&& 0 <= r < p.m
            &&& 0 <= c < p.n
            &&& q.k == p.k
            &&& q.dst.at(row, col) == p.dst.at(r, c)
            &&& t.is_turned() ==> q.lhs.at(row, depth) == p.lhs.at(r, depth) && q.rhs.at(
                depth,
                col,
            ) == p.rhs.at(depth, c)
            &&& !t.is_turned() ==> q.lhs.at(row, depth) == p.rhs.at(depth, c) && q.rhs.at(
                depth,
                col,
            ) == p.lhs.at(r, depth)
        }),
{
    let t = p.transposed();
    lemma_transposed(p, 0, 0, 0);
    lemma_canonical_shape(t);
    lemma_canonical_cells(t, row, col, depth);
    let r = t.origin_col(row, col);
    let c = t.origin_row(row, col);
    lemma_transposed(p, r, c, depth);
}

impl Problem {
    /// Whether each view fits the extents of its matrix.
    pub fn is_valid(&self) -> (ok: bool)
        ensures
            ok == self.wf(),
    {
        self.dst.can_address(self.m, self.n) && self.lhs.can_address(self.m, self.k)
            && self.rhs.can_address(self.k, self.n)
    }

    /// Element offset of the output cell `(row, col)`.
    pub fn dst_index(&self, row: usize, col: usize) -> (off: isize)
        requires
            self.wf(),
            row < self.m,
            col < self.n,
        ensures
            off == self.dst.at(row as int, col as int),
    {
        proof {
            lemma_fits_cell(self.dst, self.m as int, self.n as int, row as int, col as int);
        }
        self.dst.index(row, col)
    }

    /// Element offset of the left operand's entry for row `row` at depth index `depth`.
    pub fn lhs_index(&self, row: usize, depth: usize) -> (off: isize)
        requires
            self.wf(),
            row < self.m,
            depth < self.k,
        ensures
            off == self.lhs.at(row as int, depth as int),
    {
        proof {
            lemma_fits_cell(self.lhs, self.m as int, self.k as int, row as int, depth as int);
        }
        self.lhs.index(row, depth)
    }

    /// Element offset of the right operand's entry for column `col` at depth index
    /// `depth`.
    pub fn rhs_index(&self, depth: usize, col: usize) -> (off: isize)
        requires
            self.wf(),
            depth < self.k,
            col < self.n,
        ensures
            off == self.rhs.at(depth as int, col as int),
    {
        proof {
            lemma_fits_cell(self.rhs, self.k as int, self.n as int, depth as int, col as int);
        }
        self.rhs.index(depth, col)
    }

    /// The transposed multiply.
    pub fn transpose(&self) -> (q: Problem)
        ensures
            q == self.transposed(),
    {
        Problem {
            m: self.n,
            n: self.m,
            k: self.k,
            dst: self.dst.transpose(),
            lhs: self.rhs.transpose(),
            rhs: self.lhs.transpose(),
        }
    }

    /// The canonical form of the multiply.
    pub fn canonicalize(&self) -> (q: Problem)
        requires
            self.wf(),
        ensures
            q == self.canonical(),
            q.wf(),
            self.m != 0 && self.n != 0 ==> q.dst.rs >= 0 && q.dst.cs >= 0,
    {
        proof {
            lemma_canonical_shape(*self);
        }
        if self.m == 0 || self.n == 0 {
            return *self;
        }
        let mut p: Problem = *self;
        if p.dst.rs < 0 {
            proof {
                lemma_rows_flipped(p, 0, 0, 0);
            }
            p = Problem {
                dst: p.dst.reverse_rows(p.m, p.n),
                lhs: p.lhs.reverse_rows(p.m, p.k),
                ..p
            };
        }
        if p.dst.cs < 0 {
            proof {
                lemma_cols_flipped(p, 0, 0, 0);
            }
            p = Problem {
                dst: p.dst.reverse_cols(p.m, p.n),
                rhs: p.rhs.reverse_cols(p.k, p.n),
                ..p
            };
        }
        if p.dst.cs < p.dst.rs {
            proof {
                lemma_transposed(p, 0, 0, 0);
            }
            p = p.transpose();
        }
        if p.m <= 4 && stride_abs(p.rhs.cs) <= stride_abs(p.rhs.rs) {
            p = p.transpose();
        }
        p
    }
}

} // verus!
