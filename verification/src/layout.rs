//! Strided views of the three matrices and the canonical form of a multiply.
//!
//! A view addresses the element at `(row, col)` by `offset + row * rs + col * cs`, counted in
//! elements from the base of its matrix. Strides may be negative. The canonical form reverses
//! rows and columns so that the output's strides are not negative, and transposes the whole
//! multiply so that the output is walked along its rows.

use vstd::prelude::*;

verus! {

/// Start and strides of a matrix, in elements.
#[derive(Clone, Copy, Debug, PartialEq, Eq, Structural)]
pub struct MatView {
    /// Element offset of the cell `(0, 0)` from the base of the matrix.
    pub offset: isize,
    /// Row stride.
    pub rs: isize,
    /// Column stride.
    pub cs: isize,
}

/// Whether `x` is the value of an `isize`.
pub open spec fn in_isize(x: int) -> bool {
    isize::MIN <= x <= isize::MAX
}

/// The last index of an extent, or 0 for an empty one.
pub open spec fn last_index(extent: int) -> int {
    if extent > 0 {
        extent - 1
    } else {
        0
    }
}

/// The absolute value of `x`.
pub open spec fn abs(x: int) -> int {
    if x < 0 {
        -x
    } else {
        x
    }
}

impl MatView {
    /// Element offset of the cell `(row, col)`.
    pub open spec fn at(self, row: int, col: int) -> int {
        self.offset + row * self.rs + col * self.cs
    }

    /// The view can address a matrix of `rows` by `cols` cells on this machine: both
    /// extents and the offsets of the four corners are values of `isize`, and both strides
    /// can be negated.
    pub open spec fn fits(self, rows: int, cols: int) -> bool {
        let er = last_index(rows);
        let ec = last_index(cols);
        &&& rows <= isize::MAX
        &&& cols <= isize::MAX
        &&& self.rs > isize::MIN
        &&& self.cs > isize::MIN
        &&& in_isize(self.at(0, 0))
        &&& in_isize(self.at(er, 0))
        &&& in_isize(self.at(0, ec))
        &&& in_isize(self.at(er, ec))
    }

    /// The view with rows and columns exchanged.
    pub open spec fn transposed(self) -> MatView {
        MatView { offset: self.offset, rs: self.cs, cs: self.rs }
    }

    /// The view of the same `rows` rows in reverse order.
    pub open spec fn rows_reversed(self, rows: int) -> MatView {
        MatView {
            offset: self.at(last_index(rows), 0) as isize,
            rs: (-self.rs) as isize,
            cs: self.cs,
        }
    }

    /// The view of the same `cols` columns in reverse order.
    pub open spec fn cols_reversed(self, cols: int) -> MatView {
        MatView {
            offset: self.at(0, last_index(cols)) as isize,
            rs: self.rs,
            cs: (-self.cs) as isize,
        }
    }
}

/// Between the corners, every cell's offset is a value of `isize`.
pub proof fn lemma_fits_cell(v: MatView, rows: int, cols: int, row: int, col: int)
    requires
        v.fits(rows, cols),
        0 <= row <= last_index(rows),
        0 <= col <= last_index(cols),
    ensures
        in_isize(v.at(row, col)),
{
    let er = last_index(rows);
    let ec = last_index(cols);
    let rs = v.rs as int;
    let cs = v.cs as int;
    assert((rs >= 0 ==> 0 <= row * rs <= er * rs) && (rs <= 0 ==> er * rs <= row * rs <= 0))
        by (nonlinear_arith)
        requires
            0 <= row <= er,
    ;
    assert((cs >= 0 ==> 0 <= col * cs <= ec * cs) && (cs <= 0 ==> ec * cs <= col * cs <= 0))
        by (nonlinear_arith)
        requires
            0 <= col <= ec,
    ;
    assert(0 * rs == 0 && 0 * cs == 0) by (nonlinear_arith);
}

/// Reversing the rows keeps the cells: row `row` of the reversed view is row
/// `rows - 1 - row` of the view, and the reversed view fits what the view fits.
pub proof fn lemma_rows_reversed(v: MatView, rows: int, cols: int, row: int, col: int)
    requires
        v.fits(rows, cols),
        rows > 0,
    ensures
        v.rows_reversed(rows).fits(rows, cols),
        v.rows_reversed(rows).at(row, col) == v.at(rows - 1 - row, col),
        v.rows_reversed(rows).rs == -v.rs,
{
    let w = v.rows_reversed(rows);
    let er = rows - 1;
    let ec = last_index(cols);
    let rs = v.rs as int;
    assert(w.offset == v.offset + er * rs);
    assert(w.rs == -rs);
    assert(row * (-rs) == -(row * rs) && (er - row) * rs == er * rs - row * rs && er * (-rs) == -(
    er * rs) && 0 * rs == 0 && 0 * (-rs) == 0) by (nonlinear_arith);
    assert(0 * v.cs == 0) by (nonlinear_arith);
}

/// Reversing the columns keeps the cells: column `col` of the reversed view is column
/// `cols - 1 - col` of the view, and the reversed view fits what the view fits.
pub proof fn lemma_cols_reversed(v: MatView, rows: int, cols: int, row: int, col: int)
    requires
        v.fits(rows, cols),
        cols > 0,
    ensures
        v.cols_reversed(cols).fits(rows, cols),
        v.cols_reversed(cols).at(row, col) == v.at(row, cols - 1 - col),
        v.cols_reversed(cols).cs == -v.cs,
{
    let w = v.cols_reversed(cols);
    let er = last_index(rows);
    let ec = cols - 1;
    let cs = v.cs as int;
    assert(w.offset == v.offset + ec * cs) by {
        assert(0 * v.rs == 0) by (nonlinear_arith);
    }
    assert(w.cs == -cs);
    assert(col * (-cs) == -(col * cs) && (ec - col) * cs == ec * cs - col * cs && ec * (-cs) == -(
    ec * cs) && 0 * cs == 0 && 0 * (-cs) == 0) by (nonlinear_arith);
    assert(0 * v.rs == 0) by (nonlinear_arith);
}

/// Transposing a view exchanges the two indices of every cell.
pub proof fn lemma_view_transposed(v: MatView, rows: int, cols: int, row: int, col: int)
    ensures
        v.transposed().at(col, row) == v.at(row, col),
        v.fits(rows, cols) ==> v.transposed().fits(cols, rows),
        v.transposed().transposed() == v,
{
    assert(0 * v.rs == 0 && 0 * v.cs == 0) by (nonlinear_arith);
}

impl MatView {
    /// A view with offset 0 and the given strides.
    pub fn new(rs: isize, cs: isize) -> (v: MatView)
        ensures
            v == (MatView { offset: 0, rs, cs }),
    {
        MatView { offset: 0, rs, cs }
    }

    /// Element offset of the cell `(row, col)`.
    pub fn index(&self, row: usize, col: usize) -> (off: isize)
        requires
            row <= isize::MAX,
            col <= isize::MAX,
            in_isize(self.at(row as int, col as int)),
        ensures
            off == self.at(row as int, col as int),
    {
        let r: i128 = row as i128;
        let c: i128 = col as i128;
        let rs: i128 = self.rs as i128;
        let cs: i128 = self.cs as i128;
        proof {
            assert(isize::MAX <= 0x7fff_ffff_ffff_ffff && isize::MIN >= -0x8000_0000_0000_0000);
            assert(-0x4000_0000_0000_0000_0000_0000_0000_0000 <= r * rs
                <= 0x4000_0000_0000_0000_0000_0000_0000_0000) by (nonlinear_arith)
                requires
                    0 <= r <= 0x7fff_ffff_ffff_ffff,
                    -0x8000_0000_0000_0000 <= rs <= 0x7fff_ffff_ffff_ffff,
            ;
            assert(-0x4000_0000_0000_0000_0000_0000_0000_0000 <= c * cs
                <= 0x4000_0000_0000_0000_0000_0000_0000_0000) by (nonlinear_arith)
                requires
                    0 <= c <= 0x7fff_ffff_ffff_ffff,
                    -0x8000_0000_0000_0000 <= cs <= 0x7fff_ffff_ffff_ffff,
            ;
        }
        let total: i128 = self.offset as i128 + r * rs + c * cs;
        total as isize
    }

    /// Whether the offset of the cell `(row, col)` is the value of an `isize`.
    pub fn reaches(&self, row: usize, col: usize) -> (ok: bool)
        requires
            row <= isize::MAX,
            col <= isize::MAX,
        ensures
            ok == in_isize(self.at(row as int, col as int)),
    {
        let r: i128 = row as i128;
        let c: i128 = col as i128;
        let rs: i128 = self.rs as i128;
        let cs: i128 = self.cs as i128;
        proof {
            assert(isize::MAX <= 0x7fff_ffff_ffff_ffff && isize::MIN >= -0x8000_0000_0000_0000);
            assert(-0x3fff_ffff_ffff_ffff_8000_0000_0000_0000 <= r * rs
                <= 0x3fff_ffff_ffff_ffff_8000_0000_0000_0000) by (nonlinear_arith)
                requires
                    0 <= r <= 0x7fff_ffff_ffff_ffff,
                    -0x8000_0000_0000_0000 <= rs <= 0x7fff_ffff_ffff_ffff,
            ;
            assert(-0x3fff_ffff_ffff_ffff_8000_0000_0000_0000 <= c * cs
                <= 0x3fff_ffff_ffff_ffff_8000_0000_0000_0000) by (nonlinear_arith)
                requires
                    0 <= c <= 0x7fff_ffff_ffff_ffff,
                    -0x8000_0000_0000_0000 <= cs <= 0x7fff_ffff_ffff_ffff,
            ;
        }
        let total: i128 = self.offset as i128 + r * rs + c * cs;
        isize::MIN as i128 <= total && total <= isize::MAX as i128
    }

    /// Whether the view can address a matrix of `rows` by `cols` cells on this machine.
    pub fn can_address(&self, rows: usize, cols: usize) -> (ok: bool)
        ensures
            ok == self.fits(rows as int, cols as int),
    {
        if rows > isize::MAX as usize || cols > isize::MAX as usize {
            return false;
        }
        if self.rs == isize::MIN || self.cs == isize::MIN {
            return false;
        }
        let er: usize = if rows > 0 {
            rows - 1
        } else {
            0
        };
        let ec: usize = if cols > 0 {
            cols - 1
        } else {
            0
        };
        self.reaches(0, 0) && self.reaches(er, 0) && self.reaches(0, ec) && self.reaches(er, ec)
    }

    /// The view with rows and columns exchanged.
    pub fn transpose(&self) -> (v: MatView)
        ensures
            v == self.transposed(),
    {
        MatView { offset: self.offset, rs: self.cs, cs: self.rs }
    }

    /// The view of the same `rows` rows in reverse order.
    pub fn reverse_rows(&self, rows: usize, cols: usize) -> (v: MatView)
        requires
            rows > 0,
            self.fits(rows as int, cols as int),
        ensures
            v == self.rows_reversed(rows as int),
    {
        MatView { offset: self.index(rows - 1, 0), rs: -self.rs, cs: self.cs }
    }

    /// The view of the same `cols` columns in reverse order.
    pub fn reverse_cols(&self, rows: usize, cols: usize) -> (v: MatView)
        requires
            cols > 0,
            self.fits(rows as int, cols as int),
        ensures
            v == self.cols_reversed(cols as int),
    {
        MatView { offset: self.index(0, cols - 1), rs: self.rs, cs: -self.cs }
    }
}

/// The absolute value of a stride, as an unsigned number.
pub fn stride_abs(x: isize) -> (r: usize)
    requires
        x > isize::MIN,
    ensures
        r == abs(x as int),
{
    if x < 0 {
        (-x) as usize
    } else {
        x as usize
    }
}

} // verus!
