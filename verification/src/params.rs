//! Kernel shapes per instruction set, cache block sizes, and the scaling mode of a depth
//! slice.

use vstd::prelude::*;

verus! {

/// Width of the elements that are multiplied.
#[derive(Clone, Copy, Debug, PartialEq, Eq, Structural)]
pub enum Precision {
    /// Elements of 4 bytes.
    Single,
    /// Elements of 8 bytes.
    Double,
}

/// The instruction sets for which kernels exist.
#[derive(Clone, Copy, Debug, PartialEq, Eq, Structural)]
pub enum Isa {
    Scalar,
    Sse,
    Avx,
    Fma,
    Avx512f,
}

/// Dimensions of a kernel's output tile: `mr` rows by `nr` columns, with `lanes` elements
/// to a vector register.
#[derive(Clone, Copy, Debug, PartialEq, Eq, Structural)]
pub struct KernelShape {
    pub lanes: usize,
    pub mr: usize,
    pub nr: usize,
}

/// Cache block sizes: `mc` rows, `nc` columns, `kc` depth.
#[derive(Clone, Copy, Debug, PartialEq, Eq, Structural)]
pub struct BlockSizes {
    pub mc: usize,
    pub nc: usize,
    pub kc: usize,
}

/// How a kernel treats what the output holds before it runs.
#[derive(Clone, Copy, Debug, PartialEq, Eq, Structural)]
pub enum AlphaMode {
    /// The output is overwritten: `alpha` is 0.
    Zero,
    /// The product is added to the output: `alpha` is 1.
    One,
    /// The output is scaled by `alpha` first.
    General,
}

impl Precision {
    /// Bytes of one element.
    pub open spec fn bytes(self) -> int {
        match self {
            Precision::Single => 4,
            Precision::Double => 8,
        }
    }

    /// Bytes of one element.
    pub fn size(&self) -> (n: usize)
        ensures
            n == self.bytes(),
    {
        match self {
            Precision::Single => 4,
            Precision::Double => 8,
        }
    }
}

impl Isa {
    /// Bytes of a vector register; the scalar kernels work on one element at a time.
    pub open spec fn register_bytes(self, precision: Precision) -> int {
        match self {
            Isa::Scalar => precision.bytes(),
            Isa::Sse => 16,
            Isa::Avx => 32,
            Isa::Fma => 32,
            Isa::Avx512f => 64,
        }
    }

    /// Elements to a vector register.
    pub open spec fn lanes(self, precision: Precision) -> int {
        self.register_bytes(precision) / precision.bytes()
    }

    /// Vector registers to the rows of a tile.
    pub open spec fn registers_per_tile(self) -> int {
        match self {
            Isa::Scalar => 2,
            Isa::Sse => 2,
            Isa::Avx => 2,
            Isa::Fma => 3,
            Isa::Avx512f => 3,
        }
    }

    /// Columns of a tile.
    pub open spec fn tile_cols(self) -> int {
        match self {
            Isa::Avx512f => 8,
            _ => 4,
        }
    }

    /// The tile shape of the instruction set's kernels.
    pub open spec fn shape_spec(self, precision: Precision) -> KernelShape {
        KernelShape {
            lanes: self.lanes(precision) as usize,
            mr: (self.registers_per_tile() * self.lanes(precision)) as usize,
            nr: self.tile_cols() as usize,
        }
    }

    /// The tile shape of the instruction set's kernels.
    pub fn shape(&self, precision: Precision) -> (s: KernelShape)
        ensures
            s == self.shape_spec(precision),
            s.wf(),
            s.lanes == self.lanes(precision),
            s.mr == self.registers_per_tile() * self.lanes(precision),
            s.nr == self.tile_cols(),
    {
        let wide: bool = match precision {
            Precision::Single => true,
            Precision::Double => false,
        };
        let lanes: usize = match self {
            Isa::Scalar => 1,
            Isa::Sse => if wide { 4 } else { 2 },
            Isa::Avx => if wide { 8 } else { 4 },
            Isa::Fma => if wide { 8 } else { 4 },
            Isa::Avx512f => if wide { 16 } else { 8 },
        };
        let regs: usize = match self {
            Isa::Scalar => 2,
            Isa::Sse => 2,
            Isa::Avx => 2,
            Isa::Fma => 3,
            Isa::Avx512f => 3,
        };
        let nr: usize = match self {
            Isa::Avx512f => 8,
            _ => 4,
        };
        KernelShape { lanes, mr: regs * lanes, nr }
    }

    /// The best instruction set among those that the processor offers: the widest first,
    /// the scalar kernels where it offers none.
    pub open spec fn best(avx512f: bool, fma: bool, avx: bool, sse: bool) -> Isa {
        if avx512f {
            Isa::Avx512f
        } else if fma {
            Isa::Fma
        } else if avx {
            Isa::Avx
        } else if sse {
            Isa::Sse
        } else {
            Isa::Scalar
        }
    }

    /// The best instruction set among those that the processor offers.
    pub fn select(avx512f: bool, fma: bool, avx: bool, sse: bool) -> (isa: Isa)
        ensures
            isa == Isa::best(avx512f, fma, avx, sse),
    {
        if avx512f {
            Isa::Avx512f
        } else if fma {
            Isa::Fma
        } else if avx {
            Isa::Avx
        } else if sse {
            Isa::Sse
        } else {
            Isa::Scalar
        }
    }
}

impl KernelShape {
    /// All three dimensions are positive and the rows are whole registers.
    pub open spec fn wf(self) -> bool {
        &&& self.lanes > 0
        &&& self.mr > 0
        &&& self.nr > 0
        &&& self.mr % self.lanes == 0
    }

    /// Rows of the kernel table: registers to the rows of a tile.
    pub open spec fn table_rows(self) -> int {
        self.mr as int / self.lanes as int
    }

    /// Row of the kernel table for a tile of `m_tile` rows.
    pub open spec fn table_row(self, m_tile: int) -> int {
        crate::arith::ceil_div(m_tile, self.lanes as int) - 1
    }

    /// Column of the kernel table for a tile of `n_tile` columns.
    pub open spec fn table_col(self, n_tile: int) -> int {
        n_tile - 1
    }

    /// Place in the kernel table of the kernel for a tile of `m_tile` by `n_tile`.
    pub fn kernel_index(&self, m_tile: usize, n_tile: usize) -> (at: (usize, usize))
        requires
            self.wf(),
            1 <= m_tile <= self.mr,
            1 <= n_tile <= self.nr,
        ensures
            at.0 == self.table_row(m_tile as int),
            at.1 == self.table_col(n_tile as int),
            at.0 < self.table_rows(),
            at.1 < self.nr,
    {
        proof {
            crate::arith::lemma_ceil_div_bounds(m_tile as int, self.lanes as int);
            crate::arith::lemma_ceil_div_monotone(m_tile as int, self.mr as int, self.lanes as int);
            let q = self.mr as int / self.lanes as int;
            vstd::arithmetic::div_mod::lemma_fundamental_div_mod(self.mr as int, self.lanes as int);
            assert(self.lanes * q == q * self.lanes) by (nonlinear_arith);
            crate::arith::lemma_ceil_div_multiple(q, self.lanes as int);
        }
        (crate::arith::div_ceil(m_tile, self.lanes) - 1, n_tile - 1)
    }
}

impl BlockSizes {
    /// All three sizes are positive, `mc` is a multiple of the tile's rows and `nc` of its
    /// columns.
    pub open spec fn wf(self, shape: KernelShape) -> bool {
        &&& self.mc > 0
        &&& self.nc > 0
        &&& self.kc > 0
        &&& self.mc % shape.mr == 0
        &&& self.nc % shape.nr == 0
    }

    /// Whether the sizes are valid for the tile shape.
    pub fn is_valid(&self, shape: &KernelShape) -> (ok: bool)
        requires
            shape.wf(),
        ensures
            ok == self.wf(*shape),
    {
        self.mc > 0 && self.nc > 0 && self.kc > 0 && self.mc % shape.mr == 0 && self.nc % shape.nr
            == 0
    }
}

impl AlphaMode {
    /// The mode of depth slice `slice` of a column panel: the first slice scales the output
    /// as the caller asked, or overwrites it where the output is not read; every later
    /// slice adds to what the earlier ones left.
    pub open spec fn of_slice(self, read_dst: bool, slice: int) -> AlphaMode {
        if slice > 0 {
            AlphaMode::One
        } else if read_dst {
            self
        } else {
            AlphaMode::Zero
        }
    }

    /// The mode of depth slice `slice` of a column panel, where `self` is the caller's.
    pub fn for_slice(&self, read_dst: bool, slice: usize) -> (mode: AlphaMode)
        ensures
            mode == self.of_slice(read_dst, slice as int),
    {
        if slice > 0 {
            AlphaMode::One
        } else if read_dst {
            *self
        } else {
            AlphaMode::Zero
        }
    }
}

} // verus!
