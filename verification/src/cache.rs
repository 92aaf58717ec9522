//! Cache block sizes from the capacities of the caches.
//!
//! The depth `kc` is chosen so that a strip of the right operand, `kc` by `nr`, fits the
//! first cache level; the rows `mc` so that a band of the left operand, `mc` rows of the
//! deepest block, fits the second; the columns `nc` so that a panel of the right operand,
//! `nc` columns of the deepest block, fits the third. No size is larger than the multiply
//! needs, and none is smaller than one tile. A smaller multiply never gets a larger block.

use crate::arith::{ceil_div, div_ceil, lemma_ceil_div_bounds, lemma_ceil_div_multiple};
use crate::params::BlockSizes;
use vstd::prelude::*;

verus! {

/// Capacities of the three cache levels, in bytes.
#[derive(Clone, Copy, Debug, PartialEq, Eq, Structural)]
pub struct CacheSizes {
    pub l1: usize,
    pub l2: usize,
    pub l3: usize,
}

/// `x` brought into `[1, hi]`, for `hi >= 1`.
pub open spec fn at_least_one(x: int, hi: int) -> int {
    if x < 1 {
        1
    } else if x > hi {
        hi
    } else {
        x
    }
}

/// An extent, or 1 for an empty one.
pub open spec fn nonempty(extent: int) -> int {
    if extent < 1 {
        1
    } else {
        extent
    }
}

/// The depth of a block: as many depth indices of a strip `width` wide as fit `capacity`
/// bytes, at least 1 and no more than the multiply has.
pub open spec fn depth_for(k: int, width: int, elem_bytes: int, capacity: int) -> int {
    at_least_one(capacity / (width * elem_bytes), nonempty(k))
}

/// The depth of the deepest block: as many depth indices of a strip `width` wide as fit
/// `capacity` bytes, at least 1.
pub open spec fn deepest(width: int, elem_bytes: int, capacity: int) -> int {
    nonempty(capacity / (width * elem_bytes))
}

/// The rows or columns of a block: as many whole strips `width` wide and `kc` deep as fit
/// `capacity` bytes, at least one strip, no more strips than cover `extent`, and no more
/// than a machine word can count.
pub open spec fn extent_for(extent: int, width: int, kc: int, elem_bytes: int, capacity: int)
    -> int {
    let most = ceil_div(nonempty(extent), width);
    let countable = (usize::MAX as int) / width;
    let strips = at_least_one(
        (capacity / (kc * elem_bytes)) / width,
        if most <= countable {
            most
        } else {
            countable
        },
    );
    strips * width
}

/// The block sizes for a multiply of `m` by `n` by `k` with tiles of `mr` by `nr` and
/// elements of `elem_bytes` bytes.
pub open spec fn kernel_params_spec(
    m: int,
    n: int,
    k: int,
    mr: int,
    nr: int,
    elem_bytes: int,
    caches: CacheSizes,
) -> BlockSizes {
    let deep = deepest(nr, elem_bytes, caches.l1 as int);
    BlockSizes {
        mc: extent_for(m, mr, deep, elem_bytes, caches.l2 as int) as usize,
        nc: extent_for(n, nr, deep, elem_bytes, caches.l3 as int) as usize,
        kc: depth_for(k, nr, elem_bytes, caches.l1 as int) as usize,
    }
}

/// `capacity / (a * b)`, also where the product leaves the machine word.
fn capacity_over(capacity: usize, a: usize, b: usize) -> (q: usize)
    requires
        a > 0,
        b > 0,
    ensures
        q == (capacity as int) / (a * b),
{
    proof {
        assert(a * b > 0) by (nonlinear_arith)
            requires
                a > 0,
                b > 0,
        ;
    }
    match a.checked_mul(b) {
        Some(bytes) => capacity / bytes,
        None => {
            proof {
                vstd::arithmetic::div_mod::lemma_basic_div(capacity as int, a * b);
            }
            0
        },
    }
}

/// The rows or columns of a block.
fn block_extent(extent: usize, width: usize, kc: usize, elem_bytes: usize, capacity: usize) -> (r:
    usize)
    requires
        width > 0,
        kc > 0,
        elem_bytes > 0,
    ensures
        r == extent_for(extent as int, width as int, kc as int, elem_bytes as int, capacity as int),
        r >= width,
        r % width == 0,
        r - width < nonempty(extent as int),
        r * kc * elem_bytes <= capacity || r == width,
{
    let needed: usize = if extent < 1 {
        1
    } else {
        extent
    };
    let most: usize = div_ceil(needed, width);
    let countable: usize = usize::MAX / width;
    let hi: usize = if most <= countable {
        most
    } else {
        countable
    };
    let fitting: usize = capacity_over(capacity, kc, elem_bytes) / width;
    proof {
        lemma_ceil_div_bounds(needed as int, width as int);
        vstd::arithmetic::div_mod::lemma_fundamental_div_mod(usize::MAX as int, width as int);
        vstd::arithmetic::div_mod::lemma_mod_bound(usize::MAX as int, width as int);
        assert(countable >= 1) by (nonlinear_arith)
            requires
                usize::MAX == width * countable + (usize::MAX as int) % (width as int),
                0 <= (usize::MAX as int) % (width as int) < width,
                width <= usize::MAX,
        ;
    }
    let strips: usize = if fitting < 1 {
        1
    } else if fitting > hi {
        hi
    } else {
        fitting
    };
    proof {
        let s = strips as int;
        let w = width as int;
        assert(s * w <= countable * w && countable * w == w * countable && s * w >= w && (s - 1)
            * w == s * w - w && (s - 1) * w <= (most - 1) * w) by (nonlinear_arith)
            requires
                1 <= s <= countable,
                s <= most,
                w > 0,
        ;
        lemma_ceil_div_multiple(s, w);
        if s > 1 {
            // the strips fit: s <= capacity / (kc * elem_bytes) / width
            let bytes = kc * elem_bytes;
            let per = (capacity as int) / bytes;
            assert(bytes > 0) by (nonlinear_arith)
                requires
                    kc > 0,
                    elem_bytes > 0,
                    bytes == kc * elem_bytes,
            ;
            vstd::arithmetic::div_mod::lemma_fundamental_div_mod(per, w);
            vstd::arithmetic::div_mod::lemma_mod_bound(per, w);
            vstd::arithmetic::div_mod::lemma_fundamental_div_mod(capacity as int, bytes);
            vstd::arithmetic::div_mod::lemma_mod_bound(capacity as int, bytes);
            assert(s * w <= per) by (nonlinear_arith)
                requires
                    s <= per / w,
                    per == w * (per / w) + per % w,
                    0 <= per % w,
                    w > 0,
            ;
            assert((s * w) * kc * elem_bytes <= capacity) by (nonlinear_arith)
                requires
                    s * w <= per,
                    capacity == bytes * per + (capacity as int) % bytes,
                    0 <= (capacity as int) % bytes,
                    bytes == kc * elem_bytes,
                    bytes > 0,
                    s * w >= 0,
            ;
        } else {
            assert(s * w == w) by (nonlinear_arith)
                requires
                    s == 1,
            ;
        }
    }
    strips * width
}

/// The block sizes for a multiply of `m` by `n` by `k` with tiles of `mr` by `nr` and
/// elements of `elem_bytes` bytes, on a machine with the given caches.
///
/// All three sizes are positive, `mc` is a multiple of `mr` and `nc` of `nr`. A strip of
/// the right operand fits the first cache level unless `kc` is 1, a band of the left
/// operand the second unless `mc` is `mr`, a panel of the right operand the third unless
/// `nc` is `nr`. The rows and columns are chosen for the deepest block that the first
/// level holds, so that they do not depend on the depth of the multiply.
pub fn kernel_params(
    m: usize,
    n: usize,
    k: usize,
    mr: usize,
    nr: usize,
    elem_bytes: usize,
    caches: CacheSizes,
) -> (blocks: BlockSizes)
    requires
        mr > 0,
        nr > 0,
        elem_bytes > 0,
    ensures
        blocks == kernel_params_spec(
            m as int,
            n as int,
            k as int,
            mr as int,
            nr as int,
            elem_bytes as int,
            caches,
        ),
        blocks.mc > 0,
        blocks.nc > 0,
        blocks.kc > 0,
        blocks.mc % mr == 0,
        blocks.nc % nr == 0,
        blocks.kc <= nonempty(k as int),
        blocks.mc - mr < nonempty(m as int),
        blocks.nc - nr < nonempty(n as int),
        blocks.kc * nr * elem_bytes <= caches.l1 || blocks.kc == 1,
        blocks.mc * blocks.kc * elem_bytes <= caches.l2 || blocks.mc == mr,
        blocks.nc * blocks.kc * elem_bytes <= caches.l3 || blocks.nc == nr,
{
    let depth_needed: usize = if k < 1 {
        1
    } else {
        k
    };
    let fitting: usize = capacity_over(caches.l1, nr, elem_bytes);
    let kc: usize = if fitting < 1 {
        1
    } else if fitting > depth_needed {
        depth_needed
    } else {
        fitting
    };
    proof {
        if kc > 1 {
            let bytes = nr * elem_bytes;
            assert(bytes > 0) by (nonlinear_arith)
                requires
                    nr > 0,
                    elem_bytes > 0,
                    bytes == nr * elem_bytes,
            ;
            vstd::arithmetic::div_mod::lemma_fundamental_div_mod(caches.l1 as int, bytes);
            vstd::arithmetic::div_mod::lemma_mod_bound(caches.l1 as int, bytes);
            assert(kc * nr * elem_bytes <= caches.l1) by (nonlinear_arith)
                requires
                    kc <= (caches.l1 as int) / bytes,
                    caches.l1 == bytes * ((caches.l1 as int) / bytes) + (caches.l1 as int) % bytes,
                    0 <= (caches.l1 as int) % bytes,
                    bytes == nr * elem_bytes,
                    bytes > 0,
                    kc >= 1,
            ;
        }
    }
    let deep: usize = if fitting < 1 {
        1
    } else {
        fitting
    };
    let mc: usize = block_extent(m, mr, deep, elem_bytes, caches.l2);
    let nc: usize = block_extent(n, nr, deep, elem_bytes, caches.l3);
    proof {
        assert(mc * kc * elem_bytes <= mc * deep * elem_bytes && nc * kc * elem_bytes <= nc * deep
            * elem_bytes) by (nonlinear_arith)
            requires
                0 <= kc <= deep,
                mc >= 0,
                nc >= 0,
                elem_bytes >= 0,
        ;
    }
    BlockSizes { mc, nc, kc }
}

/// The rows or columns of a block are at least one strip and can be counted in a machine
/// word, and a smaller extent never gets more of them.
pub proof fn lemma_extent_monotone(
    small: int,
    big: int,
    width: int,
    kc: int,
    elem_bytes: int,
    capacity: int,
)
    requires
        small <= big,
        0 < width <= usize::MAX,
    ensures
        width <= extent_for(small, width, kc, elem_bytes, capacity) <= extent_for(
            big,
            width,
            kc,
            elem_bytes,
            capacity,
        ) <= usize::MAX,
{
    let countable = (usize::MAX as int) / width;
    vstd::arithmetic::div_mod::lemma_fundamental_div_mod(usize::MAX as int, width);
    vstd::arithmetic::div_mod::lemma_mod_bound(usize::MAX as int, width);
    assert(countable >= 1) by (nonlinear_arith)
        requires
            usize::MAX == width * countable + (usize::MAX as int) % width,
            0 <= (usize::MAX as int) % width < width,
            width <= usize::MAX,
    ;
    lemma_ceil_div_bounds(nonempty(small), width);
    lemma_ceil_div_bounds(nonempty(big), width);
    crate::arith::lemma_ceil_div_monotone(nonempty(small), nonempty(big), width);
    let fitting = (capacity / (kc * elem_bytes)) / width;
    let most_small = ceil_div(nonempty(small), width);
    let most_big = ceil_div(nonempty(big), width);
    let a = at_least_one(fitting, if most_small <= countable {
        most_small
    } else {
        countable
    });
    let b = at_least_one(fitting, if most_big <= countable {
        most_big
    } else {
        countable
    });
    assert(width <= a * width && a * width <= b * width && b * width <= countable * width
        && countable * width == width * countable) by (nonlinear_arith)
        requires
            1 <= a <= b,
            b <= countable,
            width > 0,
    ;
}

/// A smaller multiply never gets a larger block.
pub proof fn lemma_kernel_params_monotone(
    m: int,
    n: int,
    k: int,
    big_m: int,
    big_n: int,
    big_k: int,
    mr: int,
    nr: int,
    elem_bytes: int,
    caches: CacheSizes,
)
    requires
        m <= big_m <= usize::MAX,
        n <= big_n <= usize::MAX,
        k <= big_k <= usize::MAX,
        0 < mr <= usize::MAX,
        0 < nr <= usize::MAX,
    ensures
        ({
            let small = kernel_params_spec(m, n, k, mr, nr, elem_bytes, caches);
            let big = kernel_params_spec(big_m, big_n, big_k, mr, nr, elem_bytes, caches);
            &&& small.mc <= big.mc
            &&& small.nc <= big.nc
            &&& small.kc <= big.kc
        }),
{
    let deep = deepest(nr, elem_bytes, caches.l1 as int);
    lemma_extent_monotone(m, big_m, mr, deep, elem_bytes, caches.l2 as int);
    lemma_extent_monotone(n, big_n, nr, deep, elem_bytes, caches.l3 as int);
}

} // verus!
