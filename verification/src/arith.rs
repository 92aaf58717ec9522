//! Integer helpers shared by the block and tile computations.

use vstd::prelude::*;

verus! {

/// The smallest integer `q` with `q * b >= a`, for `b > 0`.
pub open spec fn ceil_div(a: int, b: int) -> int {
    (a + b - 1) / b
}

/// Quotient of `a` by `b`, rounded up.
pub fn div_ceil(a: usize, b: usize) -> (q: usize)
    requires
        b > 0,
    ensures
        q == ceil_div(a as int, b as int),
{
    let div: usize = a / b;
    let rem: usize = a % b;
    proof {
        lemma_ceil_div_split(a as int, b as int);
    }
    if rem == 0 {
        div
    } else {
        div + 1
    }
}

/// `ceil_div` agrees with the quotient when `b` divides `a`, and exceeds it by one otherwise.
pub proof fn lemma_ceil_div_split(a: int, b: int)
    requires
        a >= 0,
        b > 0,
    ensures
        a % b == 0 ==> ceil_div(a, b) == a / b,
        a % b != 0 ==> ceil_div(a, b) == a / b + 1,
        a / b <= a,
        a % b != 0 ==> a / b < a,
{
    let q = a / b;
    let r = a % b;
    assert(a == q * b + r && 0 <= r < b) by (nonlinear_arith)
        requires
            q == a / b,
            r == a % b,
            b > 0,
    ;
    assert(0 <= q && q <= q * b) by (nonlinear_arith)
        requires
            a == q * b + r,
            0 <= r < b,
            a >= 0,
            b > 0,
    ;
    if r == 0 {
        assert((q * b + b - 1) / b == q) by (nonlinear_arith)
            requires
                b > 0,
        ;
    } else {
        assert((q * b + r + b - 1) / b == q + 1) by (nonlinear_arith)
            requires
                b > 0,
                0 < r < b,
        ;
    }
}

/// `ceil_div(a, b)` is the least number of steps of size `b` that reach `a`.
pub proof fn lemma_ceil_div_bounds(a: int, b: int)
    requires
        a >= 0,
        b > 0,
    ensures
        ceil_div(a, b) >= 0,
        ceil_div(a, b) * b >= a,
        (ceil_div(a, b) - 1) * b < a || a == 0,
        a > 0 ==> ceil_div(a, b) >= 1,
        a == 0 ==> ceil_div(a, b) == 0,
        ceil_div(a, b) <= a,
{
    lemma_ceil_div_split(a, b);
    let q = a / b;
    let r = a % b;
    assert(a == q * b + r && 0 <= r < b && q >= 0 && (q + 1) * b == q * b + b && (q - 1) * b == q
        * b - b) by (nonlinear_arith)
        requires
            q == a / b,
            r == a % b,
            a >= 0,
            b > 0,
    ;
    if a == 0 {
        assert(q == 0) by (nonlinear_arith)
            requires
                0 == q * b + r,
                r >= 0,
                q >= 0,
                b > 0,
        ;
    }
}

/// Rounding up preserves order.
pub proof fn lemma_ceil_div_monotone(a: int, c: int, b: int)
    requires
        0 <= a <= c,
        b > 0,
    ensures
        ceil_div(a, b) <= ceil_div(c, b),
{
    vstd::arithmetic::div_mod::lemma_div_is_ordered(a + b - 1, c + b - 1, b);
}

/// An exact multiple divides without rounding.
pub proof fn lemma_ceil_div_multiple(q: int, b: int)
    requires
        q >= 0,
        b > 0,
    ensures
        ceil_div(q * b, b) == q,
        (q * b) / b == q,
        (q * b) % b == 0,
{
    vstd::arithmetic::div_mod::lemma_fundamental_div_mod_converse(q * b, b, q, 0);
    vstd::arithmetic::div_mod::lemma_fundamental_div_mod_converse(q * b + b - 1, b, q, b - 1);
}

/// Length of chunk `t` when `[0, total)` is cut into chunks of `step`.
pub open spec fn chunk_len(total: int, step: int, t: int) -> int {
    if step <= total - t * step {
        step
    } else {
        total - t * step
    }
}

/// Every chunk of the cut starts inside the extent and is not empty; all but the last are
/// full.
pub proof fn lemma_chunk(total: int, step: int, t: int)
    requires
        total >= 0,
        step > 0,
        0 <= t < ceil_div(total, step),
    ensures
        0 <= t * step < total,
        1 <= chunk_len(total, step, t) <= step,
        t * step + chunk_len(total, step, t) <= total,
        t + 1 < ceil_div(total, step) ==> chunk_len(total, step, t) == step,
        t + 1 == ceil_div(total, step) ==> t * step + chunk_len(total, step, t) == total,
{
    lemma_ceil_div_bounds(total, step);
    let q = ceil_div(total, step);
    assert(0 <= t * step && t * step <= (q - 1) * step && (t + 1 < q ==> (t + 1) * step <= (q
        - 1) * step) && (t + 1) * step == t * step + step) by (nonlinear_arith)
        requires
            0 <= t < q,
            step > 0,
    ;
    if t + 1 == q {
        assert(q * step == t * step + step) by (nonlinear_arith)
            requires
                t + 1 == q,
        ;
    }
}

/// A point of the extent lies in the chunk whose number is the point divided by the step.
pub proof fn lemma_chunk_of_point(total: int, step: int, x: int)
    requires
        step > 0,
        0 <= x < total,
    ensures
        0 <= x / step < ceil_div(total, step),
        (x / step) * step <= x < (x / step) * step + chunk_len(total, step, x / step),
{
    let t = x / step;
    let q = ceil_div(total, step);
    lemma_ceil_div_bounds(total, step);
    vstd::arithmetic::div_mod::lemma_fundamental_div_mod(x, step);
    vstd::arithmetic::div_mod::lemma_mod_bound(x, step);
    assert(t * step == step * t) by (nonlinear_arith);
    assert(t >= 0 && (t >= q ==> t * step >= q * step)) by (nonlinear_arith)
        requires
            t * step + x % step == x,
            0 <= x % step < step,
            x >= 0,
            q >= 0,
    ;
}

/// A point of the extent lies in no other chunk.
pub proof fn lemma_chunk_of_point_unique(total: int, step: int, x: int, t: int)
    requires
        step > 0,
        t * step <= x < t * step + chunk_len(total, step, t),
    ensures
        t == x / step,
{
    vstd::arithmetic::div_mod::lemma_fundamental_div_mod_converse(x, step, t, x - t * step);
}

/// Whether `n` is a power of two.
pub open spec fn is_power_of_two(n: int) -> bool
    decreases n,
{
    if n <= 0 {
        false
    } else if n == 1 {
        true
    } else {
        n % 2 == 0 && is_power_of_two(n / 2)
    }
}

/// `x` rounded up to a multiple of `step`.
pub open spec fn round_up(x: int, step: int) -> int {
    ceil_div(x, step) * step
}

/// Rounding up gives the least multiple of the step that is no smaller.
pub proof fn lemma_round_up(x: int, step: int)
    requires
        x >= 0,
        step > 0,
    ensures
        x <= round_up(x, step) < x + step,
        round_up(x, step) % step == 0,
        x % step == 0 ==> round_up(x, step) == x,
{
    lemma_ceil_div_bounds(x, step);
    lemma_ceil_div_split(x, step);
    let q = ceil_div(x, step);
    assert((q - 1) * step == q * step - step) by (nonlinear_arith);
    lemma_ceil_div_multiple(q, step);
    if x % step == 0 {
        vstd::arithmetic::div_mod::lemma_fundamental_div_mod(x, step);
        assert(step * (x / step) == (x / step) * step) by (nonlinear_arith);
    }
}

/// Rounding up preserves order.
pub proof fn lemma_round_up_monotone(x: int, y: int, step: int)
    requires
        0 <= x <= y,
        step > 0,
    ensures
        round_up(x, step) <= round_up(y, step),
{
    lemma_ceil_div_monotone(x, y, step);
    let a = ceil_div(x, step);
    let b = ceil_div(y, step);
    assert(a * step <= b * step) by (nonlinear_arith)
        requires
            a <= b,
            step > 0,
    ;
}

/// The smaller of two sizes.
pub fn min_usize(a: usize, b: usize) -> (r: usize)
    ensures
        r == if a <= b { a } else { b },
{
    if a <= b {
        a
    } else {
        b
    }
}

} // verus!
