//! Fixed-point scalars: signed Q15.16 numbers held in `i32`.
//!
//! A stored integer `v` stands for the real number `v / 65536`. Sums of
//! products are accumulated exactly and rounded once, toward minus infinity;
//! a result outside the `i32` range saturates at the nearer end.
use vstd::prelude::*;

verus! {

/// The scalar that stands for `1.0`.
pub const ONE: i32 = 65536;

/// `v` clamped to the range of `i32`.
pub open spec fn sat(v: int) -> int {
    if v < i32::MIN {
        i32::MIN as int
    } else if v > i32::MAX {
        i32::MAX as int
    } else {
        v
    }
}

/// The scalar for a sum `s` of products of two scalars: `s / ONE`, rounded
/// down and saturated.
pub open spec fn rescale(s: int) -> int {
    sat(s / (ONE as int))
}

/// The sum of `a[i] * b[i]` over `i < n`.
pub open spec fn dot_upto(a: Seq<i32>, b: Seq<i32>, n: nat) -> int
    decreases n,
{
    if n == 0 {
        0
    } else {
        dot_upto(a, b, (n - 1) as nat) + a[n - 1] * b[n - 1]
    }
}

/// The inner product of `a` with the first `a.len()` entries of `b`.
pub open spec fn dot(a: Seq<i32>, b: Seq<i32>) -> int {
    dot_upto(a, b, a.len())
}

/// One entry of an affine map: the rescaled inner product of an input row
/// with a weight row, plus the bias, each step saturated.
pub open spec fn affine_entry(x: Seq<i32>, w: Seq<i32>, b: int) -> int {
    sat(rescale(dot(x, w)) + b)
}

/// `b` is the scalar for `1 / sqrt(n)`, rounded down: the largest `b` with
/// `b * b * n <= ONE * ONE`.
pub open spec fn is_inv_sqrt(n: int, b: int) -> bool {
    &&& 0 <= b
    &&& b * b * n <= ONE * ONE
    &&& ONE * ONE < (b + 1) * (b + 1) * n
}

/// The scalar for `1 / sqrt(n)`, rounded down.
pub open spec fn inv_sqrt_spec(n: int) -> int {
    choose|b: int| is_inv_sqrt(n, b)
}

/// At most one scalar is the rounded-down `1 / sqrt(n)`.
pub proof fn lemma_inv_sqrt_unique(n: int, b1: int, b2: int)
    requires
        is_inv_sqrt(n, b1),
        is_inv_sqrt(n, b2),
    ensures
        b1 == b2,
{
    if b1 < b2 {
        assert((b1 + 1) * (b1 + 1) * n <= b2 * b2 * n) by (nonlinear_arith)
            requires
                0 <= b1,
                b1 + 1 <= b2,
                ONE * ONE < (b1 + 1) * (b1 + 1) * n,
        ;
    } else if b2 < b1 {
        assert((b2 + 1) * (b2 + 1) * n <= b1 * b1 * n) by (nonlinear_arith)
            requires
                0 <= b2,
                b2 + 1 <= b1,
                ONE * ONE < (b2 + 1) * (b2 + 1) * n,
        ;
    }
}

/// Every `n >= 1` has a rounded-down inverse square root, and it lies
/// between zero and one.
pub proof fn lemma_inv_sqrt_exists(n: int)
    requires
        n >= 1,
    ensures
        is_inv_sqrt(n, inv_sqrt_spec(n)),
        0 <= inv_sqrt_spec(n) <= ONE,
{
    let b: int = lemma_inv_sqrt_search(n, 0, 65537);
    lemma_inv_sqrt_unique(n, b, inv_sqrt_spec(n));
}

/// Finds the rounded-down inverse square root of `n` between `lo` and `hi`.
proof fn lemma_inv_sqrt_search(n: int, lo: int, hi: int) -> (b: int)
    requires
        n >= 1,
        0 <= lo < hi <= 65537,
        lo * lo * n <= ONE * ONE,
        hi * hi * n > ONE * ONE,
    ensures
        is_inv_sqrt(n, b),
        lo <= b < hi,
        b <= ONE,
    decreases hi - lo,
{
    if hi - lo == 1 {
        if lo > 65536 {
            assert(lo * lo * n > ONE * ONE) by (nonlinear_arith)
                requires
                    lo >= 65537,
                    n >= 1,
                    ONE == 65536,
            ;
        }
        lo
    } else {
        let mid: int = lo + 1;
        if mid * mid * n <= ONE * ONE {
            lemma_inv_sqrt_search(n, mid, hi)
        } else {
            lemma_inv_sqrt_search(n, lo, mid)
        }
    }
}

/// A partial inner product of `n` terms lies within `n * 2^62` of zero.
pub proof fn lemma_dot_bound(a: Seq<i32>, b: Seq<i32>, n: nat)
    ensures
        -(n * 0x4000_0000_0000_0000) <= dot_upto(a, b, n) <= n * 0x4000_0000_0000_0000,
    decreases n,
{
    if n > 0 {
        lemma_dot_bound(a, b, (n - 1) as nat);
        let x: int = a[n - 1] as int;
        let y: int = b[n - 1] as int;
        assert(-0x4000_0000_0000_0000 <= x * y <= 0x4000_0000_0000_0000) by (nonlinear_arith)
            requires
                -0x8000_0000 <= x <= 0x7fff_ffff,
                -0x8000_0000 <= y <= 0x7fff_ffff,
        ;
    }
}

/// Clamps `v` to the range of `i32`.
pub fn saturate(v: i128) -> (r: i32)
    ensures
        r == sat(v as int),
{
    if v < i32::MIN as i128 {
        i32::MIN
    } else if v > i32::MAX as i128 {
        i32::MAX
    } else {
        v as i32
    }
}

/// Turns an exact sum of products into a scalar.
pub fn rescale_sum(acc: i128) -> (r: i32)
    ensures
        r == rescale(acc as int),
{
    // `/` and `%` round toward zero; one step down gives the floor.
    let q: i128 = acc / (ONE as i128);
    let m: i128 = acc % (ONE as i128);
    if m < 0 {
        saturate(q - 1)
    } else {
        saturate(q)
    }
}

/// The saturated sum of two scalars.
pub fn add_sat(a: i32, b: i32) -> (r: i32)
    ensures
        r == sat(a + b),
{
    let s: i64 = a as i64 + b as i64;
    saturate(s as i128)
}

/// The scalar for `1 / sqrt(n)`, rounded down.
pub fn inv_sqrt(n: u64) -> (b: i32)
    requires
        n >= 1,
    ensures
        is_inv_sqrt(n as int, b as int),
        b == inv_sqrt_spec(n as int),
        0 <= b <= ONE,
{
    // Bisection: `lo` is never too large, `hi` always is.
    let mut lo: u64 = 0;
    let mut hi: u64 = 65537;
    while hi - lo > 1
        invariant
            n >= 1,
            lo < hi <= 65537,
            lo * lo * n <= 0x1_0000_0000,
            hi * hi * n > 0x1_0000_0000,
        decreases hi - lo,
    {
        let mid: u64 = lo + (hi - lo) / 2;
        assert(mid * mid <= 65537 * 65537) by (nonlinear_arith)
            requires
                0 <= mid <= 65537,
        ;
        let sq: u64 = mid * mid;
        assert(sq * n <= 65537 * 65537 * 0xffff_ffff_ffff_ffff) by (nonlinear_arith)
            requires
                0 <= sq <= 65537 * 65537,
                0 <= n <= 0xffff_ffff_ffff_ffff,
        ;
        let scaled: u128 = (sq as u128) * (n as u128);
        if scaled <= 0x1_0000_0000 {
            lo = mid;
        } else {
            hi = mid;
        }
    }
    proof {
        if lo > 65536 {
            assert(lo * lo * n > 0x1_0000_0000) by (nonlinear_arith)
                requires
                    lo >= 65537,
                    n >= 1,
            ;
        }
        let w: int = choose|w: int| is_inv_sqrt(n as int, w);
        lemma_inv_sqrt_unique(n as int, lo as int, w);
    }
    lo as i32
}

} // verus!
