//! Index arithmetic shared by the chunk store and the structure aggregate.
//!
//! Three-dimensional coordinates are laid out in flat arrays in row-major
//! order: `x` varies fastest, then `y`, then `z`.

use vstd::prelude::*;

verus! {

/// Row-major flat index of the coordinate `(x, y, z)` in a grid whose
/// x-extent is `w` and whose y-extent is `h`.
pub open spec fn flatten_spec(x: int, y: int, z: int, w: int, h: int) -> int {
    x + w * (y + h * z)
}

/// A coordinate inside the grid maps to an index inside the flat array.
pub proof fn lemma_flatten_bounds(x: int, y: int, z: int, w: int, h: int, l: int)
    requires
        0 <= x < w,
        0 <= y < h,
        0 <= z < l,
    ensures
        0 <= flatten_spec(x, y, z, w, h) < w * h * l,
{
    assert(0 <= x + w * (y + h * z) < w * h * l) by (nonlinear_arith)
        requires
            0 <= x < w,
            0 <= y < h,
            0 <= z < l,
    ;
}

/// Distinct coordinates inside the grid map to distinct flat indices.
pub proof fn lemma_flatten_injective(
    x1: int, y1: int, z1: int,
    x2: int, y2: int, z2: int,
    w: int, h: int,
)
    requires
        0 <= x1 < w,
        0 <= y1 < h,
        0 <= x2 < w,
        0 <= y2 < h,
        0 <= z1,
        0 <= z2,
        flatten_spec(x1, y1, z1, w, h) == flatten_spec(x2, y2, z2, w, h),
    ensures
        x1 == x2,
        y1 == y2,
        z1 == z2,
{
    let c1 = y1 + h * z1;
    let c2 = y2 + h * z2;
    assert(x1 - x2 == w * (c2 - c1)) by (nonlinear_arith)
        requires
            x1 + w * c1 == x2 + w * c2,
    ;
    assert(c1 == c2 && x1 == x2) by (nonlinear_arith)
        requires
            x1 - x2 == w * (c2 - c1),
            0 <= x1 < w,
            0 <= x2 < w,
    ;
    assert(y1 - y2 == h * (z2 - z1)) by (nonlinear_arith)
        requires
            y1 + h * z1 == y2 + h * z2,
    ;
    assert(z1 == z2 && y1 == y2) by (nonlinear_arith)
        requires
            y1 - y2 == h * (z2 - z1),
            0 <= y1 < h,
            0 <= y2 < h,
    ;
}

/// For a coordinate `x` inside `n` buckets of width `d`, the bucket index
/// `x / d` is inside `[0, n)` and the decomposition into bucket and offset
/// round-trips.
pub proof fn lemma_div_bound(x: int, d: int, n: int)
    requires
        0 <= x,
        x < n * d,
        0 < d,
    ensures
        0 <= x / d < n,
        0 <= x % d < d,
        d * (x / d) + x % d == x,
{
    vstd::arithmetic::div_mod::lemma_fundamental_div_mod(x, d);
    vstd::arithmetic::div_mod::lemma_mod_bound(x, d);
    vstd::arithmetic::div_mod::lemma_div_pos_is_pos(x, d);
    if x / d >= n {
        assert(d * (x / d) >= d * n) by (nonlinear_arith)
            requires
                x / d >= n,
                0 < d,
        ;
        assert(d * n == n * d) by (nonlinear_arith);
    }
}

/// Bounds on two non-negative factors bound their product.
pub proof fn lemma_mul_le(a: int, b: int, ab: int, bb: int)
    requires
        0 <= a <= ab,
        0 <= b <= bb,
    ensures
        a * b <= ab * bb,
{
    assert(a * b <= ab * bb) by (nonlinear_arith)
        requires
            0 <= a <= ab,
            0 <= b <= bb,
    ;
}

/// A coordinate assembled from bucket `c` and offset `l` lies in the grid of
/// `n` buckets of width `d` and decomposes back into `c` and `l`.
pub proof fn lemma_bucket_offset(c: int, l: int, d: int, n: int)
    requires
        0 <= c < n,
        0 <= l < d,
    ensures
        0 <= c * d + l < n * d,
        (c * d + l) / d == c,
        (c * d + l) % d == l,
{
    assert(c * d + l < n * d) by (nonlinear_arith)
        requires
            c < n,
            l < d,
            0 <= c,
            0 <= l,
    ;
    assert(0 <= c * d) by (nonlinear_arith)
        requires
            0 <= c,
            0 <= d,
    ;
    vstd::arithmetic::div_mod::lemma_fundamental_div_mod_converse(c * d + l, d, c, l);
}

/// Computes the row-major flat index of `(x, y, z)`.
pub fn flatten(x: usize, y: usize, z: usize, w: usize, h: usize) -> (r: usize)
    requires
        x < w,
        y < h,
        flatten_spec(x as int, y as int, z as int, w as int, h as int) <= usize::MAX,
    ensures
        r == flatten_spec(x as int, y as int, z as int, w as int, h as int),
{
    proof {
        assert(h * z <= y + h * z && y + h * z <= x + w * (y + h * z)) by (nonlinear_arith)
            requires
                x < w,
                y < h,
                0 <= x,
                0 <= y,
                0 <= z,
                0 <= h,
        ;
        assert(w * (y + h * z) <= x + w * (y + h * z)) by (nonlinear_arith)
            requires
                0 <= x,
                0 <= y,
                0 <= z,
                0 <= w,
                0 <= h,
        ;
    }
    x + w * (y + h * z)
}

} // verus!
