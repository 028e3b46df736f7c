//! Deterministic galaxy generation: whether a star system holds a star.
//!
//! Star presence is a pure function of the world seed and the integer system
//! coordinates: no state is stored, the same inputs always decide the same
//! way.  Off-plane systems and systems outside the galaxy's unit disk have
//! no star; inside it, a per-system seed is mixed from the world seed by
//! fixed overflow-wrapping arithmetic, a counter-based generator seeded from
//! it draws a uniform sample, and the sample is accepted with a probability
//! that falls off with the squared distance to the nearest logarithmic
//! spiral arm.
//!
//! All spiral-arm geometry is computed in fixed-point arithmetic with six
//! decimal places (one unit is a millionth), so every step is exact integer
//! arithmetic and the whole decision is reproducible bit for bit.

use vstd::prelude::*;
use rand::{Rng, SeedableRng};
use crate::math::lemma_mul_le;

verus! {

/// The world seed that all galaxy generation derives from.
pub struct ServerSeed(pub u64);

impl ServerSeed {
    /// Wraps a world seed value.
    pub fn new(seed: u64) -> (r: ServerSeed)
        ensures
            r.0 == seed,
    {
        ServerSeed(seed)
    }

    /// The raw seed value.
    pub fn value(&self) -> (r: u64)
        ensures
            r == self.0,
    {
        self.0
    }
}

/// A star at the center of a system.
#[derive(Clone, Copy, Debug, PartialEq, Eq, Structural)]
pub struct Star {
    /// Surface temperature, in kelvin.
    pub temperature: u32,
}

impl Star {
    /// A star with the given surface temperature.
    pub fn new(temperature: u32) -> (r: Star)
        ensures
            r.temperature == temperature,
    {
        Star { temperature }
    }
}

/// Whether `k` is the integer square root of `n`.
pub open spec fn is_isqrt(n: int, k: int) -> bool {
    0 <= k && k * k <= n && n < (k + 1) * (k + 1)
}

/// The integer square root: the largest `k` whose square is at most `n`.
pub open spec fn isqrt_spec(n: int) -> int {
    choose|k: int| is_isqrt(n, k)
}

/// A value `k` bracketing `n` between consecutive squares is the integer
/// square root.
pub proof fn lemma_isqrt_unique(n: int, k: int)
    requires
        0 <= k,
        k * k <= n,
        n < (k + 1) * (k + 1),
    ensures
        isqrt_spec(n) == k,
{
    assert(is_isqrt(n, k));
    let j = isqrt_spec(n);
    assert(is_isqrt(n, j));
    assert(0 <= j && j * j <= n && n < (j + 1) * (j + 1));
    assert(j == k) by (nonlinear_arith)
        requires
            0 <= k,
            k * k <= n,
            n < (k + 1) * (k + 1),
            0 <= j,
            j * j <= n,
            n < (j + 1) * (j + 1),
    ;
}

/// Computes the integer square root by bisection.
fn isqrt(n: u64) -> (r: u64)
    requires
        n < 4_000_008_000_004,
    ensures
        r == isqrt_spec(n as int),
        r * r <= n < (r + 1) * (r + 1),
        r <= 2_000_001,
{
    let mut lo: u64 = 0;
    let mut hi: u64 = 2_000_002;
    proof {
        assert((2_000_002 * 2_000_002) as int == 4_000_008_000_004);
    }
    while hi - lo > 1
        invariant
            lo < hi <= 2_000_002,
            lo * lo <= n,
            n < hi * hi,
        decreases hi - lo,
    {
        let mid = lo + (hi - lo) / 2;
        proof {
            lemma_mul_le(mid as int, mid as int, 2_000_002, 2_000_002);
        }
        if mid * mid <= n {
            lo = mid;
        } else {
            hi = mid;
        }
    }
    proof {
        lemma_isqrt_unique(n as int, lo as int);
    }
    lo
}

/// Fixed-point arctangent of `q`, for `q` in `[0, 1]`: a quadratic
/// approximation whose endpoints are exact.
pub open spec fn atan_frac_spec(q: int) -> int {
    (q * (785398 + (273000 * (1000000 - q)) / 1000000)) / 1000000
}

/// Computes [`atan_frac_spec`].
fn atan_frac(q: u64) -> (r: u64)
    requires
        q <= 1_000_000,
    ensures
        r == atan_frac_spec(q as int),
        r <= 1_100_000,
{
    proof {
        lemma_mul_le(273000, (1_000_000 - q) as int, 273000, 1_000_000);
        lemma_mul_le(q as int, (785398 + (273000 * ((1_000_000 - q) as int)) / 1_000_000),
            1_000_000, 1_100_000);
    }
    (q * (785398 + (273000 * (1_000_000 - q)) / 1_000_000)) / 1_000_000
}

/// Fixed-point four-quadrant arctangent, in millionths of a radian, of the
/// direction of the point `(x, y)`.
pub open spec fn atan2_spec(y: int, x: int) -> int {
    let ax = if x < 0 { -x } else { x };
    let ay = if y < 0 { -y } else { y };
    let base = if ay <= ax {
        atan_frac_spec((ay * 1000000) / ax)
    } else {
        1570796 - atan_frac_spec((ax * 1000000) / ay)
    };
    if x >= 0 && y >= 0 {
        base
    } else if x < 0 && y >= 0 {
        3141593 - base
    } else if x < 0 {
        -(3141593 - base)
    } else {
        -base
    }
}

/// Computes [`atan2_spec`].
fn atan2_fixed(y: i64, x: i64) -> (r: i64)
    requires
        -2_000_000 <= x <= 2_000_000,
        -2_000_000 <= y <= 2_000_000,
        x != 0 || y != 0,
    ensures
        r == atan2_spec(y as int, x as int),
        -3_141_593 <= r <= 3_141_593,
{
    let ax: u64 = if x < 0 { (-x) as u64 } else { x as u64 };
    let ay: u64 = if y < 0 { (-y) as u64 } else { y as u64 };
    let base: u64 = if ay <= ax {
        proof {
            lemma_mul_le(ay as int, 1_000_000, 2_000_000, 1_000_000);
            vstd::arithmetic::div_mod::lemma_div_is_ordered((ay * 1_000_000) as int,
                (ax * 1_000_000) as int, ax as int);
            vstd::arithmetic::div_mod::lemma_div_by_multiple(1_000_000, ax as int);
        }
        atan_frac((ay * 1_000_000) / ax)
    } else {
        proof {
            lemma_mul_le(ax as int, 1_000_000, 2_000_000, 1_000_000);
            vstd::arithmetic::div_mod::lemma_div_is_ordered((ax * 1_000_000) as int,
                (ay * 1_000_000) as int, ay as int);
            vstd::arithmetic::div_mod::lemma_div_by_multiple(1_000_000, ay as int);
        }
        let f = atan_frac((ax * 1_000_000) / ay);
        1_570_796 - f
    };
    if x >= 0 && y >= 0 {
        base as i64
    } else if x < 0 && y >= 0 {
        3_141_593 - base as i64
    } else if x < 0 {
        -(3_141_593 - base as i64)
    } else {
        -(base as i64)
    }
}

/// Scaling `a` by a fixed-point factor of at most one does not increase it.
proof fn lemma_fixed_scale_le(a: int, b: int)
    requires
        0 <= a,
        0 <= b <= 1_000_000,
    ensures
        0 <= (a * b) / 1_000_000 <= a,
{
    lemma_mul_le(a, b, a, 1_000_000);
    vstd::arithmetic::div_mod::lemma_div_is_ordered(a * b, a * 1_000_000, 1_000_000);
    vstd::arithmetic::div_mod::lemma_div_by_multiple(a, 1_000_000);
    vstd::arithmetic::div_mod::lemma_div_pos_is_pos(a * b, 1_000_000);
    assert(a * b >= 0) by (nonlinear_arith)
        requires
            0 <= a,
            0 <= b,
    ;
}

/// The series core of the fixed-point logarithm: `2 (u + u^3/3 + u^5/5)`,
/// which is `ln ((1 + u) / (1 - u))` up to the truncated tail.
pub open spec fn ln_series_spec(u: int) -> int {
    let u2 = (u * u) / 1_000_000;
    let u3 = (u2 * u) / 1_000_000;
    let u5 = (((u3 * u) / 1_000_000) * u) / 1_000_000;
    2 * (u + u3 / 3 + u5 / 5)
}

/// Computes [`ln_series_spec`].
fn ln_series(u: u64) -> (r: u64)
    requires
        u <= 340_000,
    ensures
        r == ln_series_spec(u as int),
        r <= 1_100_000,
{
    proof {
        lemma_fixed_scale_le(u as int, u as int);
        lemma_fixed_scale_le(((u * u) / 1_000_000) as int, u as int);
        lemma_fixed_scale_le(((((u * u) / 1_000_000) * u) / 1_000_000) as int, u as int);
        lemma_fixed_scale_le((((((u * u) / 1_000_000) * u) / 1_000_000) * u / 1_000_000) as int,
            u as int);
    }
    let u2 = (u * u) / 1_000_000;
    let u3 = (u2 * u) / 1_000_000;
    let u5 = (((u3 * u) / 1_000_000) * u) / 1_000_000;
    2 * (u + u3 / 3 + u5 / 5)
}

/// Fixed-point natural logarithm of `r / 2^k` for `r` at most one,
/// normalized by doubling `r` into `(1/2, 1]` first.
pub open spec fn ln_norm_spec(r: int, k: int) -> int
    decreases 1_000_000 - r,
{
    if r <= 0 || r > 1_000_000 {
        0
    } else if r > 500_000 {
        let u = ((1_000_000 - r) * 1_000_000) / (1_000_000 + r);
        -(k * 693_147 + ln_series_spec(u))
    } else {
        ln_norm_spec(2 * r, k + 1)
    }
}

/// Fixed-point natural logarithm of `r` (six decimal places).
pub open spec fn ln_fixed_spec(r: int) -> int {
    if r >= 1_000_000 {
        let v = ((r - 1_000_000) * 1_000_000) / (r + 1_000_000);
        ln_series_spec(v)
    } else {
        ln_norm_spec(r, 0)
    }
}

/// Computes [`ln_fixed_spec`].
fn ln_fixed(r: u64) -> (res: i64)
    requires
        100 <= r <= 1_500_000,
    ensures
        res == ln_fixed_spec(r as int),
        -11_000_000 <= res <= 1_100_000,
{
    if r >= 1_000_000 {
        proof {
            lemma_mul_le((r - 1_000_000) as int, 1_000_000, 500_000, 1_000_000);
            vstd::arithmetic::div_mod::lemma_div_is_ordered(
                ((r - 1_000_000) * 1_000_000) as int, (500_000 * 1_000_000) as int,
                (r + 1_000_000) as int);
            vstd::arithmetic::div_mod::lemma_div_is_ordered_by_denominator(
                500_000_000_000, 2_000_000, (r + 1_000_000) as int);
        }
        let v = ((r - 1_000_000) * 1_000_000) / (r + 1_000_000);
        let s = ln_series(v);
        s as i64
    } else {
        let mut m = r;
        let mut k: u64 = 0;
        proof {
            vstd::arithmetic::power2::lemma2_to64();
        }
        while m <= 500_000
            invariant
                100 <= m <= 1_000_000,
                k <= 13,
                m as int >= 100 * vstd::arithmetic::power2::pow2(k as nat),
                ln_norm_spec(m as int, k as int) == ln_norm_spec(r as int, 0),
            decreases 1_000_000 - m,
        {
            proof {
                vstd::arithmetic::power2::lemma2_to64();
                if k == 13 {
                    assert(m >= 819_200);
                }
                assert(k < 13);
                vstd::arithmetic::power2::lemma_pow2_unfold((k + 1) as nat);
            }
            m = m * 2;
            k = k + 1;
        }
        proof {
            lemma_mul_le((1_000_000 - m) as int, 1_000_000, 500_000, 1_000_000);
            vstd::arithmetic::div_mod::lemma_div_is_ordered(
                ((1_000_000 - m) * 1_000_000) as int, (500_000 * 1_000_000) as int,
                (1_000_000 + m) as int);
            vstd::arithmetic::div_mod::lemma_div_is_ordered_by_denominator(
                500_000_000_000, 1_500_000, (1_000_000 + m) as int);
        }
        let u = ((1_000_000 - m) * 1_000_000) / (1_000_000 + m);
        let s = ln_series(u);
        -((k * 693_147 + s) as i64)
    }
}

/// The series core of the fixed-point exponential, for arguments in
/// `[0, ln 2]`.
pub open spec fn exp_series_spec(h: int) -> int {
    let h2 = (h * h) / 1_000_000;
    let h3 = (h2 * h) / 1_000_000;
    let h4 = (h3 * h) / 1_000_000;
    1_000_000 + h + h2 / 2 + h3 / 6 + h4 / 24
}

/// Computes [`exp_series_spec`].
fn exp_series(h: u64) -> (r: u64)
    requires
        h <= 700_000,
    ensures
        r == exp_series_spec(h as int),
        1_000_000 <= r <= 2_400_000,
{
    proof {
        lemma_fixed_scale_le(h as int, h as int);
        lemma_fixed_scale_le(((h * h) / 1_000_000) as int, h as int);
        lemma_fixed_scale_le(((((h * h) / 1_000_000) * h) / 1_000_000) as int, h as int);
    }
    let h2 = (h * h) / 1_000_000;
    let h3 = (h2 * h) / 1_000_000;
    let h4 = (h3 * h) / 1_000_000;
    1_000_000 + h + h2 / 2 + h3 / 6 + h4 / 24
}

/// `v` halved `k` times, rounding down at each step.
pub open spec fn halve_times_spec(v: int, k: int) -> int
    decreases k,
{
    if k <= 0 {
        v
    } else {
        halve_times_spec(v / 2, k - 1)
    }
}

/// The fixed-point exponential of half the argument, `e^(t/2)`: a direct
/// series above zero, and below zero a reduction to `2^-k e^-rem` computed
/// as a reciprocal and `k` halvings.
pub open spec fn exp_half_spec(t: int) -> int {
    if t >= 0 {
        exp_series_spec(t / 2)
    } else {
        let m = (-t) / 2;
        let k = m / 693_147;
        let rem = m % 693_147;
        halve_times_spec(1_000_000_000_000int / exp_series_spec(rem), k)
    }
}

/// Computes [`exp_half_spec`].
fn exp_half(t: i64) -> (r: u64)
    requires
        -21_000_000 <= t <= 1_400_000,
    ensures
        r == exp_half_spec(t as int),
        r <= 2_400_000,
{
    if t >= 0 {
        exp_series((t as u64) / 2)
    } else {
        let m = ((-t) as u64) / 2;
        let k = m / 693_147;
        let rem = m % 693_147;
        let e = exp_series(rem);
        let p = 1_000_000_000_000u64 / e;
        proof {
            vstd::arithmetic::div_mod::lemma_div_is_ordered_by_denominator(
                1_000_000_000_000, 1_000_000, e as int);
        }
        let mut q = p;
        let mut i: u64 = 0;
        while i < k
            invariant
                i <= k,
                k <= 16,
                q <= 1_000_000,
                halve_times_spec(q as int, (k - i) as int)
                    == halve_times_spec(p as int, k as int),
            decreases k - i,
        {
            q = q / 2;
            i = i + 1;
        }
        q
    }
}

/// Rounded division, rounding half away from zero, as the float `round`
/// does.
pub open spec fn round_div_spec(a: int, b: int) -> int {
    if a >= 0 {
        (2 * a + b) / (2 * b)
    } else {
        -((2 * (-a) + b) / (2 * b))
    }
}

/// Computes [`round_div_spec`].
fn round_div(a: i64, b: i64) -> (r: i64)
    requires
        -1_000_000_000 <= a <= 1_000_000_000,
        1_000_000 <= b <= 10_000_000,
    ensures
        r == round_div_spec(a as int, b as int),
        -1_100 <= r <= 1_100,
{
    if a >= 0 {
        let q = (2 * (a as u64) + b as u64) / (2 * b as u64);
        proof {
            vstd::arithmetic::div_mod::lemma_div_is_ordered(
                (2 * (a as u64) + b as u64) as int, 2_010_000_000, (2 * b as u64) as int);
            vstd::arithmetic::div_mod::lemma_div_is_ordered_by_denominator(
                2_010_000_000, 2_000_000, (2 * b as u64) as int);
        }
        q as i64
    } else {
        let q = (2 * ((-a) as u64) + b as u64) / (2 * b as u64);
        proof {
            vstd::arithmetic::div_mod::lemma_div_is_ordered(
                (2 * ((-a) as u64) + b as u64) as int, 2_010_000_000, (2 * b as u64) as int);
            vstd::arithmetic::div_mod::lemma_div_is_ordered_by_denominator(
                2_010_000_000, 2_000_000, (2 * b as u64) as int);
        }
        -(q as i64)
    }
}

/// Fixed-point distance score to the nearest of the galaxy's eight
/// logarithmic spiral arms, for a point `(x, z)` of the normalized galaxy
/// plane: the absolute difference between the point's radius and the
/// nearest arm's radius at the point's angle, scaled by a quarter of the
/// radius.  At the galaxy's origin the score is one, the spiral's value at
/// angle zero.  The exponential's argument is defensively clamped to the
/// range the admitted inputs can produce.
pub open spec fn spiral_distance_spec(x: int, z: int) -> int {
    let r = isqrt_spec(x * x + z * z);
    if r < 100 {
        1_000_000
    } else {
        let theta = atan2_spec(z, x);
        let lnr = ln_fixed_spec(r);
        let offset = theta - 2 * lnr;
        let index = round_div_spec(offset * 8, 6_283_185);
        let t = theta - index * 785_398;
        let tc = if t < -21_000_000 {
            -21_000_000int
        } else if t > 1_400_000 {
            1_400_000int
        } else {
            t
        };
        let ex = exp_half_spec(tc);
        let diff = if ex >= r { ex - r } else { r - ex };
        (diff * r) / 4_000_000
    }
}

/// Computes [`spiral_distance_spec`].
pub fn distance_from_star_spiral(x: i64, z: i64) -> (r: u64)
    requires
        -1_000_000 <= x <= 1_000_000,
        -1_000_000 <= z <= 1_000_000,
    ensures
        r == spiral_distance_spec(x as int, z as int),
        r <= 1_000_000,
{
    proof {
        lemma_mul_le(if x < 0 { -x } else { x as int }, if x < 0 { -x } else { x as int },
            1_000_000, 1_000_000);
        lemma_mul_le(if z < 0 { -z } else { z as int }, if z < 0 { -z } else { z as int },
            1_000_000, 1_000_000);
        assert(x as int * x as int >= 0 && z as int * z as int >= 0) by (nonlinear_arith);
        assert(x as int * x as int <= 1_000_000_000_000
            && z as int * z as int <= 1_000_000_000_000) by (nonlinear_arith)
            requires
                -1_000_000 <= x as int <= 1_000_000,
                -1_000_000 <= z as int <= 1_000_000,
        ;
    }
    let r2 = (x * x + z * z) as u64;
    let rr = isqrt(r2);
    proof {
        assert(rr <= 1_414_214) by (nonlinear_arith)
            requires
                rr as int * rr as int <= 2_000_000_000_000,
                rr >= 0,
        ;
    }
    if rr < 100 {
        1_000_000
    } else {
        proof {
            if x == 0 && z == 0 {
                lemma_isqrt_unique(0, 0);
            }
        }
        let theta = atan2_fixed(z, x);
        let lnr = ln_fixed(rr);
        let offset = theta - 2 * lnr;
        let index = round_div(offset * 8, 6_283_185);
        let t = theta - index * 785_398;
        let tc: i64 = if t < -21_000_000 {
            -21_000_000
        } else if t > 1_400_000 {
            1_400_000
        } else {
            t
        };
        let ex = exp_half(tc);
        let diff = if ex >= rr {
            ex - rr
        } else {
            rr - ex
        };
        proof {
            lemma_mul_le(diff as int, rr as int, 2_400_000, 1_500_000);
            vstd::arithmetic::div_mod::lemma_div_is_ordered((diff * rr) as int,
                3_600_000_000_000, 4_000_000);
        }
        (diff * rr) / 4_000_000
    }
}

/// Whether the normalized image of the system coordinate `(sx, sz)` lies in
/// the galaxy's unit disk.  One normalized unit is `100/22` systems, so the
/// disk admits exactly the integer points with `sx^2 + sz^2` at most 20.
pub open spec fn in_galaxy_disk(sx: int, sz: int) -> bool {
    sx * sx + sz * sz <= 20
}

/// The normalized-and-offset seed component of one axis: the normalized
/// coordinate (at most one in magnitude) plus the visual radius plus two,
/// truncated to an integer, which is 24 on the non-negative side and 23 on
/// the negative side for every admitted coordinate.
pub open spec fn seed_coord(s: int) -> u64 {
    if s >= 0 {
        24u64
    } else {
        23u64
    }
}

/// The per-system seed: a fixed, order-sensitive, overflow-wrapping mixing
/// of the world seed with the two normalized-and-offset coordinates.
pub open spec fn local_seed_spec(seed: u64, sx: int, sz: int) -> u64 {
    seed.wrapping_mul(seed_coord(sx)).wrapping_add(seed_coord(sz)).wrapping_mul(
        seed_coord(sz)).wrapping_sub(seed_coord(sx))
}

/// The uniform sample in `[0, 10000)` that the per-system generator draws
/// from a given seed.
pub uninterp spec fn star_roll(seed: u64) -> u32;

/// Relies on `rand_chacha::ChaCha8Rng::seed_from_u64` and
/// `rand::Rng::gen_range`: seeding expands the 64-bit seed by a fixed,
/// platform-independent procedure, and a `gen_range(0..10_000)` draw on the
/// seeded generator is a function of the seed alone and lies below 10000.
#[verifier::external_body]
fn sample_star_roll(seed: u64) -> (r: u32)
    ensures
        r == star_roll(seed),
        r < 10_000,
{
    let mut rng = rand_chacha::ChaCha8Rng::seed_from_u64(seed);
    rng.gen_range(0..10_000u32)
}

/// Whether the system at `(sx, sy, sz)` holds a star, as a function of the
/// world seed and the coordinates alone: off-plane and out-of-disk systems
/// never do; inside the disk, the per-system uniform sample must fall below
/// the presence probability, which is the reciprocal of the squared
/// spiral-arm distance (the comparison is cleared of all divisions).
pub open spec fn spec_star_in_system(seed: u64, sx: int, sy: int, sz: int) -> Option<Star> {
    if sy != 0 {
        None
    } else if !in_galaxy_disk(sx, sz) {
        None
    } else {
        let roll = star_roll(local_seed_spec(seed, sx, sz));
        let dist = spiral_distance_spec(sx * 220_000, sz * 220_000);
        if roll * (dist * dist) < 10_000_000_000_000_000 {
            Some(Star { temperature: 1000 })
        } else {
            None
        }
    }
}

/// Decides whether the system at `(sx, sy, sz)` holds a star.
pub fn get_star_in_system(sx: i64, sy: i64, sz: i64, seed: &ServerSeed) -> (r: Option<Star>)
    ensures
        r == spec_star_in_system(seed.0, sx as int, sy as int, sz as int),
{
    if sy != 0 {
        return None;
    }
    if sx > 4 || sx < -4 || sz > 4 || sz < -4 {
        proof {
            let a: int = if sx < 0 { -(sx as int) } else { sx as int };
            let c: int = if sz < 0 { -(sz as int) } else { sz as int };
            if sx < 0 {
                assert(a * a == sx as int * sx as int) by (nonlinear_arith)
                    requires
                        a == -(sx as int),
                ;
            }
            if sz < 0 {
                assert(c * c == sz as int * sz as int) by (nonlinear_arith)
                    requires
                        c == -(sz as int),
                ;
            }
            assert(a * a >= 0 && c * c >= 0) by (nonlinear_arith)
                requires
                    a >= 0,
                    c >= 0,
            ;
            if a >= 5 {
                assert(a * a >= 25) by (nonlinear_arith)
                    requires
                        a >= 5,
                ;
            } else {
                assert(c * c >= 25) by (nonlinear_arith)
                    requires
                        c >= 5,
                ;
            }
        }
        return None;
    }
    proof {
        assert(0 <= sx as int * sx as int <= 16 && 0 <= sz as int * sz as int <= 16)
            by (nonlinear_arith)
            requires
                -4 <= sx as int <= 4,
                -4 <= sz as int <= 4,
        ;
    }
    let disk = sx * sx + sz * sz;
    if disk > 20 {
        return None;
    }
    let sxs: u64 = if sx >= 0 { 24 } else { 23 };
    let szs: u64 = if sz >= 0 { 24 } else { 23 };
    let local_seed = seed.0.wrapping_mul(sxs).wrapping_add(szs).wrapping_mul(szs)
        .wrapping_sub(sxs);
    let roll = sample_star_roll(local_seed);
    let dist = distance_from_star_spiral(sx * 220_000, sz * 220_000);
    proof {
        lemma_mul_le(dist as int, dist as int, 1_000_000, 1_000_000);
        lemma_mul_le(roll as int, (dist * dist) as int, 9_999, 1_000_000_000_000);
    }
    if (roll as u64) * (dist * dist) < 10_000_000_000_000_000 {
        Some(Star::new(1000))
    } else {
        None
    }
}

/// A system off the galactic plane never holds a star, whatever the seed.
/// (That presence is a pure function of the seed and coordinates is the
/// contract of [`get_star_in_system`]: its result equals
/// [`spec_star_in_system`] of its inputs alone.)
pub proof fn lemma_star_off_plane_is_empty(seed: u64, sx: int, sy: int, sz: int)
    requires
        sy != 0,
    ensures
        spec_star_in_system(seed, sx, sy, sz) is None,
{
}

} // verus!
