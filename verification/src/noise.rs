//! Deterministic coherent noise over a 2D fixed-point plane.
//!
//! Each generator is a pure function of its seed and of the query point:
//! pseudo-random lattice values in `[-UNIT, UNIT]` are blended with a
//! smoothstep weight, so the field is coherent (nearby points give nearby
//! values) and fully reproducible from the seed alone.

use vstd::prelude::*;
use vstd::arithmetic::div_mod::{
    lemma_fundamental_div_mod, lemma_fundamental_div_mod_converse_div,
    lemma_fundamental_div_mod_converse_mod, lemma_hoist_over_denominator,
};

verus! {

/// Fixed-point scale: 1000 units stand for 1.0.
pub const UNIT: i64 = 1000;

/// Largest magnitude a noise query coordinate may have (so that shifting
/// the lattice into nonnegative range cannot overflow an `i64`).
pub const Q_LIMIT: i64 = 50_000_000_000_000;

/// Shift that makes every admissible query coordinate nonnegative; a
/// multiple of `UNIT`, so it moves the lattice by whole cells.
pub const CELL_OFFSET: i64 = 50_000_000_000_000;

/// Pseudo-random lattice value in `[-UNIT, UNIT]` for one lattice corner:
/// a spatial-prime mix of the cell indices and the seed, scrambled by two
/// squaring rounds modulo a Mersenne prime.
#[verifier::opaque]
pub open spec fn hash_corner(seed: int, xi: int, zi: int) -> int {
    let m = 2147483647;
    let h1 = ((xi % m) * 73856093) % m;
    let h2 = ((zi % m) * 19349663) % m;
    let h3 = ((seed % m) * 83492791) % m;
    let h4 = (h1 + h2 + h3 + 2654435769) % m;
    let h5 = (h4 * h4 + h1) % m;
    let h6 = (h5 * h5 + h2) % m;
    (h6 % 2001) - 1000
}

/// Smoothstep weight on `[0, UNIT)`, scaled to `[0, UNIT]`.
pub open spec fn spec_smooth(u: int) -> int {
    (u * u * (3000 - 2 * u)) / 1000000
}

/// Linear interpolation from `a` (at `s == 0`) to `b` (at `s == UNIT`),
/// rounding toward negative infinity.
pub open spec fn spec_lerp(a: int, b: int, s: int) -> int {
    (a * (1000 - s) + b * s) / 1000
}

/// The noise value at query point `(qx, qz)`: the four corners of the
/// lattice cell containing the (shifted) point, blended bilinearly with
/// smoothstep weights from the position inside the cell.
#[verifier::opaque]
pub open spec fn spec_noise(seed: int, qx: int, qz: int) -> int {
    let bx = qx + CELL_OFFSET;
    let bz = qz + CELL_OFFSET;
    let xc = bx / 1000;
    let zc = bz / 1000;
    let sx = spec_smooth(bx % 1000);
    let sz = spec_smooth(bz % 1000);
    let c00 = hash_corner(seed, xc, zc);
    let c10 = hash_corner(seed, xc + 1, zc);
    let c01 = hash_corner(seed, xc, zc + 1);
    let c11 = hash_corner(seed, xc + 1, zc + 1);
    spec_lerp(spec_lerp(c00, c10, sx), spec_lerp(c01, c11, sx), sz)
}

/// Every lattice corner value lies in `[-UNIT, UNIT]`.
pub proof fn lemma_corner_bounds(seed: int, xi: int, zi: int)
    ensures
        -1000 <= hash_corner(seed, xi, zi) <= 1000,
{
    reveal(hash_corner);
    let m = 2147483647;
    let h1 = ((xi % m) * 73856093) % m;
    let h2 = ((zi % m) * 19349663) % m;
    let h3 = ((seed % m) * 83492791) % m;
    let h4 = (h1 + h2 + h3 + 2654435769) % m;
    let h5 = (h4 * h4 + h1) % m;
    let h6 = (h5 * h5 + h2) % m;
    assert(0 <= h6 % 2001 < 2001);
}

/// The smoothstep weight of a cell-interior offset lies in `[0, UNIT]`.
pub proof fn lemma_smooth_bounds(u: int)
    requires
        0 <= u < 1000,
    ensures
        0 <= spec_smooth(u) <= 1000,
{
    lemma_cubic_bounds(u);
    vstd::arithmetic::div_mod::lemma_div_is_ordered(0, u * u * (3000 - 2 * u), 1000000);
    vstd::arithmetic::div_mod::lemma_div_is_ordered(u * u * (3000 - 2 * u), 1000000000, 1000000);
}

/// The smoothstep cubic stays between 0 and its value at the cell's far
/// edge; the difference to that value factors as a nonnegative product.
proof fn lemma_cubic_bounds(u: int)
    requires
        0 <= u < 1000,
    ensures
        0 <= u * u * (3000 - 2 * u) <= 1000000000,
{
    assert((1000 - u) * (1000 - u) * (1000 + 2 * u) == 1000000000 - u * u * (3000 - 2 * u))
        by (nonlinear_arith);
    assert((1000 - u) * (1000 - u) * (1000 + 2 * u) >= 0) by (nonlinear_arith)
        requires 0 <= u < 1000,
    ;
    assert(u * u * (3000 - 2 * u) >= 0) by (nonlinear_arith)
        requires 0 <= u < 1000,
    ;
}

/// Interpolating between two values in `[-UNIT, UNIT]` stays in that range.
pub proof fn lemma_lerp_bounds(a: int, b: int, s: int)
    requires
        -1000 <= a <= 1000,
        -1000 <= b <= 1000,
        0 <= s <= 1000,
    ensures
        -1000 <= spec_lerp(a, b, s) <= 1000,
{
    assert(-1000000 <= a * (1000 - s) + b * s <= 1000000) by (nonlinear_arith)
        requires -1000 <= a <= 1000 && -1000 <= b <= 1000 && 0 <= s <= 1000,
    ;
    let num = a * (1000 - s) + b * s;
    vstd::arithmetic::div_mod::lemma_div_is_ordered(-1000000, num, 1000);
    vstd::arithmetic::div_mod::lemma_div_is_ordered(num, 1000000, 1000);
}

/// Every noise value lies in `[-UNIT, UNIT]`.
pub proof fn lemma_noise_bounds(seed: int, qx: int, qz: int)
    ensures
        -1000 <= spec_noise(seed, qx, qz) <= 1000,
{
    reveal(spec_noise);
    let bx = qx + CELL_OFFSET;
    let bz = qz + CELL_OFFSET;
    let xc = bx / 1000;
    let zc = bz / 1000;
    let sx = spec_smooth(bx % 1000);
    let sz = spec_smooth(bz % 1000);
    assert(0 <= bx % 1000 < 1000);
    assert(0 <= bz % 1000 < 1000);
    lemma_smooth_bounds(bx % 1000);
    lemma_smooth_bounds(bz % 1000);
    lemma_corner_bounds(seed, xc, zc);
    lemma_corner_bounds(seed, xc + 1, zc);
    lemma_corner_bounds(seed, xc, zc + 1);
    lemma_corner_bounds(seed, xc + 1, zc + 1);
    let c00 = hash_corner(seed, xc, zc);
    let c10 = hash_corner(seed, xc + 1, zc);
    let c01 = hash_corner(seed, xc, zc + 1);
    let c11 = hash_corner(seed, xc + 1, zc + 1);
    lemma_lerp_bounds(c00, c10, sx);
    lemma_lerp_bounds(c01, c11, sx);
    lemma_lerp_bounds(spec_lerp(c00, c10, sx), spec_lerp(c01, c11, sx), sz);
}

/// Floor division by a positive divisor moves by at most `(d - 1 + k) / d`
/// when the dividend moves by at most `k`, and never moves backward.
pub proof fn lemma_div_close(a: int, b: int, k: int, d: int)
    requires
        0 < d,
        0 <= k,
        a <= b <= a + k,
    ensures
        0 <= b / d - a / d <= (d - 1 + k) / d,
{
    lemma_fundamental_div_mod(a, d);
    let q = a / d;
    let r = a % d;
    lemma_hoist_over_denominator(r + (b - a), q, d as nat);
    vstd::arithmetic::mul::lemma_mul_is_commutative(q, d);
    assert(r + (b - a) + q * d == b);
    vstd::arithmetic::div_mod::lemma_div_is_ordered(0, r + (b - a), d);
    vstd::arithmetic::div_mod::lemma_div_is_ordered(r + (b - a), d - 1 + k, d);
}

/// One step of the cell-interior offset moves the smoothstep weight up by
/// at most 2.
pub proof fn lemma_smooth_step(u: int)
    requires
        0 <= u < 999,
    ensures
        0 <= spec_smooth(u + 1) - spec_smooth(u) <= 2,
{
    let f0 = u * u * (3000 - 2 * u);
    let f1 = (u + 1) * (u + 1) * (3000 - 2 * (u + 1));
    assert((u + 1) * (u + 1) * (3000 - 2 * (u + 1)) - u * u * (3000 - 2 * u) == -6 * u * u + 5994
        * u + 2998) by (nonlinear_arith);
    assert(0 <= -6 * u * u + 5994 * u + 2998 <= 1500000) by (nonlinear_arith)
        requires 0 <= u < 999,
    ;
    lemma_div_close(f0, f1, 1500000, 1000000);
}

/// Moving the interpolation weight by at most 2 moves the interpolant by
/// at most 4.
pub proof fn lemma_lerp_step_s(a: int, b: int, s0: int, s1: int)
    requires
        -1000 <= a <= 1000,
        -1000 <= b <= 1000,
        0 <= s0 <= s1 <= 1000,
        s1 - s0 <= 2,
    ensures
        -4 <= spec_lerp(a, b, s1) - spec_lerp(a, b, s0) <= 4,
{
    let n0 = a * (1000 - s0) + b * s0;
    let n1 = a * (1000 - s1) + b * s1;
    assert(a * (1000 - s1) + b * s1 - (a * (1000 - s0) + b * s0) == (b - a) * (s1 - s0))
        by (nonlinear_arith);
    assert(-4000 <= (b - a) * (s1 - s0) <= 4000) by (nonlinear_arith)
        requires -1000 <= a <= 1000 && -1000 <= b <= 1000 && 0 <= s1 - s0 <= 2,
    ;
    if n0 <= n1 {
        lemma_div_close(n0, n1, 4000, 1000);
    } else {
        lemma_div_close(n1, n0, 4000, 1000);
    }
}

/// Moving both interpolation endpoints by at most `dd` moves the
/// interpolant by at most `dd`, for any fixed weight.
pub proof fn lemma_lerp_step_ab(a0: int, a1: int, b0: int, b1: int, s: int, dd: int)
    requires
        -1000 <= a0 <= 1000,
        -1000 <= a1 <= 1000,
        -1000 <= b0 <= 1000,
        -1000 <= b1 <= 1000,
        0 <= s <= 1000,
        0 <= dd,
        a0 - dd <= a1 <= a0 + dd,
        b0 - dd <= b1 <= b0 + dd,
    ensures
        -dd <= spec_lerp(a1, b1, s) - spec_lerp(a0, b0, s) <= dd,
{
    let n0 = a0 * (1000 - s) + b0 * s;
    let n1 = a1 * (1000 - s) + b1 * s;
    assert(a1 * (1000 - s) + b1 * s - (a0 * (1000 - s) + b0 * s) == (a1 - a0) * (1000 - s) + (b1
        - b0) * s) by (nonlinear_arith);
    assert(-1000 * dd <= (a1 - a0) * (1000 - s) + (b1 - b0) * s <= 1000 * dd) by (nonlinear_arith)
        requires 0 <= s <= 1000 && 0 <= dd && -dd <= a1 - a0 <= dd && -dd <= b1 - b0 <= dd,
    ;
    lemma_hoist_over_denominator(999, dd, 1000nat);
    if n0 <= n1 {
        lemma_div_close(n0, n1, 1000 * dd, 1000);
    } else {
        lemma_div_close(n1, n0, 1000 * dd, 1000);
    }
}

/// Interpolating at weight 0 gives the first endpoint exactly.
proof fn lemma_lerp_at_zero(a: int, b: int)
    ensures
        spec_lerp(a, b, 0) == a,
{
    assert(a * (1000 - 0) + b * 0 == 1000 * a);
    vstd::arithmetic::div_mod::lemma_div_multiples_vanish(a, 1000);
}

/// Interpolating at the last interior weight lands within 2 of the second
/// endpoint.
proof fn lemma_lerp_at_999(a: int, b: int)
    requires
        -1000 <= a <= 1000,
        -1000 <= b <= 1000,
    ensures
        b - 2 <= spec_lerp(a, b, 999) <= b + 2,
{
    assert(a * (1000 - 999) + b * 999 == (a - b) + b * 1000);
    lemma_hoist_over_denominator(a - b, b, 1000nat);
    vstd::arithmetic::div_mod::lemma_div_is_ordered(-2000, a - b, 1000);
    vstd::arithmetic::div_mod::lemma_div_is_ordered(a - b, 2000, 1000);
}

/// One fixed-point step of the query point along x moves the noise value
/// by at most 4: the discrete form of the field's continuity.
pub proof fn lemma_noise_step_x(seed: int, qx: int, qz: int)
    ensures
        -4 <= spec_noise(seed, qx + 1, qz) - spec_noise(seed, qx, qz) <= 4,
{
    reveal(spec_noise);
    let bx = qx + CELL_OFFSET;
    let bz = qz + CELL_OFFSET;
    let xc = bx / 1000;
    let fx = bx % 1000;
    let zc = bz / 1000;
    let fz = bz % 1000;
    let sx = spec_smooth(fx);
    let sz = spec_smooth(fz);
    lemma_fundamental_div_mod(bx, 1000);
    lemma_smooth_bounds(fx);
    lemma_smooth_bounds(fz);
    let c00 = hash_corner(seed, xc, zc);
    let c10 = hash_corner(seed, xc + 1, zc);
    let c01 = hash_corner(seed, xc, zc + 1);
    let c11 = hash_corner(seed, xc + 1, zc + 1);
    lemma_corner_bounds(seed, xc, zc);
    lemma_corner_bounds(seed, xc + 1, zc);
    lemma_corner_bounds(seed, xc, zc + 1);
    lemma_corner_bounds(seed, xc + 1, zc + 1);
    let nx0 = spec_lerp(c00, c10, sx);
    let nx1 = spec_lerp(c01, c11, sx);
    lemma_lerp_bounds(c00, c10, sx);
    lemma_lerp_bounds(c01, c11, sx);
    if fx < 999 {
        lemma_fundamental_div_mod_converse_div(bx + 1, 1000, xc, fx + 1);
        lemma_fundamental_div_mod_converse_mod(bx + 1, 1000, xc, fx + 1);
        let sx1 = spec_smooth(fx + 1);
        lemma_smooth_step(fx);
        lemma_smooth_bounds(fx + 1);
        lemma_lerp_step_s(c00, c10, sx, sx1);
        lemma_lerp_step_s(c01, c11, sx, sx1);
        let mx0 = spec_lerp(c00, c10, sx1);
        let mx1 = spec_lerp(c01, c11, sx1);
        lemma_lerp_bounds(c00, c10, sx1);
        lemma_lerp_bounds(c01, c11, sx1);
        lemma_lerp_step_ab(nx0, mx0, nx1, mx1, sz, 4);
    } else {
        lemma_fundamental_div_mod_converse_div(bx + 1, 1000, xc + 1, 0);
        lemma_fundamental_div_mod_converse_mod(bx + 1, 1000, xc + 1, 0);
        assert(999 * 999 * (3000 - 2 * 999) == 999997002) by (nonlinear_arith);
        assert(spec_smooth(999) == 999);
        assert(0 * 0 * (3000 - 2 * 0) == 0) by (nonlinear_arith);
        assert(spec_smooth(0) == 0);
        let c20 = hash_corner(seed, xc + 2, zc);
        let c21 = hash_corner(seed, xc + 2, zc + 1);
        lemma_corner_bounds(seed, xc + 2, zc);
        lemma_corner_bounds(seed, xc + 2, zc + 1);
        lemma_lerp_at_zero(c10, c20);
        lemma_lerp_at_zero(c11, c21);
        lemma_lerp_at_999(c00, c10);
        lemma_lerp_at_999(c01, c11);
        lemma_lerp_step_ab(nx0, c10, nx1, c11, sz, 2);
    }
}

/// One fixed-point step of the query point along z moves the noise value
/// by at most 4, as along x.
pub proof fn lemma_noise_step_z(seed: int, qx: int, qz: int)
    ensures
        -4 <= spec_noise(seed, qx, qz + 1) - spec_noise(seed, qx, qz) <= 4,
{
    reveal(spec_noise);
    let bx = qx + CELL_OFFSET;
    let bz = qz + CELL_OFFSET;
    let xc = bx / 1000;
    let fx = bx % 1000;
    let zc = bz / 1000;
    let fz = bz % 1000;
    let sx = spec_smooth(fx);
    let sz = spec_smooth(fz);
    lemma_fundamental_div_mod(bz, 1000);
    lemma_smooth_bounds(fx);
    lemma_smooth_bounds(fz);
    let c00 = hash_corner(seed, xc, zc);
    let c10 = hash_corner(seed, xc + 1, zc);
    let c01 = hash_corner(seed, xc, zc + 1);
    let c11 = hash_corner(seed, xc + 1, zc + 1);
    lemma_corner_bounds(seed, xc, zc);
    lemma_corner_bounds(seed, xc + 1, zc);
    lemma_corner_bounds(seed, xc, zc + 1);
    lemma_corner_bounds(seed, xc + 1, zc + 1);
    let nx0 = spec_lerp(c00, c10, sx);
    let nx1 = spec_lerp(c01, c11, sx);
    lemma_lerp_bounds(c00, c10, sx);
    lemma_lerp_bounds(c01, c11, sx);
    if fz < 999 {
        lemma_fundamental_div_mod_converse_div(bz + 1, 1000, zc, fz + 1);
        lemma_fundamental_div_mod_converse_mod(bz + 1, 1000, zc, fz + 1);
        let sz1 = spec_smooth(fz + 1);
        lemma_smooth_step(fz);
        lemma_smooth_bounds(fz + 1);
        lemma_lerp_step_s(nx0, nx1, sz, sz1);
    } else {
        lemma_fundamental_div_mod_converse_div(bz + 1, 1000, zc + 1, 0);
        lemma_fundamental_div_mod_converse_mod(bz + 1, 1000, zc + 1, 0);
        assert(999 * 999 * (3000 - 2 * 999) == 999997002) by (nonlinear_arith);
        assert(spec_smooth(999) == 999);
        assert(0 * 0 * (3000 - 2 * 0) == 0) by (nonlinear_arith);
        assert(spec_smooth(0) == 0);
        let c02 = hash_corner(seed, xc, zc + 2);
        let c12 = hash_corner(seed, xc + 1, zc + 2);
        lemma_corner_bounds(seed, xc, zc + 2);
        lemma_corner_bounds(seed, xc + 1, zc + 2);
        let mx1 = spec_lerp(c02, c12, sx);
        lemma_lerp_bounds(c02, c12, sx);
        lemma_lerp_at_zero(nx1, mx1);
        lemma_lerp_at_999(nx0, nx1);
    }
}

/// One coherent noise generator, determined entirely by its seed.
pub struct NoiseGen {
    pub seed: u64,
}

/// Lattice corner value for the (nonnegative, shifted) cell `(ux, uz)`.
fn corner(seed: u64, ux: u64, uz: u64) -> (c: i64)
    ensures
        c == hash_corner(seed as int, ux as int, uz as int),
        -1000 <= c <= 1000,
{
    proof {
        reveal(hash_corner);
    }
    let m: u64 = 2147483647;
    let h1: u64 = ((ux % m) * 73856093) % m;
    let h2: u64 = ((uz % m) * 19349663) % m;
    let h3: u64 = ((seed % m) * 83492791) % m;
    let h4: u64 = (h1 + h2 + h3 + 2654435769) % m;
    assert(h4 * h4 + h1 <= u64::MAX) by (nonlinear_arith)
        requires h4 < 2147483647 && h1 < 2147483647,
    ;
    let h5: u64 = (h4 * h4 + h1) % m;
    assert(h5 * h5 + h2 <= u64::MAX) by (nonlinear_arith)
        requires h5 < 2147483647 && h2 < 2147483647,
    ;
    let h6: u64 = (h5 * h5 + h2) % m;
    (h6 % 2001) as i64 - 1000
}

/// Linear interpolation in fixed point, rounding toward negative infinity.
pub fn lerp(a: i64, b: i64, s: i64) -> (r: i64)
    requires
        -1000 <= a <= 1000,
        -1000 <= b <= 1000,
        0 <= s <= 1000,
    ensures
        r == spec_lerp(a as int, b as int, s as int),
        -1000 <= r <= 1000,
{
    proof {
        lemma_lerp_bounds(a as int, b as int, s as int);
        assert(-1000000 <= (a as int) * (1000 - s as int) <= 1000000) by (nonlinear_arith)
            requires -1000 <= a <= 1000 && 0 <= s <= 1000,
        ;
        assert(-1000000 <= (b as int) * (s as int) <= 1000000) by (nonlinear_arith)
            requires -1000 <= b <= 1000 && 0 <= s <= 1000,
        ;
    }
    let num: i64 = a * (1000 - s) + b * s;
    let shifted: u64 = (num + 1000000) as u64;
    proof {
        lemma_hoist_over_denominator(num as int, 1000, 1000nat);
        assert((num + 1000 * 1000) / 1000 == num / 1000 + 1000);
    }
    (shifted / 1000) as i64 - 1000
}

/// Smoothstep weight of a cell-interior offset.
fn smooth(u: i64) -> (r: i64)
    requires
        0 <= u < 1000,
    ensures
        r == spec_smooth(u as int),
        0 <= r <= 1000,
{
    proof {
        lemma_smooth_bounds(u as int);
        lemma_cubic_bounds(u as int);
        assert((u as int) * (u as int) < 1000000) by (nonlinear_arith)
            requires 0 <= u < 1000,
        ;
    }
    let uu: u64 = u as u64;
    ((uu * uu * (3000 - 2 * uu)) / 1000000) as i64
}

impl NoiseGen {
    /// The noise value at `(qx, qz)`: deterministic, coherent, in
    /// `[-UNIT, UNIT]`.
    pub fn get(&self, qx: i64, qz: i64) -> (n: i64)
        requires
            -Q_LIMIT <= qx <= Q_LIMIT,
            -Q_LIMIT <= qz <= Q_LIMIT,
        ensures
            n == spec_noise(self.seed as int, qx as int, qz as int),
            -1000 <= n <= 1000,
    {
        let bx: u64 = (qx + CELL_OFFSET) as u64;
        let bz: u64 = (qz + CELL_OFFSET) as u64;
        let xc: u64 = bx / 1000;
        let zc: u64 = bz / 1000;
        let fx: i64 = (bx % 1000) as i64;
        let fz: i64 = (bz % 1000) as i64;
        let sx: i64 = smooth(fx);
        let sz: i64 = smooth(fz);
        let c00: i64 = corner(self.seed, xc, zc);
        let c10: i64 = corner(self.seed, xc + 1, zc);
        let c01: i64 = corner(self.seed, xc, zc + 1);
        let c11: i64 = corner(self.seed, xc + 1, zc + 1);
        let nx0: i64 = lerp(c00, c10, sx);
        let nx1: i64 = lerp(c01, c11, sx);
        let n: i64 = lerp(nx0, nx1, sz);
        proof {
            reveal(spec_noise);
            lemma_noise_bounds(self.seed as int, qx as int, qz as int);
        }
        n
    }
}

/// The three independent noise purposes, each derived from the one base
/// seed by a fixed per-purpose offset so that purposes never correlate
/// trivially while staying reproducible from that seed.
pub struct NoiseGenerators {
    pub height: NoiseGen,
    pub biome: NoiseGen,
    pub tree: NoiseGen,
}

impl NoiseGenerators {
    /// Builds the three generators from one base seed.
    pub fn new(seed: u32) -> (r: NoiseGenerators)
        ensures
            r.height.seed == seed as int,
            r.biome.seed == seed as int + 69,
            r.tree.seed == seed as int + 420,
    {
        NoiseGenerators {
            height: NoiseGen { seed: seed as u64 },
            biome: NoiseGen { seed: seed as u64 + 69 },
            tree: NoiseGen { seed: seed as u64 + 420 },
        }
    }
}

} // verus!
