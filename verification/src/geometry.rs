//! Integer vectors: signed pixel coordinates and unsigned buffer extents.

use vstd::prelude::*;

verus! {

/// A signed pixel coordinate. Rasterization arithmetic may leave the buffer on
/// any side, so both components may be negative.
#[derive(Clone, Copy, Debug, PartialEq, Eq, Structural)]
pub struct IVec2 {
    pub x: i32,
    pub y: i32,
}

/// An unsigned pair: a cell position inside a buffer, or the extent
/// (`x` = width in columns, `y` = height in rows) of one.
#[derive(Clone, Copy, Debug, PartialEq, Eq, Structural)]
pub struct UVec2 {
    pub x: u32,
    pub y: u32,
}

/// The signed vector with the given components.
pub open spec fn spec_ivec2(x: i32, y: i32) -> IVec2 {
    IVec2 { x, y }
}

/// The unsigned vector with the given components.
pub open spec fn spec_uvec2(x: u32, y: u32) -> UVec2 {
    UVec2 { x, y }
}

/// Builds a signed vector from its components.
#[verifier::when_used_as_spec(spec_ivec2)]
pub fn ivec2(x: i32, y: i32) -> (v: IVec2)
    ensures
        v == spec_ivec2(x, y),
{
    IVec2 { x, y }
}

/// Builds an unsigned vector from its components.
#[verifier::when_used_as_spec(spec_uvec2)]
pub fn uvec2(x: u32, y: u32) -> (v: UVec2)
    ensures
        v == spec_uvec2(x, y),
{
    UVec2 { x, y }
}

/// Division that truncates toward zero, for a positive divisor.
pub open spec fn trunc_div(n: int, d: int) -> int
    recommends
        d > 0,
{
    if n >= 0 {
        n / d
    } else {
        -((-n) / d)
    }
}

/// A truncated quotient lies between any two integers whose multiples of the
/// divisor enclose the dividend.
pub proof fn lemma_trunc_div_between(n: int, d: int, lo: int, hi: int)
    requires
        d > 0,
        lo * d <= n <= hi * d,
    ensures
        lo <= trunc_div(n, d) <= hi,
{
    if n >= 0 {
        assert(lo <= n / d <= hi) by (nonlinear_arith)
            requires
                d > 0,
                lo * d <= n <= hi * d,
        ;
    } else {
        let m = -n;
        assert((-hi) * d == -(hi * d) && (-lo) * d == -(lo * d)) by (nonlinear_arith);
        assert(-hi <= m / d <= -lo) by (nonlinear_arith)
            requires
                d > 0,
                (-hi) * d <= m <= (-lo) * d,
        ;
    }
}

/// `value + delta * t / d`, the offset's quotient truncated toward zero: the
/// point reached after `t` of `d` steps on the way from `value` to
/// `value + delta`.
pub open spec fn step_toward(value: int, delta: int, t: int, d: int) -> int {
    value + trunc_div(delta * t, d)
}

/// `(value * d + delta * t) / d`, the whole quotient truncated toward zero.
pub open spec fn blend_toward(value: int, delta: int, t: int, d: int) -> int {
    trunc_div(value * d + delta * t, d)
}

/// Computes [`step_toward`]; the result lies between `value` and
/// `value + delta`.
pub(crate) fn step_toward_exec(value: i32, target: i32, t: i64, d: i64) -> (r: i32)
    requires
        0 <= t <= d,
        0 < d <= 0xffff_ffff,
    ensures
        r == step_toward(value as int, target - value, t as int, d as int),
        value <= target ==> value <= r <= target,
        target <= value ==> target <= r <= value,
{
    let delta: i128 = target as i128 - value as i128;
    assert(-(0x1_0000_0000 * 0x1_0000_0000) <= delta * t <= 0x1_0000_0000 * 0x1_0000_0000 && if delta >= 0 {
        0 <= delta * t <= delta * d
    } else {
        delta * d <= delta * t <= 0
    }) by (nonlinear_arith)
        requires
            0 <= t <= d,
            0 < d <= 0xffff_ffff,
            -0x1_0000_0000 < delta < 0x1_0000_0000,
    ;
    let n: i128 = delta * (t as i128);
    let q: i128 = n / (d as i128);
    proof {
        if delta >= 0 {
            lemma_trunc_div_between(n as int, d as int, 0, delta as int);
        } else {
            lemma_trunc_div_between(n as int, d as int, delta as int, 0);
        }
    }
    (value as i128 + q) as i32
}

/// Computes [`blend_toward`]; the result lies between `value` and `target`.
pub(crate) fn blend_toward_exec(value: i32, target: i32, t: i64, d: i64) -> (r: i32)
    requires
        0 <= t <= d,
        0 < d <= 0xffff_ffff,
    ensures
        r == blend_toward(value as int, target - value, t as int, d as int),
        value <= target ==> value <= r <= target,
        target <= value ==> target <= r <= value,
{
    let delta: i128 = target as i128 - value as i128;
    assert(-(0x8000_0000 * 0x1_0000_0000) <= value * d <= 0x8000_0000 * 0x1_0000_0000) by (nonlinear_arith)
        requires
            0 < d <= 0xffff_ffff,
            -0x8000_0000 <= value <= 0x7fff_ffff,
    ;
    let base: i128 = (value as i128) * (d as i128);
    assert(-(0x1_0000_0000 * 0x1_0000_0000) <= delta * t <= 0x1_0000_0000 * 0x1_0000_0000 && if delta >= 0 {
        0 <= delta * t <= delta * d
    } else {
        delta * d <= delta * t <= 0
    }) by (nonlinear_arith)
        requires
            0 <= t <= d,
            0 < d <= 0xffff_ffff,
            -0x1_0000_0000 < delta < 0x1_0000_0000,
    ;
    let n: i128 = base + delta * (t as i128);
    let q: i128 = n / (d as i128);
    proof {
        assert(value * d + delta * d == target * d) by (nonlinear_arith)
            requires
                delta == target - value,
        ;
        if delta >= 0 {
            lemma_trunc_div_between(n as int, d as int, value as int, target as int);
        } else {
            lemma_trunc_div_between(n as int, d as int, target as int, value as int);
        }
    }
    q as i32
}

} // verus!
