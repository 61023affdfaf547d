//! Fixed-point arithmetic: a real quantity `v` is held as the integer
//! `v * ONE`. Products truncate toward zero and saturate at `±i64::MAX`.
use vstd::prelude::*;

verus! {

/// The fixed-point value of `1.0`.
pub const ONE: i64 = 1_000_000_000;

/// Largest magnitude that a saturated value takes.
pub const SATURATION: i64 = 9_223_372_036_854_775_807;

/// `v` pulled into `[-i64::MAX, i64::MAX]`.
pub open spec fn saturate(v: int) -> int {
    if v > SATURATION {
        SATURATION as int
    } else if v < -SATURATION {
        -SATURATION
    } else {
        v
    }
}

/// `v` pulled into `[lo, hi]`.
pub open spec fn clamp(v: int, lo: int, hi: int) -> int {
    if v < lo {
        lo
    } else if v > hi {
        hi
    } else {
        v
    }
}

/// The fixed-point product of `a` and `b`, truncated toward zero.
pub open spec fn trunc_product(a: int, b: int) -> int {
    if a * b >= 0 {
        (a * b) / (ONE as int)
    } else {
        -((-(a * b)) / (ONE as int))
    }
}

/// The fixed-point product of `a` and `b`, truncated toward zero, then saturated.
pub open spec fn fx_mul_spec(a: int, b: int) -> int {
    saturate(trunc_product(a, b))
}

/// Saturates a wide intermediate into an `i64`.
pub fn saturate_wide(v: i128) -> (r: i64)
    ensures
        r == saturate(v as int),
{
    if v > SATURATION as i128 {
        SATURATION
    } else if v < -(SATURATION as i128) {
        -SATURATION
    } else {
        v as i64
    }
}

/// Fixed-point product: `a * b / ONE`, truncated toward zero and saturated.
pub fn fx_mul(a: i64, b: i64) -> (r: i64)
    ensures
        r == fx_mul_spec(a as int, b as int),
{
    proof {
        let ai = a as int;
        let bi = b as int;
        assert(-0x8000_0000_0000_0000 <= ai < 0x8000_0000_0000_0000);
        assert(-0x8000_0000_0000_0000 <= bi < 0x8000_0000_0000_0000);
        assert(ai * bi <= 0x4000_0000_0000_0000_0000_0000_0000_0000 && ai * bi
            >= -0x3fff_ffff_ffff_ffff_8000_0000_0000_0000) by (nonlinear_arith)
            requires
                -0x8000_0000_0000_0000 <= ai < 0x8000_0000_0000_0000,
                -0x8000_0000_0000_0000 <= bi < 0x8000_0000_0000_0000,
        ;
    }
    let p: i128 = (a as i128) * (b as i128);
    let q: i128 = if p >= 0 {
        ((p as u128) / (ONE as u128)) as i128
    } else {
        -((((-p) as u128) / (ONE as u128)) as i128)
    };
    saturate_wide(q)
}

/// `v` clamped into `[lo, hi]`.
pub fn clamp_wide(v: i128, lo: i64, hi: i64) -> (r: i64)
    requires
        lo <= hi,
    ensures
        r == clamp(v as int, lo as int, hi as int),
{
    if v < lo as i128 {
        lo
    } else if v > hi as i128 {
        hi
    } else {
        v as i64
    }
}

} // verus!
