use vstd::prelude::*;

verus! {

/// Floor division by a positive divisor, written out for both signs.
pub open spec fn div_floor(t: int, d: int) -> int {
    if t >= 0 {
        t / d
    } else {
        -((-t + d - 1) / d)
    }
}

pub open spec fn clamp_spec(x: int, lo: int, hi: int) -> int {
    if x < lo {
        lo
    } else if x > hi {
        hi
    } else {
        x
    }
}

pub proof fn lemma_mul_bound(a: int, b: int, x: int, y: int)
    requires
        -x <= a <= x,
        -y <= b <= y,
    ensures
        -(x * y) <= a * b <= x * y,
{
    assert(-(x * y) <= a * b <= x * y) by (nonlinear_arith)
        requires
            -x <= a <= x,
            -y <= b <= y,
    ;
}

pub fn div_floor_exec(t: i128, d: i128) -> (r: i128)
    requires
        0 < d,
        -0x1000_0000_0000_0000_0000_0000_0000 <= t <= 0x1000_0000_0000_0000_0000_0000_0000,
        d <= 0x1000_0000_0000_0000_0000_0000_0000,
    ensures
        r == div_floor(t as int, d as int),
{
    if t >= 0 {
        ((t as u128) / (d as u128)) as i128
    } else {
        let m: u128 = (-t) as u128;
        let q: u128 = (m + (d as u128) - 1) / (d as u128);
        assert(q <= m + d - 1) by (nonlinear_arith)
            requires
                q == (m + d - 1) / (d as int),
                d >= 1,
                m + d - 1 >= 0,
        ;
        -(q as i128)
    }
}

/// The integer square root: the largest `r` with `r * r <= x`.
pub fn isqrt(x: u128) -> (r: u64)
    requires
        x < 0x400_0000_0000_0000_0000_0000_0000,
    ensures
        r * r <= x < (r + 1) * (r + 1),
{
    let mut lo: u64 = 0;
    let mut hi: u64 = 0x20_0000_0000_0000;
    assert(hi * hi == 0x400_0000_0000_0000_0000_0000_0000);
    while hi - lo > 1
        invariant
            lo < hi <= 0x20_0000_0000_0000,
            lo * lo <= x < hi * hi,
        decreases hi - lo,
    {
        let mid = lo + (hi - lo) / 2;
        assert(mid * mid <= 0x400_0000_0000_0000_0000_0000_0000) by (nonlinear_arith)
            requires
                mid <= 0x20_0000_0000_0000,
        ;
        if (mid as u128) * (mid as u128) <= x {
            lo = mid;
        } else {
            hi = mid;
        }
    }
    lo
}

pub fn clamp_exec(x: i128, lo: i64, hi: i64) -> (r: i64)
    requires
        lo <= hi,
    ensures
        r == clamp_spec(x as int, lo as int, hi as int),
{
    if x < lo as i128 {
        lo
    } else if x > hi as i128 {
        hi
    } else {
        x as i64
    }
}

} // verus!
