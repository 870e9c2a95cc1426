use vstd::prelude::*;
use crate::arith::{div_floor, div_floor_exec, lemma_mul_bound};
use vstd::arithmetic::div_mod::lemma_fundamental_div_mod_converse;

verus! {

/// Sub-pixel resolution: displacements and sampling positions are in units of
/// `1 / SUBPIXEL` pixel.
pub const SUBPIXEL: i64 = 256;

/// The four Catmull-Rom weights at sub-pixel offset `t`, scaled by `2 * SUBPIXEL^3`.
pub open spec fn cubic_weight(t: int, k: int) -> int {
    let t2 = t * t;
    let t3 = t2 * t;
    if k == 0 {
        -t3 + 2 * (t2 * 256) - t * 65536
    } else if k == 1 {
        3 * t3 - 5 * (t2 * 256) + 2 * 16777216
    } else if k == 2 {
        -3 * t3 + 4 * (t2 * 256) + t * 65536
    } else {
        t3 - t2 * 256
    }
}

/// Scale of the one-dimensional weights.
pub open spec fn weight_scale() -> int {
    33554432
}

/// Scale of the two-dimensional weights, `weight_scale()^2`.
pub open spec fn weight_scale_2d() -> int {
    1125899906842624
}

pub open spec fn clamp_index(x: int, n: int) -> int {
    if x < 0 {
        0
    } else if x >= n {
        n - 1
    } else {
        x
    }
}

/// Sample `(i, j)` of channel `ch` of a row-major grid with `w` columns and `c` channels.
pub open spec fn plane_at(s: Seq<i32>, w: int, c: int, ch: int, i: int, j: int) -> int {
    s[(i * w + j) * c + ch] as int
}

/// Horizontal cubic reconstruction along row `i`, around column `x0`, at offset `tx`.
pub open spec fn row_total(s: Seq<i32>, w: int, c: int, ch: int, i: int, x0: int, tx: int) -> int {
    cubic_weight(tx, 0) * plane_at(s, w, c, ch, i, clamp_index(x0 - 1, w)) + cubic_weight(tx, 1)
        * plane_at(s, w, c, ch, i, clamp_index(x0, w)) + cubic_weight(tx, 2) * plane_at(
        s,
        w,
        c,
        ch,
        i,
        clamp_index(x0 + 1, w),
    ) + cubic_weight(tx, 3) * plane_at(s, w, c, ch, i, clamp_index(x0 + 2, w))
}

/// Bicubic reconstruction, before normalisation, at the sub-pixel position `(yf, xf)`.
pub open spec fn bicubic_total(s: Seq<i32>, w: int, h: int, c: int, ch: int, yf: int, xf: int) -> int {
    let y0 = div_floor(yf, 256);
    let x0 = div_floor(xf, 256);
    let ty = yf - 256 * y0;
    let tx = xf - 256 * x0;
    cubic_weight(ty, 0) * row_total(s, w, c, ch, clamp_index(y0 - 1, h), x0, tx) + cubic_weight(
        ty,
        1,
    ) * row_total(s, w, c, ch, clamp_index(y0, h), x0, tx) + cubic_weight(ty, 2) * row_total(
        s,
        w,
        c,
        ch,
        clamp_index(y0 + 1, h),
        x0,
        tx,
    ) + cubic_weight(ty, 3) * row_total(s, w, c, ch, clamp_index(y0 + 2, h), x0, tx)
}

/// The bicubic value at `(yf, xf)`, rounded to the nearest integer; positions outside
/// the grid read the nearest border sample.
pub open spec fn bicubic(s: Seq<i32>, w: int, h: int, c: int, ch: int, yf: int, xf: int) -> int {
    div_floor(bicubic_total(s, w, h, c, ch, yf, xf) + weight_scale_2d() / 2, weight_scale_2d())
}

/// A grid of `h` rows, `w` columns and `c` channels stored row-major in `s`.
pub open spec fn grid_ok(s: Seq<i32>, w: int, h: int, c: int) -> bool {
    &&& w >= 1
    &&& h >= 1
    &&& c >= 1
    &&& s.len() == h * w * c
}

/// Position of sample `(i, j)` of channel `ch` in a row-major grid.
pub open spec fn grid_index(w: int, c: int, i: int, j: int, ch: int) -> int {
    (i * w + j) * c + ch
}

/// Row of the sample stored at position `k`.
pub open spec fn index_row(w: int, c: int, k: int) -> int {
    (k / c) / w
}

/// Column of the sample stored at position `k`.
pub open spec fn index_col(w: int, c: int, k: int) -> int {
    (k / c) % w
}

/// Channel of the sample stored at position `k`.
pub open spec fn index_channel(c: int, k: int) -> int {
    k % c
}

pub proof fn lemma_grid_decode(w: int, c: int, i: int, j: int, ch: int)
    requires
        w >= 1,
        c >= 1,
        i >= 0,
        0 <= j < w,
        0 <= ch < c,
    ensures
        index_row(w, c, grid_index(w, c, i, j, ch)) == i,
        index_col(w, c, grid_index(w, c, i, j, ch)) == j,
        index_channel(c, grid_index(w, c, i, j, ch)) == ch,
{
    let k = grid_index(w, c, i, j, ch);
    lemma_fundamental_div_mod_converse(k, c, i * w + j, ch);
    lemma_fundamental_div_mod_converse(i * w + j, w, i, j);
}

/// Every position of a grid holds the sample of its own row, column and channel.
pub proof fn lemma_grid_position(w: int, h: int, c: int, k: int)
    requires
        w >= 1,
        h >= 1,
        c >= 1,
        0 <= k < h * w * c,
    ensures
        0 <= index_row(w, c, k) < h,
        0 <= index_col(w, c, k) < w,
        0 <= index_channel(c, k) < c,
        grid_index(w, c, index_row(w, c, k), index_col(w, c, k), index_channel(c, k)) == k,
{
    let p = k / c;
    assert(k == p * c + k % c && 0 <= k % c < c) by (nonlinear_arith)
        requires
            c >= 1,
            p == k / c,
    ;
    assert(p == (p / w) * w + p % w && 0 <= p % w < w) by (nonlinear_arith)
        requires
            w >= 1,
    ;
    assert(0 <= p < h * w) by (nonlinear_arith)
        requires
            p == k / c,
            0 <= k < h * w * c,
            c >= 1,
    ;
    assert(0 <= p / w < h) by (nonlinear_arith)
        requires
            0 <= p < h * w,
            w >= 1,
    ;
}

pub proof fn lemma_grid_index(i: int, j: int, ch: int, w: int, h: int, c: int)
    requires
        0 <= i < h,
        0 <= j < w,
        0 <= ch < c,
    ensures
        0 <= i * w <= i * w + j < h * w <= h * w * c,
        0 <= (i * w + j) * c <= (i * w + j) * c + ch < h * w * c,
{
    assert(0 <= i * w <= i * w + j < h * w) by (nonlinear_arith)
        requires
            0 <= i < h,
            0 <= j < w,
    ;
    assert(h * w <= (h * w) * c) by (nonlinear_arith)
        requires
            h * w >= 0,
            c >= 1,
    ;
    assert(0 <= (i * w + j) * c <= (i * w + j) * c + ch < (h * w) * c) by (nonlinear_arith)
        requires
            0 <= i * w + j < h * w,
            0 <= ch < c,
    ;
}

pub proof fn lemma_cubic_weight(t: int)
    requires
        0 <= t < 256,
    ensures
        forall|k: int| -167772160 <= #[trigger] cubic_weight(t, k) <= 167772160,
        cubic_weight(t, 0) + cubic_weight(t, 1) + cubic_weight(t, 2) + cubic_weight(t, 3)
            == weight_scale(),
        t == 0 ==> cubic_weight(t, 0) == 0 && cubic_weight(t, 1) == weight_scale() && cubic_weight(
            t,
            2,
        ) == 0 && cubic_weight(t, 3) == 0,
{
    let t2 = t * t;
    let t3 = t2 * t;
    assert(0 <= t2 <= 65536 && 0 <= t3 <= 16777216) by (nonlinear_arith)
        requires
            0 <= t < 256,
            t2 == t * t,
            t3 == t2 * t,
    ;
}

/// At a whole-pixel position the bicubic value is the stored sample itself.
pub proof fn lemma_bicubic_on_grid(s: Seq<i32>, w: int, h: int, c: int, ch: int, i: int, j: int)
    requires
        grid_ok(s, w, h, c),
        0 <= i < h,
        0 <= j < w,
        0 <= ch < c,
    ensures
        bicubic(s, w, h, c, ch, i * 256, j * 256) == plane_at(s, w, c, ch, i, j),
{
    lemma_cubic_weight(0);
    let v = plane_at(s, w, c, ch, i, j);
    assert(div_floor(i * 256, 256) == i);
    assert(div_floor(j * 256, 256) == j);
    let wt = weight_scale();
    assert(row_total(s, w, c, ch, i, j, 0) == wt * v);
    assert(i * 256 - 256 * div_floor(i * 256, 256) == 0);
    assert(j * 256 - 256 * div_floor(j * 256, 256) == 0);
    assert(clamp_index(i, h) == i);
    let r0 = row_total(s, w, c, ch, clamp_index(i - 1, h), j, 0);
    let r2 = row_total(s, w, c, ch, clamp_index(i + 1, h), j, 0);
    let r3 = row_total(s, w, c, ch, clamp_index(i + 2, h), j, 0);
    assert(bicubic_total(s, w, h, c, ch, i * 256, j * 256) == 0 * r0 + wt * (wt * v) + 0 * r2 + 0
        * r3);
    assert(bicubic_total(s, w, h, c, ch, i * 256, j * 256) == wt * (wt * v));
    let d = weight_scale_2d();
    assert(wt * (wt * v) == d * v) by (nonlinear_arith)
        requires
            wt == 33554432,
            d == 1125899906842624,
    ;
    let t = d * v + d / 2;
    if v >= 0 {
        assert(t / d == v) by (nonlinear_arith)
            requires
                t == d * v + d / 2,
                v >= 0,
                d == 1125899906842624,
        ;
    } else {
        assert((-t + d - 1) / d == -v) by (nonlinear_arith)
            requires
                t == d * v + d / 2,
                v < 0,
                d == 1125899906842624,
        ;
    }
}

/// The sub-pixel offset of a position lies in `[0, 256)`.
proof fn lemma_offset(x: int)
    ensures
        0 <= x - 256 * div_floor(x, 256) < 256,
{
}

/// On a grid where every sample is `v`, the bicubic value is `v` everywhere: the
/// weights sum to one.
pub proof fn lemma_bicubic_constant(s: Seq<i32>, w: int, h: int, c: int, ch: int, yf: int, xf: int, v: int)
    requires
        grid_ok(s, w, h, c),
        0 <= ch < c,
        forall|k: int| 0 <= k < s.len() ==> #[trigger] s[k] == v,
    ensures
        bicubic(s, w, h, c, ch, yf, xf) == v,
{
    let y0 = div_floor(yf, 256);
    let x0 = div_floor(xf, 256);
    let ty = yf - 256 * y0;
    let tx = xf - 256 * x0;
    lemma_offset(yf);
    lemma_offset(xf);
    lemma_cubic_weight(tx);
    lemma_cubic_weight(ty);
    let wt = weight_scale();
    assert forall|i: int| 0 <= i < h implies #[trigger] row_total(s, w, c, ch, i, x0, tx) == wt * v by {
        lemma_grid_index(i, clamp_index(x0 - 1, w), ch, w, h, c);
        lemma_grid_index(i, clamp_index(x0, w), ch, w, h, c);
        lemma_grid_index(i, clamp_index(x0 + 1, w), ch, w, h, c);
        lemma_grid_index(i, clamp_index(x0 + 2, w), ch, w, h, c);
        let (w0, w1, w2, w3) = (cubic_weight(tx, 0), cubic_weight(tx, 1), cubic_weight(tx, 2), cubic_weight(tx, 3));
        assert(w0 * v + w1 * v + w2 * v + w3 * v == wt * v) by (nonlinear_arith)
            requires
                w0 + w1 + w2 + w3 == wt,
        ;
    }
    let r0 = row_total(s, w, c, ch, clamp_index(y0 - 1, h), x0, tx);
    let r1 = row_total(s, w, c, ch, clamp_index(y0, h), x0, tx);
    let r2 = row_total(s, w, c, ch, clamp_index(y0 + 1, h), x0, tx);
    let r3 = row_total(s, w, c, ch, clamp_index(y0 + 2, h), x0, tx);
    assert(r0 == wt * v && r1 == wt * v && r2 == wt * v && r3 == wt * v);
    let (u0, u1, u2, u3) = (cubic_weight(ty, 0), cubic_weight(ty, 1), cubic_weight(ty, 2), cubic_weight(ty, 3));
    let d = weight_scale_2d();
    assert(u0 * (wt * v) + u1 * (wt * v) + u2 * (wt * v) + u3 * (wt * v) == d * v) by (nonlinear_arith)
        requires
            u0 + u1 + u2 + u3 == wt,
            wt == 33554432,
            d == 1125899906842624,
    ;
    lemma_round_exact(v);
}

/// Normalising `weight_scale_2d() * v` gives back `v`.
proof fn lemma_round_exact(v: int)
    ensures
        div_floor(weight_scale_2d() * v + weight_scale_2d() / 2, weight_scale_2d()) == v,
{
    let d = weight_scale_2d();
    let t = d * v + d / 2;
    if v >= 0 {
        assert(t / d == v) by (nonlinear_arith)
            requires
                t == d * v + d / 2,
                v >= 0,
                d == 1125899906842624,
        ;
    } else {
        assert((-t + d - 1) / d == -v) by (nonlinear_arith)
            requires
                t == d * v + d / 2,
                v < 0,
                d == 1125899906842624,
        ;
    }
}

/// Computes `cubic_weight(t, k)` for the four taps.
fn cubic_weights(t: i64) -> (r: (i64, i64, i64, i64))
    requires
        0 <= t < 256,
    ensures
        r.0 == cubic_weight(t as int, 0),
        r.1 == cubic_weight(t as int, 1),
        r.2 == cubic_weight(t as int, 2),
        r.3 == cubic_weight(t as int, 3),
{
    proof {
        lemma_cubic_weight(t as int);
        assert(0 <= t * t <= 65536 && 0 <= (t * t) * t <= 16777216) by (nonlinear_arith)
            requires
                0 <= t < 256,
        ;
    }
    let t2: i64 = t * t;
    let t3: i64 = t2 * t;
    (
        -t3 + 2 * (t2 * 256) - t * 65536,
        3 * t3 - 5 * (t2 * 256) + 2 * 16777216,
        -3 * t3 + 4 * (t2 * 256) + t * 65536,
        t3 - t2 * 256,
    )
}

/// Reads sample `(i, j)` of channel `ch`.
pub fn grid_get(s: &Vec<i32>, w: usize, h: usize, c: usize, ch: usize, i: usize, j: usize) -> (r:
    i32)
    requires
        grid_ok(s@, w as int, h as int, c as int),
        i < h,
        j < w,
        ch < c,
    ensures
        r as int == plane_at(s@, w as int, c as int, ch as int, i as int, j as int),
{
    proof {
        lemma_grid_index(i as int, j as int, ch as int, w as int, h as int, c as int);
    }
    let n = s.len();
    assert(n == h * w * c);
    s[(i * w + j) * c + ch]
}

fn clamp_index_exec(x: i64, n: usize) -> (r: usize)
    requires
        n >= 1,
    ensures
        r == clamp_index(x as int, n as int),
        r < n,
{
    if x < 0 {
        0
    } else if x as u64 >= n as u64 {
        n - 1
    } else {
        x as usize
    }
}

fn row_total_exec(
    s: &Vec<i32>,
    w: usize,
    h: usize,
    c: usize,
    ch: usize,
    i: usize,
    x0: i64,
    wx: (i64, i64, i64, i64),
    tx: Ghost<int>,
) -> (r: i128)
    requires
        grid_ok(s@, w as int, h as int, c as int),
        i < h,
        ch < c,
        -0x100_0000_0000 <= x0 <= 0x100_0000_0000,
        0 <= tx@ < 256,
        wx.0 == cubic_weight(tx@, 0),
        wx.1 == cubic_weight(tx@, 1),
        wx.2 == cubic_weight(tx@, 2),
        wx.3 == cubic_weight(tx@, 3),
    ensures
        r == row_total(s@, w as int, c as int, ch as int, i as int, x0 as int, tx@),
        -0x2800_0000_0000_0000 <= r <= 0x2800_0000_0000_0000,
{
    proof {
        lemma_cubic_weight(tx@);
    }
    let v0 = grid_get(s, w, h, c, ch, i, clamp_index_exec(x0 - 1, w)) as i128;
    let v1 = grid_get(s, w, h, c, ch, i, clamp_index_exec(x0, w)) as i128;
    let v2 = grid_get(s, w, h, c, ch, i, clamp_index_exec(x0 + 1, w)) as i128;
    let v3 = grid_get(s, w, h, c, ch, i, clamp_index_exec(x0 + 2, w)) as i128;
    proof {
        let b = 167772160int;
        let m = 0x8000_0000int;
        assert(-b <= wx.0 <= b && -b <= wx.1 <= b && -b <= wx.2 <= b && -b <= wx.3 <= b) by {
            assert(cubic_weight(tx@, 0) == wx.0);
            assert(cubic_weight(tx@, 1) == wx.1);
            assert(cubic_weight(tx@, 2) == wx.2);
            assert(cubic_weight(tx@, 3) == wx.3);
        }
        lemma_mul_bound(wx.0 as int, v0 as int, b, m);
        lemma_mul_bound(wx.1 as int, v1 as int, b, m);
        lemma_mul_bound(wx.2 as int, v2 as int, b, m);
        lemma_mul_bound(wx.3 as int, v3 as int, b, m);
    }
    (wx.0 as i128) * v0 + (wx.1 as i128) * v1 + (wx.2 as i128) * v2 + (wx.3 as i128) * v3
}

/// Samples channel `ch` of a grid at the sub-pixel position `(yf, xf)` by bicubic
/// (Catmull-Rom) interpolation, clamping positions outside the grid to its border.
pub fn bicubic_exec(
    s: &Vec<i32>,
    w: usize,
    h: usize,
    c: usize,
    ch: usize,
    yf: i64,
    xf: i64,
) -> (r: i128)
    requires
        grid_ok(s@, w as int, h as int, c as int),
        ch < c,
        -0x1_0000_0000_0000 <= yf <= 0x1_0000_0000_0000,
        -0x1_0000_0000_0000 <= xf <= 0x1_0000_0000_0000,
    ensures
        r == bicubic(s@, w as int, h as int, c as int, ch as int, yf as int, xf as int),
{
    let y0 = div_floor_exec(yf as i128, 256) as i64;
    let x0 = div_floor_exec(xf as i128, 256) as i64;
    let ty = yf - 256 * y0;
    let tx = xf - 256 * x0;
    let wy = cubic_weights(ty);
    let wx = cubic_weights(tx);
    let g = Ghost(tx as int);
    let r0 = row_total_exec(s, w, h, c, ch, clamp_index_exec(y0 - 1, h), x0, wx, g);
    let r1 = row_total_exec(s, w, h, c, ch, clamp_index_exec(y0, h), x0, wx, g);
    let r2 = row_total_exec(s, w, h, c, ch, clamp_index_exec(y0 + 1, h), x0, wx, g);
    let r3 = row_total_exec(s, w, h, c, ch, clamp_index_exec(y0 + 2, h), x0, wx, g);
    proof {
        lemma_cubic_weight(ty as int);
        let b = 167772160int;
        let m = 0x2800_0000_0000_0000int;
        assert(-b <= wy.0 <= b && -b <= wy.1 <= b && -b <= wy.2 <= b && -b <= wy.3 <= b) by {
            assert(cubic_weight(ty as int, 0) == wy.0);
            assert(cubic_weight(ty as int, 1) == wy.1);
            assert(cubic_weight(ty as int, 2) == wy.2);
            assert(cubic_weight(ty as int, 3) == wy.3);
        }
        lemma_mul_bound(wy.0 as int, r0 as int, b, m);
        lemma_mul_bound(wy.1 as int, r1 as int, b, m);
        lemma_mul_bound(wy.2 as int, r2 as int, b, m);
        lemma_mul_bound(wy.3 as int, r3 as int, b, m);
    }
    let total = (wy.0 as i128) * r0 + (wy.1 as i128) * r1 + (wy.2 as i128) * r2 + (wy.3 as i128)
        * r3;
    div_floor_exec(total + 562949953421312, 1125899906842624)
}

} // verus!
