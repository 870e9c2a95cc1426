use vstd::prelude::*;
use crate::arith::{clamp_exec, clamp_spec, div_floor, div_floor_exec, isqrt, lemma_mul_bound};
use crate::flow::Flow;
use crate::params::{ColorMode, Fraction, FlowError, SolverParams};
use crate::pyramid::{build_pyramid, is_pyramid, lemma_pyramids_agree};
use crate::interp::{clamp_index, plane_at};
use vstd::arithmetic::div_mod::lemma_fundamental_div_mod_converse;
use crate::raster::{luma_seq, warp, warp_seq, ImageBuf};
use crate::flow::{add_seq, zeros_seq, upsample_seq, FLOW_LIMIT};

verus! {

/// Bound on the magnitude of a data-term coefficient.
pub const COEF_LIMIT: i64 = 1099511627776;

/// Over-relaxation factor `OMEGA_NUM / OMEGA_DEN`.
pub const OMEGA_NUM: i128 = 9;

pub const OMEGA_DEN: i128 = 5;

pub open spec fn all_zero(s: Seq<i32>) -> bool {
    forall|k: int| 0 <= k < s.len() ==> #[trigger] s[k] == 0
}

pub open spec fn all_zero64(s: Seq<i64>) -> bool {
    forall|k: int| 0 <= k < s.len() ==> #[trigger] s[k] == 0
}

pub open spec fn coef_bounded(s: Seq<i64>) -> bool {
    forall|k: int| 0 <= k < s.len() ==> -COEF_LIMIT <= #[trigger] s[k] <= COEF_LIMIT
}

/// The linearised data term at every pixel: the system matrix `[a11 a12; a12 a22]`
/// and right-hand side `(b1, b2)`, with gradients scaled by four; `c` is the sum of
/// the squared brightness differences.
pub struct DataTerm {
    pub c: Vec<i64>,
    pub a11: Vec<i64>,
    pub a12: Vec<i64>,
    pub a22: Vec<i64>,
    pub b1: Vec<i64>,
    pub b2: Vec<i64>,
}

impl DataTerm {
    pub open spec fn wf(&self, n: int) -> bool {
        &&& self.c@.len() == n
        &&& coef_bounded(self.c@)
        &&& self.a11@.len() == n
        &&& self.a12@.len() == n
        &&& self.a22@.len() == n
        &&& self.b1@.len() == n
        &&& self.b2@.len() == n
        &&& coef_bounded(self.a11@)
        &&& coef_bounded(self.a12@)
        &&& coef_bounded(self.a22@)
        &&& coef_bounded(self.b1@)
        &&& coef_bounded(self.b2@)
        &&& forall|k: int| 0 <= k < n ==> 0 <= #[trigger] self.a11@[k] && 0 <= self.a22@[k]
    }

    /// No brightness difference anywhere.
    pub open spec fn rhs_zero(&self) -> bool {
        all_zero64(self.b1@) && all_zero64(self.b2@)
    }
}

proof fn lemma_index2(i: int, j: int, w: int, h: int)
    requires
        0 <= i < h,
        0 <= j < w,
    ensures
        0 <= i * w <= i * w + j < h * w,
{
    assert(0 <= i * w <= i * w + j < h * w) by (nonlinear_arith)
        requires
            0 <= i < h,
            0 <= j < w,
    ;
}

/// Horizontal central difference of the grid `s` at `(i, j, ch)`, borders repeated.
pub open spec fn diff_x(s: Seq<i32>, w: int, h: int, c: int, i: int, j: int, ch: int) -> int {
    plane_at(s, w, c, ch, i, clamp_index(j + 1, w)) - plane_at(s, w, c, ch, i, clamp_index(j - 1, w))
}

/// Vertical central difference of the grid `s` at `(i, j, ch)`, borders repeated.
pub open spec fn diff_y(s: Seq<i32>, w: int, h: int, c: int, i: int, j: int, ch: int) -> int {
    plane_at(s, w, c, ch, clamp_index(i + 1, h), j) - plane_at(s, w, c, ch, clamp_index(i - 1, h), j)
}

/// The products of the spatial gradients `gx`, `gy` (four times the mean derivative
/// of both grids) and the temporal difference `gt` (four times `s2 - s1`):
/// `which` selects `gx gx`, `gx gy`, `gy gy`, `gx gt`, `gy gt` or `gt gt`.
pub open spec fn data_product(s1: Seq<i32>, s2: Seq<i32>, w: int, h: int, c: int, i: int, j: int, ch: int, which: int) -> int {
    let gx = diff_x(s1, w, h, c, i, j, ch) + diff_x(s2, w, h, c, i, j, ch);
    let gy = diff_y(s1, w, h, c, i, j, ch) + diff_y(s2, w, h, c, i, j, ch);
    let gt = 4 * (plane_at(s2, w, c, ch, i, j) - plane_at(s1, w, c, ch, i, j));
    if which == 0 {
        gx * gx
    } else if which == 1 {
        gx * gy
    } else if which == 2 {
        gy * gy
    } else if which == 3 {
        gx * gt
    } else if which == 4 {
        gy * gt
    } else {
        gt * gt
    }
}

/// `data_product` summed over the first `n` channels.
pub open spec fn data_sum(s1: Seq<i32>, s2: Seq<i32>, w: int, h: int, c: int, i: int, j: int, n: nat, which: int) -> int
    decreases n,
{
    if n == 0 {
        0
    } else {
        data_sum(s1, s2, w, h, c, i, j, (n - 1) as nat, which) + data_product(s1, s2, w, h, c, i, j, n - 1, which)
    }
}

/// The data-term coefficients at pixel `(i, j)`, summed over channels.
fn data_at(img1: &ImageBuf, warped: &ImageBuf, i: usize, j: usize) -> (r: (i64, i64, i64, i64, i64, i64))
    requires
        img1.wf(),
        warped.wf(),
        warped.same_shape(img1),
        i < img1.height,
        j < img1.width,
    ensures
        0 <= r.0 <= COEF_LIMIT,
        -COEF_LIMIT <= r.1 <= COEF_LIMIT,
        0 <= r.2 <= COEF_LIMIT,
        -COEF_LIMIT <= r.3 <= COEF_LIMIT,
        -COEF_LIMIT <= r.4 <= COEF_LIMIT,
        img1.samples@ == warped.samples@ ==> r.3 == 0 && r.4 == 0,
        0 <= r.5 <= COEF_LIMIT,
        r.0 == data_sum(img1.samples@, warped.samples@, img1.width as int, img1.height as int, img1.channels as int, i as int, j as int, img1.channels as nat, 0),
        r.1 == data_sum(img1.samples@, warped.samples@, img1.width as int, img1.height as int, img1.channels as int, i as int, j as int, img1.channels as nat, 1),
        r.2 == data_sum(img1.samples@, warped.samples@, img1.width as int, img1.height as int, img1.channels as int, i as int, j as int, img1.channels as nat, 2),
        r.3 == data_sum(img1.samples@, warped.samples@, img1.width as int, img1.height as int, img1.channels as int, i as int, j as int, img1.channels as nat, 3),
        r.4 == data_sum(img1.samples@, warped.samples@, img1.width as int, img1.height as int, img1.channels as int, i as int, j as int, img1.channels as nat, 4),
        r.5 == data_sum(img1.samples@, warped.samples@, img1.width as int, img1.height as int, img1.channels as int, i as int, j as int, img1.channels as nat, 5),
{
    let c = img1.channels;
    let ii = i as i64;
    let jj = j as i64;
    let mut a11: i64 = 0;
    let mut a12: i64 = 0;
    let mut a22: i64 = 0;
    let mut b1: i64 = 0;
    let mut b2: i64 = 0;
    let mut c2: i64 = 0;
    let mut ch: usize = 0;
    while ch < c
        invariant
            img1.wf(),
            warped.wf(),
            warped.same_shape(img1),
            c == img1.channels,
            ch <= c,
            i < img1.height,
            j < img1.width,
            ii == i,
            jj == j,
            0 <= a11 <= ch * 0x4_0000_0000,
            -(ch * 0x8_0000_0000) <= a12 <= ch * 0x8_0000_0000,
            0 <= a22 <= ch * 0x4_0000_0000,
            -(ch * 0x8_0000_0000) <= b1 <= ch * 0x8_0000_0000,
            -(ch * 0x8_0000_0000) <= b2 <= ch * 0x8_0000_0000,
            0 <= c2 <= ch * 0x10_0000_0000,
            a11 == data_sum(img1.samples@, warped.samples@, img1.width as int, img1.height as int, img1.channels as int, i as int, j as int, ch as nat, 0),
            a12 == data_sum(img1.samples@, warped.samples@, img1.width as int, img1.height as int, img1.channels as int, i as int, j as int, ch as nat, 1),
            a22 == data_sum(img1.samples@, warped.samples@, img1.width as int, img1.height as int, img1.channels as int, i as int, j as int, ch as nat, 2),
            b1 == data_sum(img1.samples@, warped.samples@, img1.width as int, img1.height as int, img1.channels as int, i as int, j as int, ch as nat, 3),
            b2 == data_sum(img1.samples@, warped.samples@, img1.width as int, img1.height as int, img1.channels as int, i as int, j as int, ch as nat, 4),
            c2 == data_sum(img1.samples@, warped.samples@, img1.width as int, img1.height as int, img1.channels as int, i as int, j as int, ch as nat, 5),
            img1.samples@ == warped.samples@ ==> b1 == 0 && b2 == 0,
        decreases c - ch,
    {
        let ix = (img1.sample_clamped(ii, jj + 1, ch) as i64 - img1.sample_clamped(ii, jj - 1, ch) as i64)
            + (warped.sample_clamped(ii, jj + 1, ch) as i64 - warped.sample_clamped(ii, jj - 1, ch) as i64);
        let iy = (img1.sample_clamped(ii + 1, jj, ch) as i64 - img1.sample_clamped(ii - 1, jj, ch) as i64)
            + (warped.sample_clamped(ii + 1, jj, ch) as i64 - warped.sample_clamped(ii - 1, jj, ch) as i64);
        let it = 4 * (warped.sample_clamped(ii, jj, ch) as i64 - img1.sample_clamped(ii, jj, ch) as i64);
        proof {
            let g = 131070int;
            lemma_mul_bound(ix as int, ix as int, g, g);
            lemma_mul_bound(ix as int, iy as int, g, g);
            lemma_mul_bound(iy as int, iy as int, g, g);
            lemma_mul_bound(ix as int, it as int, g, 2 * g);
            lemma_mul_bound(iy as int, it as int, g, 2 * g);
            lemma_mul_bound(it as int, it as int, 2 * g, 2 * g);
            assert(clamp_index(i as int, img1.height as int) == i);
            assert(clamp_index(j as int, img1.width as int) == j);
            assert(ix == diff_x(img1.samples@, img1.width as int, img1.height as int, img1.channels as int, i as int, j as int, ch as int) + diff_x(warped.samples@, img1.width as int, img1.height as int, img1.channels as int, i as int, j as int, ch as int));
            assert(iy == diff_y(img1.samples@, img1.width as int, img1.height as int, img1.channels as int, i as int, j as int, ch as int) + diff_y(warped.samples@, img1.width as int, img1.height as int, img1.channels as int, i as int, j as int, ch as int));
            assert(it == 4 * (warped.px(i as int, j as int, ch as int) - img1.px(i as int, j as int, ch as int)));
            assert(ix * ix >= 0 && iy * iy >= 0 && it * it >= 0) by (nonlinear_arith);
            if img1.samples@ == warped.samples@ {
                assert(it == 0);
                assert(ix * it == 0 && iy * it == 0) by (nonlinear_arith)
                    requires
                        it == 0,
                ;
            }
        }
        a11 = a11 + ix * ix;
        a12 = a12 + ix * iy;
        a22 = a22 + iy * iy;
        b1 = b1 + ix * it;
        b2 = b2 + iy * it;
        c2 = c2 + it * it;
        ch += 1;
    }
    (a11, a12, a22, b1, b2, c2)
}

/// Coefficient `which` (as in `data_product`) of the pixel stored at position `k`.
pub open spec fn data_coef(s1: Seq<i32>, s2: Seq<i32>, w: int, h: int, c: int, k: int, which: int) -> int {
    data_sum(s1, s2, w, h, c, k / w, k % w, c as nat, which)
}

/// The data term between the grids `s1` and `s2` of `w x h` pixels and `c` channels.
pub open spec fn data_coefs(s1: Seq<i32>, s2: Seq<i32>, w: int, h: int, c: int) -> Coefs {
    (
        Seq::new((h * w) as nat, |k: int| data_coef(s1, s2, w, h, c, k, 5) as i64),
        Seq::new((h * w) as nat, |k: int| data_coef(s1, s2, w, h, c, k, 0) as i64),
        Seq::new((h * w) as nat, |k: int| data_coef(s1, s2, w, h, c, k, 1) as i64),
        Seq::new((h * w) as nat, |k: int| data_coef(s1, s2, w, h, c, k, 2) as i64),
        Seq::new((h * w) as nat, |k: int| data_coef(s1, s2, w, h, c, k, 3) as i64),
        Seq::new((h * w) as nat, |k: int| data_coef(s1, s2, w, h, c, k, 4) as i64),
    )
}

/// All six coefficient arrays hold `data_coef` at each of their first positions.
pub open spec fn data_exact(r: DataTerm, s1: Seq<i32>, s2: Seq<i32>, w: int, h: int, c: int) -> bool {
    &&& forall|k: int| 0 <= k < r.a11@.len() ==> #[trigger] r.a11@[k] == data_coef(s1, s2, w, h, c, k, 0)
    &&& forall|k: int| 0 <= k < r.a12@.len() ==> #[trigger] r.a12@[k] == data_coef(s1, s2, w, h, c, k, 1)
    &&& forall|k: int| 0 <= k < r.a22@.len() ==> #[trigger] r.a22@[k] == data_coef(s1, s2, w, h, c, k, 2)
    &&& forall|k: int| 0 <= k < r.b1@.len() ==> #[trigger] r.b1@[k] == data_coef(s1, s2, w, h, c, k, 3)
    &&& forall|k: int| 0 <= k < r.b2@.len() ==> #[trigger] r.b2@[k] == data_coef(s1, s2, w, h, c, k, 4)
    &&& forall|k: int| 0 <= k < r.c@.len() ==> #[trigger] r.c@[k] == data_coef(s1, s2, w, h, c, k, 5)
}

/// Builds the linearised data term between `img1` and the warped second image.
pub fn data_term(img1: &ImageBuf, warped: &ImageBuf) -> (r: DataTerm)
    requires
        img1.wf(),
        warped.wf(),
        warped.same_shape(img1),
    ensures
        r.wf(img1.height * img1.width),
        r.coefs() == data_coefs(img1.samples@, warped.samples@, img1.width as int, img1.height as int, img1.channels as int),
        img1.samples@ == warped.samples@ ==> r.rhs_zero(),
{
    let w = img1.width;
    let h = img1.height;
    let mut r = DataTerm { c: Vec::new(), a11: Vec::new(), a12: Vec::new(), a22: Vec::new(), b1: Vec::new(), b2: Vec::new() };
    let mut i: usize = 0;
    while i < h
        invariant
            img1.wf(),
            warped.wf(),
            warped.same_shape(img1),
            w == img1.width,
            h == img1.height,
            i <= h,
            r.wf(i * w),
            data_exact(r, img1.samples@, warped.samples@, img1.width as int, img1.height as int, img1.channels as int),
            img1.samples@ == warped.samples@ ==> r.rhs_zero(),
        decreases h - i,
    {
        let mut j: usize = 0;
        while j < w
            invariant
                img1.wf(),
                warped.wf(),
                warped.same_shape(img1),
                w == img1.width,
                h == img1.height,
                i < h,
                j <= w,
                r.wf(i * w + j),
                data_exact(r, img1.samples@, warped.samples@, img1.width as int, img1.height as int, img1.channels as int),
                img1.samples@ == warped.samples@ ==> r.rhs_zero(),
            decreases w - j,
        {
            let d = data_at(img1, warped, i, j);
            proof {
                lemma_fundamental_div_mod_converse(i * w + j, w as int, i as int, j as int);
            }
            r.a11.push(d.0);
            r.a12.push(d.1);
            r.a22.push(d.2);
            r.b1.push(d.3);
            r.b2.push(d.4);
            r.c.push(d.5);
            j += 1;
        }
        proof {
            assert(i * w + w == (i + 1) * w) by (nonlinear_arith);
        }
        i += 1;
    }
    proof {
        let sp = data_coefs(img1.samples@, warped.samples@, w as int, h as int, img1.channels as int);
        assert(r.c@ =~= sp.0);
        assert(r.a11@ =~= sp.1);
        assert(r.a12@ =~= sp.2);
        assert(r.a22@ =~= sp.3);
        assert(r.b1@ =~= sp.4);
        assert(r.b2@ =~= sp.5);
    }
    r
}

/// Scales a coefficient by `w / 65536`, rounding down.
fn weigh(a: i64, w: i64) -> (r: i64)
    requires
        -COEF_LIMIT <= a <= COEF_LIMIT,
        0 <= w <= 65536,
    ensures
        r == div_floor(a * w, 65536),
        -COEF_LIMIT <= r <= COEF_LIMIT,
        a >= 0 ==> r >= 0,
        a == 0 ==> r == 0,
{
    proof {
        lemma_mul_bound(a as int, w as int, COEF_LIMIT as int, 65536);
        if a >= 0 {
            assert(a * w >= 0) by (nonlinear_arith)
                requires
                    a >= 0,
                    w >= 0,
            ;
        }
    }
    div_floor_exec((a as i128) * (w as i128), 65536) as i64
}

/// Brightness residual below which the robust weight stays near one: 0.05 of full
/// intensity, on the scale of the residual (`SUBPIXEL` times four intensity units).
/// `ROBUST_EPS_SQ` is its square.
pub const ROBUST_EPS: i128 = 3355392;

pub const ROBUST_EPS_SQ: i128 = 11258655473664;

/// Robust weight of the data term at one pixel, in `[0, 65536]` for `[0, 1]`:
/// `ROBUST_EPS / sqrt(r^2 + ROBUST_EPS^2)`, where `r^2` is the squared brightness
/// residual after the increment `(du, dv)`.
fn data_weight(c: i64, a11: i64, a12: i64, a22: i64, b1: i64, b2: i64, du: i32, dv: i32) -> (r: i64)
    requires
        -COEF_LIMIT <= c <= COEF_LIMIT,
        -COEF_LIMIT <= a11 <= COEF_LIMIT,
        -COEF_LIMIT <= a12 <= COEF_LIMIT,
        -COEF_LIMIT <= a22 <= COEF_LIMIT,
        -COEF_LIMIT <= b1 <= COEF_LIMIT,
        -COEF_LIMIT <= b2 <= COEF_LIMIT,
    ensures
        0 <= r <= 65536,
        r == robust_weight(c as int, a11 as int, a12 as int, a22 as int, b1 as int, b2 as int, du as int, dv as int),
{
    let u = du as i128;
    let v = dv as i128;
    proof {
        let l = COEF_LIMIT as int;
        let m = 0x8000_0000int;
        lemma_mul_bound(u as int, u as int, m, m);
        lemma_mul_bound(u as int, v as int, m, m);
        lemma_mul_bound(v as int, v as int, m, m);
        lemma_mul_bound(u * u, a11 as int, m * m, l);
        lemma_mul_bound(u * v, a12 as int, m * m, l);
        lemma_mul_bound(v * v, a22 as int, m * m, l);
        lemma_mul_bound(u as int, b1 as int, m, l);
        lemma_mul_bound(v as int, b2 as int, m, l);
    }
    let r2 = (c as i128) * 65536 + 512 * (u * (b1 as i128)) + 512 * (v * (b2 as i128)) + (u * u) * (
    a11 as i128) + 2 * ((u * v) * (a12 as i128)) + (v * v) * (a22 as i128);
    let r2 = if r2 < 0 {
        0
    } else {
        r2
    };
    let s = isqrt((r2 + ROBUST_EPS_SQ) as u128);
    proof {
        let x = r2 + ROBUST_EPS_SQ;
        assert(s >= ROBUST_EPS) by (nonlinear_arith)
            requires
                x < (s + 1) * (s + 1),
                x >= 3355392 * 3355392,
                s >= 0,
        ;
        assert(65536 * ROBUST_EPS / (s as int) <= 65536) by (nonlinear_arith)
            requires
                s >= 3355392,
        ;
        assert(is_isqrt(x as int, s as int));
        lemma_isqrt_unique(x as int, s as int, isqrt_spec(x as int));
    }
    (65536 * ROBUST_EPS / (s as i128)) as i64
}

/// `s` is the integer square root of `x`.
pub open spec fn is_isqrt(x: int, s: int) -> bool {
    0 <= s && s * s <= x < (s + 1) * (s + 1)
}

/// The integer square root of a non-negative `x`.
pub open spec fn isqrt_spec(x: int) -> int {
    choose|s: int| is_isqrt(x, s)
}

proof fn lemma_isqrt_unique(x: int, s1: int, s2: int)
    requires
        is_isqrt(x, s1),
        is_isqrt(x, s2),
    ensures
        s1 == s2,
{
    if s1 < s2 {
        assert((s1 + 1) * (s1 + 1) <= s2 * s2) by (nonlinear_arith)
            requires
                0 <= s1 < s2,
        ;
    } else if s2 < s1 {
        assert((s2 + 1) * (s2 + 1) <= s1 * s1) by (nonlinear_arith)
            requires
                0 <= s2 < s1,
        ;
    }
}

/// The squared brightness residual of one pixel after the increment `(du, dv)`,
/// expanded over its coefficients.
pub open spec fn residual_sq(c: int, a11: int, a12: int, a22: int, b1: int, b2: int, du: int, dv: int) -> int {
    c * 65536 + 512 * (du * b1) + 512 * (dv * b2) + (du * du) * a11 + 2 * ((du * dv) * a12) + (dv * dv)
        * a22
}

/// The robust data weight, `65536 * ROBUST_EPS / sqrt(max(r^2, 0) + ROBUST_EPS^2)`.
pub open spec fn robust_weight(c: int, a11: int, a12: int, a22: int, b1: int, b2: int, du: int, dv: int) -> int {
    let r2 = residual_sq(c, a11, a12, a22, b1, b2, du, dv);
    let r2 = if r2 < 0 {
        0
    } else {
        r2
    };
    65536 * ROBUST_EPS / isqrt_spec(r2 + ROBUST_EPS_SQ)
}

/// The robust weight of pixel `k` of `d` at the increment `(du, dv)`.
pub open spec fn weight_at(d: Coefs, du: Seq<i32>, dv: Seq<i32>, k: int) -> int {
    robust_weight(
        d.0[k] as int,
        d.1[k] as int,
        d.2[k] as int,
        d.3[k] as int,
        d.4[k] as int,
        d.5[k] as int,
        du[k] as int,
        dv[k] as int,
    )
}

/// `a * w / 65536`, rounded down.
pub open spec fn weighed(a: int, w: int) -> int {
    div_floor(a * w, 65536)
}

/// The data term `d` with each pixel's coefficients scaled by its robust weight; the
/// squared differences are kept.
pub open spec fn reweight_spec(d: Coefs, du: Seq<i32>, dv: Seq<i32>) -> Coefs {
    (
        d.0,
        Seq::new(d.1.len(), |k: int| weighed(d.1[k] as int, weight_at(d, du, dv, k)) as i64),
        Seq::new(d.2.len(), |k: int| weighed(d.2[k] as int, weight_at(d, du, dv, k)) as i64),
        Seq::new(d.3.len(), |k: int| weighed(d.3[k] as int, weight_at(d, du, dv, k)) as i64),
        Seq::new(d.4.len(), |k: int| weighed(d.4[k] as int, weight_at(d, du, dv, k)) as i64),
        Seq::new(d.5.len(), |k: int| weighed(d.5[k] as int, weight_at(d, du, dv, k)) as i64),
    )
}

/// The data term with every pixel's coefficients scaled by its robust weight at the
/// current increment `(du, dv)`.
#[verifier::spinoff_prover]
pub fn reweight(dt: &DataTerm, du: &Vec<i32>, dv: &Vec<i32>) -> (r: DataTerm)
    requires
        dt.wf(du@.len() as int),
        dv@.len() == du@.len(),
    ensures
        r.wf(du@.len() as int),
        r.coefs() == reweight_spec(dt.coefs(), du@, dv@),
        dt.rhs_zero() ==> r.rhs_zero(),
{
    let n = du.len();
    let mut r = DataTerm { c: Vec::new(), a11: Vec::new(), a12: Vec::new(), a22: Vec::new(), b1: Vec::new(), b2: Vec::new() };
    let mut k: usize = 0;
    while k < n
        invariant
            n == du@.len(),
            dv@.len() == n,
            dt.wf(n as int),
            k <= n,
            r.wf(k as int),
            forall|m: int| 0 <= m < k ==> #[trigger] r.a11@[m] == reweight_spec(dt.coefs(), du@, dv@).1[m]
                && r.a12@[m] == reweight_spec(dt.coefs(), du@, dv@).2[m] && r.a22@[m] == reweight_spec(dt.coefs(), du@, dv@).3[m]
                && r.b1@[m] == reweight_spec(dt.coefs(), du@, dv@).4[m] && r.b2@[m] == reweight_spec(dt.coefs(), du@, dv@).5[m]
                && r.c@[m] == dt.c@[m],
            dt.rhs_zero() ==> r.rhs_zero(),
        decreases n - k,
    {
        let w = data_weight(dt.c[k], dt.a11[k], dt.a12[k], dt.a22[k], dt.b1[k], dt.b2[k], du[k], dv[k]);
        r.c.push(dt.c[k]);
        r.a11.push(weigh(dt.a11[k], w));
        r.a12.push(weigh(dt.a12[k], w));
        r.a22.push(weigh(dt.a22[k], w));
        r.b1.push(weigh(dt.b1[k], w));
        r.b2.push(weigh(dt.b2[k], w));
        proof {
            let sp = reweight_spec(dt.coefs(), du@, dv@);
            assert(w == weight_at(dt.coefs(), du@, dv@, k as int));
            assert(r.a11@[k as int] == sp.1[k as int]);
            assert(r.a12@[k as int] == sp.2[k as int]);
            assert(r.a22@[k as int] == sp.3[k as int]);
            assert(r.b1@[k as int] == sp.4[k as int]);
            assert(r.b2@[k as int] == sp.5[k as int]);
        }
        k += 1;
    }
    proof {
        let sp = reweight_spec(dt.coefs(), du@, dv@);
        assert forall|m: int| 0 <= m < n implies r.c@[m] == sp.0[m] && r.a12@[m] == sp.2[m]
            && r.a22@[m] == sp.3[m] && r.b1@[m] == sp.4[m] && r.b2@[m] == sp.5[m] by {
            assert(r.a11@[m] == sp.1[m]);
        }
        assert(r.c@ =~= sp.0);
        assert(r.a11@ =~= sp.1);
        assert(r.a12@ =~= sp.2);
        assert(r.a22@ =~= sp.3);
        assert(r.b1@ =~= sp.4);
        assert(r.b2@ =~= sp.5);
    }
    r
}

/// The coefficients of a data term as sequences: `c`, `a11`, `a12`, `a22`, `b1`, `b2`.
pub type Coefs = (Seq<i64>, Seq<i64>, Seq<i64>, Seq<i64>, Seq<i64>, Seq<i64>);

impl DataTerm {
    pub open spec fn coefs(&self) -> Coefs {
        (self.c@, self.a11@, self.a12@, self.a22@, self.b1@, self.b2@)
    }
}

/// One relaxation step of a single unknown `old` towards `rhs / diag` (kept when
/// `diag` is zero), both roundings to the nearest integer, clamped to the flow range.
pub open spec fn relax_spec(rhs: int, diag: int, old: int) -> int {
    let target = if diag > 0 {
        clamp_spec(div_floor(2 * rhs + diag, 2 * diag), -FLOW_LIMIT as int, FLOW_LIMIT as int)
    } else {
        old
    };
    clamp_spec(
        old + div_floor(2 * OMEGA_NUM * (target - old) + OMEGA_DEN, 2 * OMEGA_DEN),
        -FLOW_LIMIT as int,
        FLOW_LIMIT as int,
    )
}

/// `u[q] + du[q] - u[p]` for the neighbour `q`, or zero when `q` is outside.
pub open spec fn nb_term(u: Seq<i32>, du: Seq<i32>, p: int, q: int, inside: bool) -> int {
    if inside {
        u[q] + du[q] - u[p]
    } else {
        0
    }
}

/// The sum of `u[q] + du[q] - u[p]` over the in-image 4-neighbours `q` of `p = (i, j)`.
pub open spec fn nb_sum(u: Seq<i32>, du: Seq<i32>, w: int, h: int, i: int, j: int) -> int {
    let p = i * w + j;
    nb_term(u, du, p, p - w, i > 0) + nb_term(u, du, p, p + w, i + 1 < h) + nb_term(
        u,
        du,
        p,
        p - 1,
        j > 0,
    ) + nb_term(u, du, p, p + 1, j + 1 < w)
}

/// The number of in-image 4-neighbours of `(i, j)`.
pub open spec fn nb_count(w: int, h: int, i: int, j: int) -> int {
    (if i > 0 { 1int } else { 0 }) + (if i + 1 < h { 1int } else { 0 }) + (if j > 0 { 1int } else { 0 })
        + (if j + 1 < w { 1int } else { 0 })
}

/// The increment after relaxing pixel `p`: first its horizontal, then its vertical
/// component, each from the neighbours' current values.
pub open spec fn relax_pixel(
    u: Seq<i32>,
    v: Seq<i32>,
    d: Coefs,
    alpha: int,
    du: Seq<i32>,
    dv: Seq<i32>,
    w: int,
    h: int,
    p: int,
) -> (Seq<i32>, Seq<i32>) {
    let i = p / w;
    let j = p % w;
    let n = nb_count(w, h, i, j);
    let rhs_u = alpha * nb_sum(u, du, w, h, i, j) - (d.2[p] * dv[p] + d.4[p] * 256);
    let du2 = du.update(p, relax_spec(rhs_u, d.1[p] + alpha * n, du[p] as int) as i32);
    let rhs_v = alpha * nb_sum(v, dv, w, h, i, j) - (d.2[p] * du2[p] + d.5[p] * 256);
    (du2, dv.update(p, relax_spec(rhs_v, d.3[p] + alpha * n, dv[p] as int) as i32))
}

/// The increment after relaxing the first `k` pixels in row-major order.
pub open spec fn sweep_upto(
    u: Seq<i32>,
    v: Seq<i32>,
    d: Coefs,
    alpha: int,
    du: Seq<i32>,
    dv: Seq<i32>,
    w: int,
    h: int,
    k: nat,
) -> (Seq<i32>, Seq<i32>)
    decreases k,
{
    if k == 0 {
        (du, dv)
    } else {
        let s = sweep_upto(u, v, d, alpha, du, dv, w, h, (k - 1) as nat);
        relax_pixel(u, v, d, alpha, s.0, s.1, w, h, k - 1)
    }
}

/// One full sweep over the `w x h` pixels.
pub open spec fn sweep_spec(
    u: Seq<i32>,
    v: Seq<i32>,
    d: Coefs,
    alpha: int,
    du: Seq<i32>,
    dv: Seq<i32>,
    w: int,
    h: int,
) -> (Seq<i32>, Seq<i32>) {
    sweep_upto(u, v, d, alpha, du, dv, w, h, (h * w) as nat)
}

/// For pixel `(i, j)`: the sum over its in-image 4-neighbours `q` of
/// `u[q] + du[q] - u[i, j]`, and the number of such neighbours.
#[verifier::spinoff_prover]
#[verifier::rlimit(100)]
fn neighbour_term(u: &Vec<i32>, du: &Vec<i32>, w: usize, h: usize, i: usize, j: usize) -> (r: (
    i64,
    i64,
))
    requires
        u@.len() == h * w,
        du@.len() == h * w,
        i < h,
        j < w,
    ensures
        -0x8_0000_0000 <= r.0 <= 0x8_0000_0000,
        0 <= r.1 <= 4,
        r.0 == nb_sum(u@, du@, w as int, h as int, i as int, j as int),
        r.1 == nb_count(w as int, h as int, i as int, j as int),
        all_zero(u@) && all_zero(du@) ==> r.0 == 0,
{
    proof {
        lemma_index2(i as int, j as int, w as int, h as int);
    }
    let len = u.len();
    proof {
        assert(i * w + w <= h * w) by (nonlinear_arith)
            requires
                i < h,
        ;
    }
    let k = i * w + j;
    let up = u[k] as i64;
    let mut sum: i64 = 0;
    let mut n: i64 = 0;
    if i > 0 {
        proof {
            lemma_index2(i - 1, j as int, w as int, h as int);
            assert((i - 1) * w == i * w - w) by (nonlinear_arith);
        }
        let q = k - w;
        sum = sum + u[q] as i64 + du[q] as i64 - up;
        n = n + 1;
    }
    if i + 1 < h {
        proof {
            lemma_index2(i + 1, j as int, w as int, h as int);
            assert((i + 1) * w == i * w + w) by (nonlinear_arith);
        }
        let q = k + w;
        sum = sum + u[q] as i64 + du[q] as i64 - up;
        n = n + 1;
    }
    if j > 0 {
        let q = k - 1;
        sum = sum + u[q] as i64 + du[q] as i64 - up;
        n = n + 1;
    }
    if j + 1 < w {
        let q = k + 1;
        sum = sum + u[q] as i64 + du[q] as i64 - up;
        n = n + 1;
    }
    (sum, n)
}

/// One over-relaxation step of a single unknown towards `rhs / diag`, rounding to the
/// nearest integer so that no drift builds up over many sweeps.
fn relax(rhs: i128, diag: i128, old: i32) -> (r: i32)
    requires
        -0x400_0000_0000_0000_0000_0000_0000 <= rhs <= 0x400_0000_0000_0000_0000_0000_0000,
        0 <= diag <= 0x200_0000_0000_0000_0000_0000_0000,
    ensures
        -FLOW_LIMIT <= r <= FLOW_LIMIT,
        r == relax_spec(rhs as int, diag as int, old as int),
        rhs == 0 && old == 0 ==> r == 0,
{
    let target: i64 = if diag > 0 {
        let q = div_floor_exec(2 * rhs + diag, 2 * diag);
        proof {
            if rhs == 0 {
                assert((diag as int) / (2 * diag as int) == 0) by (nonlinear_arith)
                    requires
                        diag > 0,
                ;
            }
        }
        clamp_exec(q, -1073741824, 1073741824)
    } else {
        old as i64
    };
    let step = div_floor_exec(2 * OMEGA_NUM * (target as i128 - old as i128) + OMEGA_DEN, 2 * OMEGA_DEN);
    clamp_exec(old as i128 + step, -1073741824, 1073741824) as i32
}

/// A scaled smoothness weight (see `scaled_alpha`) in the range that the sweep's
/// arithmetic allows.
pub open spec fn alpha_ok(alpha: i128) -> bool {
    0 < alpha <= 0x20_0000_0000_0000_0000
}

/// One Gauss-Seidel over-relaxation sweep over every pixel, in row-major order,
/// updating the increment `(du, dv)` in place around the current `flow`.
pub fn sor_sweep(du: &mut Vec<i32>, dv: &mut Vec<i32>, flow: &Flow, dt: &DataTerm, alpha: i128)
    requires
        flow.wf(),
        old(du)@.len() == flow.height * flow.width,
        old(dv)@.len() == flow.height * flow.width,
        dt.wf(flow.height * flow.width),
        alpha_ok(alpha),
    ensures
        final(du)@.len() == old(du)@.len(),
        final(dv)@.len() == old(dv)@.len(),
        (final(du)@, final(dv)@) == sweep_spec(
            flow.vx@,
            flow.vy@,
            dt.coefs(),
            alpha as int,
            old(du)@,
            old(dv)@,
            flow.width as int,
            flow.height as int,
        ),
        flow.is_zero() && dt.rhs_zero() && all_zero(old(du)@) && all_zero(old(dv)@) ==> all_zero(
            final(du)@,
        ) && all_zero(final(dv)@),
{
    let w = flow.width;
    let h = flow.height;
    let len = du.len();
    let ghost du0 = du@;
    let ghost dv0 = dv@;
    let ghost zero = flow.is_zero() && dt.rhs_zero() && all_zero(du@) && all_zero(dv@);
    let mut i: usize = 0;
    while i < h
        invariant
            flow.wf(),
            w == flow.width,
            h == flow.height,
            i <= h,
            len == h * w,
            du@.len() == h * w,
            dv@.len() == h * w,
            dt.wf(h * w),
            alpha_ok(alpha),
            zero ==> flow.is_zero() && dt.rhs_zero() && all_zero(du@) && all_zero(dv@),
            (du@, dv@) == sweep_upto(flow.vx@, flow.vy@, dt.coefs(), alpha as int, du0, dv0, w as int, h as int, (i * w) as nat),
        decreases h - i,
    {
        let mut j: usize = 0;
        while j < w
            invariant
                flow.wf(),
                w == flow.width,
                h == flow.height,
                i < h,
                j <= w,
                len == h * w,
                du@.len() == h * w,
                dv@.len() == h * w,
                dt.wf(h * w),
                alpha_ok(alpha),
                zero ==> flow.is_zero() && dt.rhs_zero() && all_zero(du@) && all_zero(dv@),
                (du@, dv@) == sweep_upto(flow.vx@, flow.vy@, dt.coefs(), alpha as int, du0, dv0, w as int, h as int, (i * w + j) as nat),
            decreases w - j,
        {
            proof {
                lemma_index2(i as int, j as int, w as int, h as int);
            }
            let k = i * w + j;
            let ghost before = (du@, dv@);
            proof {
                lemma_fundamental_div_mod_converse(k as int, w as int, i as int, j as int);
            }
            let (su, n) = neighbour_term(&flow.vx, du, w, h, i, j);
            proof {
                lemma_mul_bound(alpha as int, su as int, 0x20_0000_0000_0000_0000, 0x8_0000_0000);
                lemma_mul_bound(dt.a12@[k as int] as int, dv@[k as int] as int, COEF_LIMIT as int, 0x8000_0000);
                lemma_mul_bound(alpha as int, n as int, 0x20_0000_0000_0000_0000, 4);
                if zero {
                    assert(alpha * su == 0 && dt.a12@[k as int] * dv@[k as int] == 0) by (nonlinear_arith)
                        requires
                            su == 0,
                            dv@[k as int] == 0,
                    ;
                }
            }
            let rhs_u = alpha * (su as i128) - ((dt.a12[k] as i128) * (dv[k] as i128) + (dt.b1[k] as i128) * 256);
            let diag_u = dt.a11[k] as i128 + alpha * (n as i128);
            let nu = relax(rhs_u, diag_u, du[k]);
            du.set(k, nu);
            let (sv, m) = neighbour_term(&flow.vy, dv, w, h, i, j);
            proof {
                lemma_mul_bound(alpha as int, sv as int, 0x20_0000_0000_0000_0000, 0x8_0000_0000);
                lemma_mul_bound(dt.a12@[k as int] as int, du@[k as int] as int, COEF_LIMIT as int, 0x8000_0000);
                lemma_mul_bound(alpha as int, m as int, 0x20_0000_0000_0000_0000, 4);
                if zero {
                    assert(all_zero(du@));
                    assert(alpha * sv == 0 && dt.a12@[k as int] * du@[k as int] == 0) by (nonlinear_arith)
                        requires
                            sv == 0,
                            du@[k as int] == 0,
                    ;
                }
            }
            let rhs_v = alpha * (sv as i128) - ((dt.a12[k] as i128) * (du[k] as i128) + (dt.b2[k] as i128) * 256);
            let diag_v = dt.a22[k] as i128 + alpha * (m as i128);
            let nv = relax(rhs_v, diag_v, dv[k]);
            dv.set(k, nv);
            proof {
                if zero {
                    assert(all_zero(dv@));
                }
                let sp = relax_pixel(flow.vx@, flow.vy@, dt.coefs(), alpha as int, before.0, before.1, w as int, h as int, k as int);
                assert(du@ =~= sp.0);
                assert(dv@ =~= sp.1);
            }
            j += 1;
        }
        proof {
            assert(i * w + w == (i + 1) * w) by (nonlinear_arith);
        }
        i += 1;
    }
}

/// The smoothness weight on the fixed-point scale of the data term:
/// `alpha * 16 * MAX_INTENSITY^2`, rounded down.
pub open spec fn scaled_alpha(alpha: Fraction) -> int {
    (alpha.num as int) * 68717379600 / (alpha.den as int)
}

pub fn scaled_alpha_exec(alpha: Fraction) -> (r: i128)
    requires
        alpha.is_positive(),
    ensures
        r == scaled_alpha(alpha),
        alpha_ok(r),
{
    proof {
        let x = (alpha.num as int) * 68717379600;
        let d = alpha.den as int;
        assert(d <= x <= 0x20_0000_0000_0000_0000) by (nonlinear_arith)
            requires
                1 <= alpha.num <= 0xffff_ffff,
                1 <= d <= 0xffff_ffff,
                x == (alpha.num as int) * 68717379600,
        ;
        assert(1 <= x / d <= x) by (nonlinear_arith)
            requires
                d <= x,
                d >= 1,
        ;
    }
    (alpha.num as i128) * 68717379600 / (alpha.den as i128)
}

/// `n` relaxation sweeps, starting from the increment `(du, dv)`.
pub open spec fn sor_repeat(
    u: Seq<i32>,
    v: Seq<i32>,
    d: Coefs,
    alpha: int,
    du: Seq<i32>,
    dv: Seq<i32>,
    w: int,
    h: int,
    n: nat,
) -> (Seq<i32>, Seq<i32>)
    decreases n,
{
    if n == 0 {
        (du, dv)
    } else {
        let s = sor_repeat(u, v, d, alpha, du, dv, w, h, (n - 1) as nat);
        sweep_spec(u, v, d, alpha, s.0, s.1, w, h)
    }
}

/// The increment after `ni` inner rounds from zero, each re-deriving the robust
/// weights from the increment so far and then running `ns` sweeps.
pub open spec fn inner_spec(u: Seq<i32>, v: Seq<i32>, d: Coefs, alpha: int, w: int, h: int, ni: nat, ns: nat) -> (
    Seq<i32>,
    Seq<i32>,
)
    decreases ni,
{
    if ni == 0 {
        (zeros_seq(h * w), zeros_seq(h * w))
    } else {
        let s = inner_spec(u, v, d, alpha, w, h, (ni - 1) as nat, ns);
        sor_repeat(u, v, reweight_spec(d, s.0, s.1), alpha, s.0, s.1, w, h, ns)
    }
}

/// One outer round on the grids `a`, `b`: warp `b` by the flow `(u, v)`, linearise,
/// relax the increment and add it to the flow.
pub open spec fn outer_step(
    a: Seq<i32>,
    b: Seq<i32>,
    w: int,
    h: int,
    c: int,
    u: Seq<i32>,
    v: Seq<i32>,
    alpha: int,
    ni: nat,
    ns: nat,
) -> (Seq<i32>, Seq<i32>) {
    let d = data_coefs(a, warp_seq(b, w, h, c, u, v), w, h, c);
    let s = inner_spec(u, v, d, alpha, w, h, ni, ns);
    (add_seq(u, s.0), add_seq(v, s.1))
}

/// `n` outer rounds from the flow `(u, v)`.
pub open spec fn outer_spec(
    a: Seq<i32>,
    b: Seq<i32>,
    w: int,
    h: int,
    c: int,
    u: Seq<i32>,
    v: Seq<i32>,
    alpha: int,
    ni: nat,
    ns: nat,
    n: nat,
) -> (Seq<i32>, Seq<i32>)
    decreases n,
{
    if n == 0 {
        (u, v)
    } else {
        let s = outer_spec(a, b, w, h, c, u, v, alpha, ni, ns, (n - 1) as nat);
        outer_step(a, b, w, h, c, s.0, s.1, alpha, ni, ns)
    }
}

/// The samples the solver compares: the luminance in `Luminance` mode for a colour
/// image, the image itself otherwise.
pub open spec fn prepared(img: ImageBuf, mode: ColorMode) -> Seq<i32> {
    if mode == ColorMode::Luminance && img.channels == 3 {
        luma_seq(img.samples@, img.height * img.width)
    } else {
        img.samples@
    }
}

pub open spec fn prepared_channels(img: ImageBuf, mode: ColorMode) -> int {
    if mode == ColorMode::Luminance {
        1
    } else {
        img.channels as int
    }
}

/// The flow that one pyramid level yields from the initial flow `(u, v)`.
pub open spec fn level_spec(img1: ImageBuf, img2: ImageBuf, u: Seq<i32>, v: Seq<i32>, alpha: int, params: SolverParams) -> (
    Seq<i32>,
    Seq<i32>,
) {
    outer_spec(
        prepared(img1, params.color),
        prepared(img2, params.color),
        img1.width as int,
        img1.height as int,
        prepared_channels(img1, params.color),
        u,
        v,
        alpha,
        params.inner_iters as nat,
        params.sor_iters as nat,
        params.outer_iters as nat,
    )
}

/// Refines `init` at one pyramid level. `outer_iters` times: warps `img2` by the
/// current flow and linearises the data term around it; then `inner_iters` times
/// re-derives the robust data weights from the current increment and runs `sor_iters`
/// relaxation sweeps; finally adds the increment to the flow.
pub fn solve_level(img1: &ImageBuf, img2: &ImageBuf, init: Flow, alpha: i128, params: &SolverParams) -> (r:
    Flow)
    requires
        img1.wf(),
        img2.wf(),
        img2.same_shape(img1),
        init.wf(),
        init.width == img1.width,
        init.height == img1.height,
        alpha_ok(alpha),
        params.valid(),
    ensures
        r.wf(),
        r.width == img1.width,
        r.height == img1.height,
        (r.vx@, r.vy@) == level_spec(*img1, *img2, init.vx@, init.vy@, alpha as int, *params),
        img1.samples@ == img2.samples@ && init.is_zero() ==> r.is_zero(),
{
    let (a, b) = if params.color == ColorMode::Luminance {
        (img1.to_luminance(), img2.to_luminance())
    } else {
        (img1.copy(), img2.copy())
    };
    let ghost sa = prepared(*img1, params.color);
    let ghost sb = prepared(*img2, params.color);
    let ghost w = img1.width as int;
    let ghost h = img1.height as int;
    let ghost c = prepared_channels(*img1, params.color);
    let ghost ni = params.inner_iters as nat;
    let ghost ns = params.sor_iters as nat;
    assert(a.samples@ == sa && b.samples@ == sb && a.channels == c);
    let n = init.vx.len();
    let ghost u0 = init.vx@;
    let ghost v0 = init.vy@;
    let mut flow = init;
    let ghost zero = img1.samples@ == img2.samples@ && flow.is_zero();
    let mut outer: i32 = 0;
    while outer < params.outer_iters
        invariant
            a.wf(),
            b.wf(),
            b.same_shape(&a),
            a.width == img1.width,
            a.height == img1.height,
            a.samples@ == sa,
            b.samples@ == sb,
            a.channels == c,
            w == img1.width,
            h == img1.height,
            ni == params.inner_iters as nat,
            ns == params.sor_iters as nat,
            params.valid(),
            0 <= outer <= params.outer_iters,
            flow.wf(),
            flow.width == img1.width,
            flow.height == img1.height,
            n == flow.height * flow.width,
            alpha_ok(alpha),
            (flow.vx@, flow.vy@) == outer_spec(sa, sb, w, h, c, u0, v0, alpha as int, ni, ns, outer as nat),
            zero ==> a.samples@ == b.samples@ && flow.is_zero(),
        decreases params.outer_iters - outer,
    {
        let warped = warp(&b, &flow);
        let dt = data_term(&a, &warped);
        let ghost d = data_coefs(sa, warp_seq(sb, w, h, c, flow.vx@, flow.vy@), w, h, c);
        assert(dt.coefs() == d);
        let mut du: Vec<i32> = Vec::new();
        let mut dv: Vec<i32> = Vec::new();
        let mut k: usize = 0;
        while k < n
            invariant
                k <= n,
                du@ == zeros_seq(k as int),
                dv@ == zeros_seq(k as int),
            decreases n - k,
        {
            du.push(0);
            dv.push(0);
            k += 1;
            assert(du@ =~= zeros_seq(k as int));
            assert(dv@ =~= zeros_seq(k as int));
        }
        let mut inner: i32 = 0;
        while inner < params.inner_iters
            invariant
                flow.wf(),
                w == flow.width,
                h == flow.height,
                n == flow.height * flow.width,
                ns == params.sor_iters as nat,
                params.valid(),
                0 <= inner <= params.inner_iters,
                du@.len() == flow.height * flow.width,
                dv@.len() == flow.height * flow.width,
                dt.wf(flow.height * flow.width),
                dt.coefs() == d,
                alpha_ok(alpha),
                (du@, dv@) == inner_spec(flow.vx@, flow.vy@, d, alpha as int, w, h, inner as nat, ns),
                zero ==> flow.is_zero() && dt.rhs_zero() && all_zero(du@) && all_zero(dv@),
            decreases params.inner_iters - inner,
        {
            let ghost du_s = du@;
            let ghost dv_s = dv@;
            let wdt = reweight(&dt, &du, &dv);
            let mut sweep: i32 = 0;
            while sweep < params.sor_iters
                invariant
                    flow.wf(),
                    w == flow.width,
                    h == flow.height,
                    params.valid(),
                    0 <= sweep <= params.sor_iters,
                    du@.len() == flow.height * flow.width,
                    dv@.len() == flow.height * flow.width,
                    wdt.wf(flow.height * flow.width),
                    wdt.coefs() == reweight_spec(d, du_s, dv_s),
                    alpha_ok(alpha),
                    (du@, dv@) == sor_repeat(flow.vx@, flow.vy@, wdt.coefs(), alpha as int, du_s, dv_s, w, h, sweep as nat),
                    zero ==> flow.is_zero() && wdt.rhs_zero() && all_zero(du@) && all_zero(dv@),
                decreases params.sor_iters - sweep,
            {
                sor_sweep(&mut du, &mut dv, &flow, &wdt, alpha);
                sweep += 1;
            }
            inner += 1;
        }
        let ghost prev = (flow.vx@, flow.vy@);
        flow = flow.add_increment(&du, &dv);
        outer += 1;
        assert((flow.vx@, flow.vy@) == outer_step(sa, sb, w, h, c, prev.0, prev.1, alpha as int, ni, ns));
    }
    flow
}

/// Two pyramids with the same number of levels and the same size at every level.
pub open spec fn pyramids_match(p1: Seq<ImageBuf>, p2: Seq<ImageBuf>) -> bool {
    &&& p1.len() >= 1
    &&& p1.len() == p2.len()
    &&& forall|k: int| 0 <= k < p1.len() ==> (#[trigger] p2[k]).same_shape(&p1[k])
}

pub open spec fn levels_wf(p: Seq<ImageBuf>) -> bool {
    forall|k: int| 0 <= k < p.len() ==> (#[trigger] p[k]).wf()
}

/// Two pyramids holding the same samples at every level.
pub open spec fn same_samples(p1: Seq<ImageBuf>, p2: Seq<ImageBuf>) -> bool {
    forall|k: int| 0 <= k < p1.len() ==> (#[trigger] p1[k]).samples@ == p2[k].samples@
}

/// The flow that the coarse-to-fine walk yields at level `idx` of the pyramids: zero
/// at the coarsest level, otherwise the result of the level above upsampled and
/// scaled by `1 / ratio`, refined by `level_spec`.
pub open spec fn c2f_from(p1: Seq<ImageBuf>, p2: Seq<ImageBuf>, params: SolverParams, alpha: int, idx: int) -> (
    Seq<i32>,
    Seq<i32>,
)
    decreases p1.len() - idx,
{
    if idx + 1 >= p1.len() {
        let z = zeros_seq(p1[idx].height * p1[idx].width);
        level_spec(p1[idx], p2[idx], z, z, alpha, params)
    } else {
        let s = c2f_from(p1, p2, params, alpha, idx + 1);
        let above = p1[idx + 1];
        let l = p1[idx];
        level_spec(
            l,
            p2[idx],
            upsample_seq(s.0, above.width as int, above.height as int, l.width as int, l.height as int, params.ratio),
            upsample_seq(s.1, above.width as int, above.height as int, l.width as int, l.height as int, params.ratio),
            alpha,
            params,
        )
    }
}

/// Estimates the flow from the first to the second image, coarse to fine: starts from
/// zero at the last (coarsest) level, solves each level and carries the result to the
/// next finer one, scaled by `1 / ratio`.
pub fn estimate(p1: &Vec<ImageBuf>, p2: &Vec<ImageBuf>, params: &SolverParams) -> (r: Result<
    Flow,
    FlowError,
>)
    requires
        levels_wf(p1@),
        levels_wf(p2@),
    ensures
        !params.valid() ==> r == Err::<Flow, FlowError>(FlowError::InvalidParameters),
        params.valid() ==> (r is Ok <==> pyramids_match(p1@, p2@)),
        params.valid() && !pyramids_match(p1@, p2@) ==> r == Err::<Flow, FlowError>(
            FlowError::DimensionMismatch,
        ),
        r matches Ok(f) ==> f.wf() && f.width == p1@[0].width && f.height == p1@[0].height && (
        same_samples(p1@, p2@) ==> f.is_zero()) && (f.vx@, f.vy@) == c2f_from(
            p1@,
            p2@,
            *params,
            scaled_alpha(params.alpha),
            0,
        ),
{
    if let Err(e) = params.validate() {
        return Err(e);
    }
    if p1.len() == 0 || p1.len() != p2.len() {
        return Err(FlowError::DimensionMismatch);
    }
    let mut k: usize = 0;
    while k < p1.len()
        invariant
            params.valid(),
            k <= p1@.len(),
            p1@.len() == p2@.len(),
            forall|m: int| 0 <= m < k ==> (#[trigger] p2@[m]).same_shape(&p1@[m]),
        decreases p1@.len() - k,
    {
        if p1[k].width != p2[k].width || p1[k].height != p2[k].height || p1[k].channels
            != p2[k].channels {
            return Err(FlowError::DimensionMismatch);
        }
        k += 1;
    }
    let alpha = scaled_alpha_exec(params.alpha);
    let mut idx: usize = p1.len() - 1;
    let len0 = p1[idx].samples.len();
    proof {
        let l = p1@[idx as int];
        assert(l.height * l.width <= l.height * l.width * l.channels) by (nonlinear_arith)
            requires
                l.channels >= 1,
                l.height * l.width >= 0,
        ;
    }
    let mut flow = Flow::zero(p1[idx].width, p1[idx].height);
    loop
        invariant
            levels_wf(p1@),
            levels_wf(p2@),
            pyramids_match(p1@, p2@),
            params.valid(),
            alpha_ok(alpha),
            idx < p1@.len(),
            flow.wf(),
            flow.width == p1@[idx as int].width,
            flow.height == p1@[idx as int].height,
            same_samples(p1@, p2@) ==> flow.is_zero(),
            alpha == scaled_alpha(params.alpha),
            idx + 1 >= p1@.len() ==> flow.vx@ == zeros_seq(flow.height * flow.width) && flow.vy@
                == zeros_seq(flow.height * flow.width),
            idx + 1 < p1@.len() ==> {
                let s = c2f_from(p1@, p2@, *params, alpha as int, idx + 1);
                let above = p1@[idx + 1];
                flow.vx@ == upsample_seq(s.0, above.width as int, above.height as int, flow.width as int, flow.height as int, params.ratio)
                && flow.vy@ == upsample_seq(s.1, above.width as int, above.height as int, flow.width as int, flow.height as int, params.ratio)
            },
        decreases idx,
    {
        flow = solve_level(&p1[idx], &p2[idx], flow, alpha, params);
        assert((flow.vx@, flow.vy@) == c2f_from(p1@, p2@, *params, alpha as int, idx as int));
        if idx == 0 {
            return Ok(flow);
        }
        idx = idx - 1;
        let len = p1[idx].samples.len();
        proof {
            let l = p1@[idx as int];
            assert(l.height * l.width <= l.height * l.width * l.channels) by (nonlinear_arith)
                requires
                    l.channels >= 1,
                    l.height * l.width >= 0,
            ;
        }
        flow = flow.upsample(p1[idx].width, p1[idx].height, params.ratio);
    }
}

/// What `estimate_images` returns for `img1`, `img2` and `params`.
pub open spec fn images_result(img1: ImageBuf, img2: ImageBuf, params: SolverParams, r: Result<Flow, FlowError>) -> bool {
    &&& !params.valid() ==> r == Err::<Flow, FlowError>(FlowError::InvalidParameters)
    &&& params.valid() && !img2.same_shape(&img1) ==> r == Err::<Flow, FlowError>(
        FlowError::InvalidDimensions,
    )
    &&& params.valid() && img2.same_shape(&img1) ==> r is Ok
    &&& r matches Ok(f) ==> f.wf() && f.width == img1.width && f.height == img1.height && (
        img1.samples@ == img2.samples@ ==> f.is_zero()) && exists|l1: Seq<ImageBuf>, l2: Seq<ImageBuf>|
        is_pyramid(img1, l1, params.ratio, params.min_width as int) && is_pyramid(
            img2,
            l2,
            params.ratio,
            params.min_width as int,
        ) && #[trigger] c2f_from(l1, l2, params, scaled_alpha(params.alpha), 0) == (f.vx@, f.vy@)
}

/// Estimates the flow from `img1` to `img2`: checks the parameters, then the sizes,
/// builds the two pyramids and runs `estimate` on them.
pub fn estimate_images(img1: &ImageBuf, img2: &ImageBuf, params: &SolverParams) -> (r: Result<
    Flow,
    FlowError,
>)
    requires
        img1.wf(),
        img2.wf(),
    ensures
        images_result(*img1, *img2, *params, r),
{
    if let Err(e) = params.validate() {
        return Err(e);
    }
    if img1.width != img2.width || img1.height != img2.height || img1.channels != img2.channels {
        return Err(FlowError::InvalidDimensions);
    }
    let p1 = match build_pyramid(img1, params.ratio, params.min_width) {
        Ok(p) => p,
        Err(e) => return Err(e),
    };
    let p2 = match build_pyramid(img2, params.ratio, params.min_width) {
        Ok(p) => p,
        Err(e) => return Err(e),
    };
    proof {
        assert forall|k: int| 0 <= k < p1@.len() implies (#[trigger] p2@[k]).same_shape(&p1@[k])
            && (img1.samples@ == img2.samples@ ==> p1@[k].samples@ == p2@[k].samples@) by {
            lemma_pyramids_agree(p1@, p2@, params.ratio, k);
        }
    }
    let r = estimate(&p1, &p2, params);
    proof {
        if r is Ok {
            let f = r->Ok_0;
            assert(c2f_from(p1@, p2@, *params, scaled_alpha(params.alpha), 0) == (f.vx@, f.vy@));
        }
    }
    r
}

/// Dense optical flow from `img1` to `img2`, compared channel by channel. The
/// parameters are checked before anything else; two images of different sizes give
/// `InvalidDimensions`.
pub fn coarse2fine_flow(
    img1: &ImageBuf,
    img2: &ImageBuf,
    alpha: Fraction,
    ratio: Fraction,
    min_width: i32,
    num_outer_fp_iters: i32,
    num_inner_fp_iters: i32,
    num_sor_iters: i32,
) -> (r: Result<Flow, FlowError>)
    requires
        img1.wf(),
        img2.wf(),
    ensures
        images_result(
            *img1,
            *img2,
            SolverParams {
                alpha,
                ratio,
                min_width,
                outer_iters: num_outer_fp_iters,
                inner_iters: num_inner_fp_iters,
                sor_iters: num_sor_iters,
                color: ColorMode::PerChannel,
            },
            r,
        ),
{
    let params = SolverParams {
        alpha,
        ratio,
        min_width,
        outer_iters: num_outer_fp_iters,
        inner_iters: num_inner_fp_iters,
        sor_iters: num_sor_iters,
        color: ColorMode::PerChannel,
    };
    estimate_images(img1, img2, &params)
}

} // verus!
