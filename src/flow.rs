use vstd::prelude::*;
use crate::arith::{clamp_exec, clamp_spec, div_floor, div_floor_exec, lemma_mul_bound};
use crate::interp::{
    bicubic, bicubic_total, clamp_index, grid_get, grid_ok, index_channel, index_col, index_row,
    lemma_grid_index, lemma_grid_position, plane_at, row_total,
};
use crate::params::Fraction;
use crate::raster::{resize_grid, resize_value, src_pos, MAX_SIDE};

verus! {

/// A displacement per pixel, in units of `1 / SUBPIXEL` pixel, row-major.
pub struct Flow {
    pub height: usize,
    pub width: usize,
    pub vx: Vec<i32>,
    pub vy: Vec<i32>,
}

impl Flow {
    pub open spec fn wf(&self) -> bool {
        &&& 1 <= self.width <= MAX_SIDE
        &&& 1 <= self.height <= MAX_SIDE
        &&& self.vx@.len() == self.height * self.width
        &&& self.vy@.len() == self.height * self.width
    }

    /// Every displacement is zero.
    pub open spec fn is_zero(&self) -> bool {
        &&& forall|k: int| 0 <= k < self.vx@.len() ==> #[trigger] self.vx@[k] == 0
        &&& forall|k: int| 0 <= k < self.vy@.len() ==> #[trigger] self.vy@[k] == 0
    }

    /// Horizontal displacement of pixel `(i, j)`.
    pub open spec fn dx(&self, i: int, j: int) -> int {
        plane_at(self.vx@, self.width as int, 1, 0, i, j)
    }

    /// Vertical displacement of pixel `(i, j)`.
    pub open spec fn dy(&self, i: int, j: int) -> int {
        plane_at(self.vy@, self.width as int, 1, 0, i, j)
    }

    /// The displacement `(dx, dy)` of pixel `(i, j)`.
    pub fn displacement(&self, i: usize, j: usize) -> (r: (i32, i32))
        requires
            self.wf(),
            i < self.height,
            j < self.width,
        ensures
            r.0 == self.dx(i as int, j as int),
            r.1 == self.dy(i as int, j as int),
    {
        (self.vx_at(i, j), self.vy_at(i, j))
    }

    pub fn vx_at(&self, i: usize, j: usize) -> (r: i32)
        requires
            self.wf(),
            i < self.height,
            j < self.width,
        ensures
            r == self.dx(i as int, j as int),
    {
        proof {
            assert(self.height * self.width * 1 == self.height * self.width);
        }
        grid_get(&self.vx, self.width, self.height, 1, 0, i, j)
    }

    pub fn vy_at(&self, i: usize, j: usize) -> (r: i32)
        requires
            self.wf(),
            i < self.height,
            j < self.width,
        ensures
            r == self.dy(i as int, j as int),
    {
        proof {
            assert(self.height * self.width * 1 == self.height * self.width);
        }
        grid_get(&self.vy, self.width, self.height, 1, 0, i, j)
    }
}

/// Largest magnitude of a stored displacement.
pub const FLOW_LIMIT: i32 = 1073741824;

fn zeros(n: usize) -> (r: Vec<i32>)
    ensures
        r@.len() == n,
        forall|k: int| 0 <= k < n ==> #[trigger] r@[k] == 0,
{
    let mut v: Vec<i32> = Vec::new();
    let mut k: usize = 0;
    while k < n
        invariant
            k <= n,
            v@.len() == k,
            forall|m: int| 0 <= m < k ==> #[trigger] v@[m] == 0,
        decreases n - k,
    {
        v.push(0);
        k += 1;
    }
    v
}

/// `u + du` at every position, clamped to `[-FLOW_LIMIT, FLOW_LIMIT]`.
fn add_clamped(u: &Vec<i32>, du: &Vec<i32>) -> (r: Vec<i32>)
    requires
        u@.len() == du@.len(),
    ensures
        r@.len() == u@.len(),
        forall|k: int|
            0 <= k < u@.len() ==> #[trigger] r@[k] == clamp_spec(
                u@[k] + du@[k],
                -FLOW_LIMIT as int,
                FLOW_LIMIT as int,
            ),
{
    let mut v: Vec<i32> = Vec::new();
    let mut k: usize = 0;
    while k < u.len()
        invariant
            u@.len() == du@.len(),
            k <= u@.len(),
            v@.len() == k,
            forall|m: int|
                0 <= m < k ==> #[trigger] v@[m] == clamp_spec(
                    u@[m] + du@[m],
                    -FLOW_LIMIT as int,
                    FLOW_LIMIT as int,
                ),
        decreases u@.len() - k,
    {
        v.push(clamp_exec(u[k] as i128 + du[k] as i128, -1073741824, 1073741824) as i32);
        k += 1;
    }
    v
}

/// A displacement resampled from the coarser level and scaled by `1 / ratio`.
pub open spec fn upsampled(s: Seq<i32>, w: int, h: int, w2: int, h2: int, ratio: Fraction, i: int, j: int) -> int {
    clamp_spec(
        div_floor(
            resize_value(s, w, h, 1, w2, h2, -FLOW_LIMIT as int, FLOW_LIMIT as int, i, j, 0) * (ratio.den as int),
            ratio.num as int,
        ),
        -FLOW_LIMIT as int,
        FLOW_LIMIT as int,
    )
}

proof fn lemma_row_total_zero(s: Seq<i32>, w: int, h: int, i: int, x0: int, tx: int)
    requires
        grid_ok(s, w, h, 1),
        0 <= i < h,
        forall|k: int| 0 <= k < s.len() ==> #[trigger] s[k] == 0,
    ensures
        row_total(s, w, 1, 0, i, x0, tx) == 0,
{
    lemma_grid_index(i, clamp_index(x0 - 1, w), 0, w, h, 1);
    lemma_grid_index(i, clamp_index(x0, w), 0, w, h, 1);
    lemma_grid_index(i, clamp_index(x0 + 1, w), 0, w, h, 1);
    lemma_grid_index(i, clamp_index(x0 + 2, w), 0, w, h, 1);
    assert(plane_at(s, w, 1, 0, i, clamp_index(x0 - 1, w)) == 0);
    assert(plane_at(s, w, 1, 0, i, clamp_index(x0, w)) == 0);
    assert(plane_at(s, w, 1, 0, i, clamp_index(x0 + 1, w)) == 0);
    assert(plane_at(s, w, 1, 0, i, clamp_index(x0 + 2, w)) == 0);
}

/// Interpolating an all-zero grid gives zero everywhere.
proof fn lemma_bicubic_zero(s: Seq<i32>, w: int, h: int, yf: int, xf: int)
    requires
        grid_ok(s, w, h, 1),
        forall|k: int| 0 <= k < s.len() ==> #[trigger] s[k] == 0,
    ensures
        bicubic(s, w, h, 1, 0, yf, xf) == 0,
{
    let y0 = div_floor(yf, 256);
    let x0 = div_floor(xf, 256);
    let tx = xf - 256 * x0;
    lemma_row_total_zero(s, w, h, clamp_index(y0 - 1, h), x0, tx);
    lemma_row_total_zero(s, w, h, clamp_index(y0, h), x0, tx);
    lemma_row_total_zero(s, w, h, clamp_index(y0 + 1, h), x0, tx);
    lemma_row_total_zero(s, w, h, clamp_index(y0 + 2, h), x0, tx);
    assert(bicubic_total(s, w, h, 1, 0, yf, xf) == 0);
}

proof fn lemma_resized_zero(s: Seq<i32>, w: int, h: int, out: Seq<i32>, w2: int, h2: int)
    requires
        grid_ok(s, w, h, 1),
        grid_ok(out, w2, h2, 1),
        forall|k: int| 0 <= k < s.len() ==> #[trigger] s[k] == 0,
        forall|i: int, j: int|
            0 <= i < h2 && 0 <= j < w2 ==> #[trigger] plane_at(out, w2, 1, 0, i, j) == resize_value(
                s,
                w,
                h,
                1,
                w2,
                h2,
                -FLOW_LIMIT as int,
                FLOW_LIMIT as int,
                i,
                j,
                0,
            ),
    ensures
        forall|k: int| 0 <= k < out.len() ==> #[trigger] out[k] == 0,
{
    assert forall|k: int| 0 <= k < out.len() implies #[trigger] out[k] == 0 by {
        lemma_grid_position(w2, h2, 1, k);
        let i = index_row(w2, 1, k);
        let j = index_col(w2, 1, k);
        assert(index_channel(1, k) == 0);
        assert(plane_at(out, w2, 1, 0, i, j) == out[k]);
        lemma_bicubic_zero(s, w, h, src_pos(i, h, h2), src_pos(j, w, w2));
    }
}

/// `n` zeros.
pub open spec fn zeros_seq(n: int) -> Seq<i32> {
    Seq::new(n as nat, |k: int| 0i32)
}

/// `u + du` at every position, clamped to `[-FLOW_LIMIT, FLOW_LIMIT]`.
pub open spec fn add_seq(u: Seq<i32>, du: Seq<i32>) -> Seq<i32> {
    Seq::new(u.len(), |k: int| clamp_spec(u[k] + du[k], -FLOW_LIMIT as int, FLOW_LIMIT as int) as i32)
}

/// The displacement grid `s` of `w x h` upsampled to `w2 x h2` and scaled by `1 / ratio`.
pub open spec fn upsample_seq(s: Seq<i32>, w: int, h: int, w2: int, h2: int, ratio: Fraction) -> Seq<i32> {
    Seq::new((h2 * w2) as nat, |k: int| upsampled(s, w, h, w2, h2, ratio, k / w2, k % w2) as i32)
}

impl Flow {
    /// The flow field of `width x height` pixels with every displacement zero.
    pub fn zero(width: usize, height: usize) -> (r: Flow)
        requires
            1 <= width <= MAX_SIDE,
            1 <= height <= MAX_SIDE,
            height * width <= usize::MAX,
        ensures
            r.wf(),
            r.width == width,
            r.height == height,
            r.is_zero(),
            r.vx@ == zeros_seq(height * width),
            r.vy@ == zeros_seq(height * width),
    {
        let r = Flow { height, width, vx: zeros(height * width), vy: zeros(height * width) };
        assert(r.vx@ =~= zeros_seq(height * width));
        assert(r.vy@ =~= zeros_seq(height * width));
        r
    }

    /// Adds the increment `(du, dv)` to every displacement, clamping each to
    /// `[-FLOW_LIMIT, FLOW_LIMIT]`.
    pub fn add_increment(&self, du: &Vec<i32>, dv: &Vec<i32>) -> (r: Flow)
        requires
            self.wf(),
            du@.len() == self.height * self.width,
            dv@.len() == self.height * self.width,
        ensures
            r.wf(),
            r.width == self.width,
            r.height == self.height,
            forall|k: int|
                0 <= k < self.vx@.len() ==> #[trigger] r.vx@[k] == clamp_spec(
                    self.vx@[k] + du@[k],
                    -FLOW_LIMIT as int,
                    FLOW_LIMIT as int,
                ) && r.vy@[k] == clamp_spec(self.vy@[k] + dv@[k], -FLOW_LIMIT as int, FLOW_LIMIT as int),
            r.vx@ == add_seq(self.vx@, du@),
            r.vy@ == add_seq(self.vy@, dv@),
            self.is_zero() && (forall|k: int| 0 <= k < du@.len() ==> #[trigger] du@[k] == 0) && (forall|
                k: int,
            | 0 <= k < dv@.len() ==> #[trigger] dv@[k] == 0) ==> r.is_zero(),
    {
        let vx = add_clamped(&self.vx, du);
        let vy = add_clamped(&self.vy, dv);
        assert(vx@ =~= add_seq(self.vx@, du@));
        assert(vy@ =~= add_seq(self.vy@, dv@));
        Flow { height: self.height, width: self.width, vx, vy }
    }

    /// Resamples the field to `new_width x new_height` by bicubic interpolation and
    /// scales every displacement by `1 / ratio`.
    #[verifier::spinoff_prover]
    pub fn upsample(&self, new_width: usize, new_height: usize, ratio: Fraction) -> (r: Flow)
        requires
            self.wf(),
            ratio.is_proper(),
            1 <= new_width <= MAX_SIDE,
            1 <= new_height <= MAX_SIDE,
            new_height * new_width <= usize::MAX,
        ensures
            r.wf(),
            r.width == new_width,
            r.height == new_height,
            forall|i: int, j: int|
                0 <= i < new_height && 0 <= j < new_width ==> #[trigger] r.dx(i, j) == upsampled(
                    self.vx@,
                    self.width as int,
                    self.height as int,
                    new_width as int,
                    new_height as int,
                    ratio,
                    i,
                    j,
                ) && r.dy(i, j) == upsampled(
                    self.vy@,
                    self.width as int,
                    self.height as int,
                    new_width as int,
                    new_height as int,
                    ratio,
                    i,
                    j,
                ),
            self.is_zero() ==> r.is_zero(),
            r.vx@ == upsample_seq(self.vx@, self.width as int, self.height as int, new_width as int, new_height as int, ratio),
            r.vy@ == upsample_seq(self.vy@, self.width as int, self.height as int, new_width as int, new_height as int, ratio),
    {
        let rx = resize_grid(&self.vx, self.width, self.height, 1, new_width, new_height, -1073741824, 1073741824);
        let ry = resize_grid(&self.vy, self.width, self.height, 1, new_width, new_height, -1073741824, 1073741824);
        let vx = scale_grid(&rx, ratio);
        let vy = scale_grid(&ry, ratio);
        let r = Flow { height: new_height, width: new_width, vx, vy };
        proof {
            assert forall|i: int, j: int|
                0 <= i < new_height && 0 <= j < new_width implies #[trigger] r.dx(i, j) == upsampled(
                    self.vx@,
                    self.width as int,
                    self.height as int,
                    new_width as int,
                    new_height as int,
                    ratio,
                    i,
                    j,
                ) && r.dy(i, j) == upsampled(
                    self.vy@,
                    self.width as int,
                    self.height as int,
                    new_width as int,
                    new_height as int,
                    ratio,
                    i,
                    j,
                ) by {
                lemma_grid_index(i, j, 0, new_width as int, new_height as int, 1);
                let k = (i * new_width + j) * 1 + 0;
                assert(r.dx(i, j) == vx@[k]);
                assert(r.dy(i, j) == vy@[k]);
                assert(plane_at(rx@, new_width as int, 1, 0, i, j) == rx@[k]);
                assert(plane_at(ry@, new_width as int, 1, 0, i, j) == ry@[k]);
            }
            assert forall|k: int| 0 <= k < new_height * new_width implies #[trigger] r.vx@[k]
                == upsample_seq(self.vx@, self.width as int, self.height as int, new_width as int, new_height as int, ratio)[k]
                && r.vy@[k] == upsample_seq(self.vy@, self.width as int, self.height as int, new_width as int, new_height as int, ratio)[k] by {
                lemma_grid_position(new_width as int, new_height as int, 1, k);
                let i = index_row(new_width as int, 1, k);
                let j = index_col(new_width as int, 1, k);
                assert(k / 1 == k);
                assert(r.dx(i, j) == r.vx@[k]);
                assert(r.dy(i, j) == r.vy@[k]);
            }
            assert(r.vx@ =~= upsample_seq(self.vx@, self.width as int, self.height as int, new_width as int, new_height as int, ratio));
            assert forall|k: int| 0 <= k < new_height * new_width implies #[trigger] r.vy@[k]
                == upsample_seq(self.vy@, self.width as int, self.height as int, new_width as int, new_height as int, ratio)[k] by {
                assert(r.vx@[k] == upsample_seq(self.vx@, self.width as int, self.height as int, new_width as int, new_height as int, ratio)[k]);
            }
            assert(r.vy@ =~= upsample_seq(self.vy@, self.width as int, self.height as int, new_width as int, new_height as int, ratio));
            if self.is_zero() {
                lemma_resized_zero(self.vx@, self.width as int, self.height as int, rx@, new_width as int, new_height as int);
                lemma_resized_zero(self.vy@, self.width as int, self.height as int, ry@, new_width as int, new_height as int);
            }
        }
        r
    }
}

/// Multiplies every value by `ratio.den / ratio.num`, rounding down, clamped to
/// `[-FLOW_LIMIT, FLOW_LIMIT]`.
fn scale_grid(s: &Vec<i32>, ratio: Fraction) -> (r: Vec<i32>)
    requires
        ratio.is_proper(),
    ensures
        r@.len() == s@.len(),
        forall|k: int|
            0 <= k < s@.len() ==> #[trigger] r@[k] == clamp_spec(
                div_floor(s@[k] * (ratio.den as int), ratio.num as int),
                -FLOW_LIMIT as int,
                FLOW_LIMIT as int,
            ),
        (forall|k: int| 0 <= k < s@.len() ==> #[trigger] s@[k] == 0) ==> forall|k: int|
            0 <= k < r@.len() ==> #[trigger] r@[k] == 0,
{
    let mut v: Vec<i32> = Vec::new();
    let mut k: usize = 0;
    while k < s.len()
        invariant
            ratio.is_proper(),
            k <= s@.len(),
            v@.len() == k,
            forall|m: int|
                0 <= m < k ==> #[trigger] v@[m] == clamp_spec(
                    div_floor(s@[m] * (ratio.den as int), ratio.num as int),
                    -FLOW_LIMIT as int,
                    FLOW_LIMIT as int,
                ),
        decreases s@.len() - k,
    {
        proof {
            lemma_mul_bound(s@[k as int] as int, ratio.den as int, 0x8000_0000, 0x1_0000_0000);
        }
        let q = div_floor_exec((s[k] as i128) * (ratio.den as i128), ratio.num as i128);
        v.push(clamp_exec(q, -1073741824, 1073741824) as i32);
        k += 1;
    }
    proof {
        if forall|k: int| 0 <= k < s@.len() ==> #[trigger] s@[k] == 0 {
            assert forall|k: int| 0 <= k < v@.len() implies #[trigger] v@[k] == 0 by {
                assert(s@[k] * (ratio.den as int) == 0);
                assert(0int / (ratio.num as int) == 0) by (nonlinear_arith)
                    requires
                        ratio.num > 0,
                ;
            }
        }
    }
    v
}

} // verus!
