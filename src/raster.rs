use vstd::prelude::*;
use crate::arith::{clamp_exec, clamp_spec};
use crate::grid::build_grid;
use crate::flow::Flow;
use crate::interp::{
    bicubic, bicubic_exec, grid_get, grid_index, grid_ok, index_channel, index_col, index_row,
    clamp_index, lemma_bicubic_constant, lemma_bicubic_on_grid, lemma_grid_position, lemma_grid_decode, lemma_grid_index, plane_at, SUBPIXEL,
};
use crate::params::FlowError;

verus! {

/// Full-scale intensity: a sample of `MAX_INTENSITY` stands for 1.0.
pub const MAX_INTENSITY: i32 = 65535;

/// Largest width or height of an image or a flow field: a machine limit of the
/// fixed-point arithmetic, where a sub-pixel position (`SUBPIXEL` times a side) and its
/// products with the interpolation weights must fit the 128-bit intermediates.
pub const MAX_SIDE: usize = 16777216;

/// A rectangular grid of intensity samples with one or three channels, row-major.
pub struct ImageBuf {
    pub width: usize,
    pub height: usize,
    pub channels: usize,
    pub samples: Vec<i32>,
}

pub open spec fn samples_in_range(s: Seq<i32>) -> bool {
    forall|k: int| 0 <= k < s.len() ==> 0 <= #[trigger] s[k] <= MAX_INTENSITY
}

impl ImageBuf {
    pub open spec fn wf(&self) -> bool {
        &&& grid_ok(self.samples@, self.width as int, self.height as int, self.channels as int)
        &&& self.channels == 1 || self.channels == 3
        &&& self.width <= MAX_SIDE
        &&& self.height <= MAX_SIDE
        &&& samples_in_range(self.samples@)
    }

    /// Sample `(i, j)` of channel `ch`.
    pub open spec fn px(&self, i: int, j: int, ch: int) -> int {
        plane_at(self.samples@, self.width as int, self.channels as int, ch, i, j)
    }

    pub open spec fn same_shape(&self, o: &ImageBuf) -> bool {
        self.width == o.width && self.height == o.height && self.channels == o.channels
    }

    /// Builds a three-channel image from 8-bit samples, `255` standing for 1.0.
    pub fn from_rgb8(width: usize, height: usize, bytes: &Vec<u8>) -> (r: Result<
        ImageBuf,
        FlowError,
    >)
        ensures
            r is Ok <==> (1 <= width <= MAX_SIDE && 1 <= height <= MAX_SIDE && bytes@.len()
                == height * width * 3),
            r is Err ==> r == Err::<ImageBuf, FlowError>(FlowError::InvalidDimensions),
            r matches Ok(img) ==> img.wf() && img.width == width && img.height == height
                && img.channels == 3 && forall|k: int|
                0 <= k < bytes@.len() ==> #[trigger] img.samples@[k] == bytes@[k] * 257,
    {
        if width == 0 || height == 0 || width > MAX_SIDE || height > MAX_SIDE {
            return Err(FlowError::InvalidDimensions);
        }
        proof {
            assert(height * width <= MAX_SIDE * MAX_SIDE) by (nonlinear_arith)
                requires
                    height <= MAX_SIDE,
                    width <= MAX_SIDE,
            ;
        }
        if (bytes.len() / 3) as u64 != (height as u64) * (width as u64) || bytes.len() % 3 != 0 {
            return Err(FlowError::InvalidDimensions);
        }
        let mut samples: Vec<i32> = Vec::new();
        let mut k: usize = 0;
        while k < bytes.len()
            invariant
                k <= bytes@.len(),
                samples@.len() == k,
                forall|m: int| 0 <= m < k ==> #[trigger] samples@[m] == bytes@[m] * 257,
            decreases bytes@.len() - k,
        {
            samples.push(bytes[k] as i32 * 257);
            k += 1;
        }
        Ok(ImageBuf { width, height, channels: 3, samples })
    }

    /// An exact copy of the image.
    pub fn copy(&self) -> (r: ImageBuf)
        ensures
            r.same_shape(self),
            r.samples@ == self.samples@,
    {
        let mut samples: Vec<i32> = Vec::new();
        let mut k: usize = 0;
        while k < self.samples.len()
            invariant
                k <= self.samples@.len(),
                samples@ == self.samples@.subrange(0, k as int),
            decreases self.samples@.len() - k,
        {
            samples.push(self.samples[k]);
            k += 1;
            assert(samples@ =~= self.samples@.subrange(0, k as int));
        }
        assert(samples@ =~= self.samples@);
        ImageBuf { width: self.width, height: self.height, channels: self.channels, samples }
    }

    /// Sample `(i, j)` of channel `ch`, with out-of-range positions clamped to the border.
    pub fn sample_clamped(&self, i: i64, j: i64, ch: usize) -> (r: i32)
        requires
            self.wf(),
            ch < self.channels,
        ensures
            r == self.px(
                clamp_index(i as int, self.height as int),
                clamp_index(j as int, self.width as int),
                ch as int,
            ),
            0 <= r <= MAX_INTENSITY,
    {
        let ii: usize = if i < 0 {
            0
        } else if i as u64 >= self.height as u64 {
            self.height - 1
        } else {
            i as usize
        };
        let jj: usize = if j < 0 {
            0
        } else if j as u64 >= self.width as u64 {
            self.width - 1
        } else {
            j as usize
        };
        proof {
            lemma_grid_index(
                ii as int,
                jj as int,
                ch as int,
                self.width as int,
                self.height as int,
                self.channels as int,
            );
        }
        grid_get(&self.samples, self.width, self.height, self.channels, ch, ii, jj)
    }

    /// Reads sample `(i, j)` of channel `ch`.
    pub fn pixel(&self, i: usize, j: usize, ch: usize) -> (r: i32)
        requires
            self.wf(),
            i < self.height,
            j < self.width,
            ch < self.channels,
        ensures
            r == self.px(i as int, j as int, ch as int),
    {
        grid_get(&self.samples, self.width, self.height, self.channels, ch, i, j)
    }
}

/// Sample `(i, j, ch)` of `img` warped by `flow`: the bicubic value at
/// `(i + vy, j + vx)`, clamped to the intensity range.
pub open spec fn warp_value(img: &ImageBuf, flow: &Flow, i: int, j: int, ch: int) -> int {
    clamp_spec(
        bicubic(
            img.samples@,
            img.width as int,
            img.height as int,
            img.channels as int,
            ch,
            i * SUBPIXEL + flow.dy(i, j),
            j * SUBPIXEL + flow.dx(i, j),
        ),
        0,
        MAX_INTENSITY as int,
    )
}

/// Sample `(i, j, ch)` of the grid `s` warped by the displacement grids `vx`, `vy`.
pub open spec fn warp_px(s: Seq<i32>, w: int, h: int, c: int, vx: Seq<i32>, vy: Seq<i32>, i: int, j: int, ch: int) -> int {
    clamp_spec(
        bicubic(s, w, h, c, ch, i * SUBPIXEL + plane_at(vy, w, 1, 0, i, j), j * SUBPIXEL + plane_at(vx, w, 1, 0, i, j)),
        0,
        MAX_INTENSITY as int,
    )
}

/// The samples of the grid `s` warped by `vx`, `vy`.
pub open spec fn warp_seq(s: Seq<i32>, w: int, h: int, c: int, vx: Seq<i32>, vy: Seq<i32>) -> Seq<i32> {
    Seq::new(
        (h * w * c) as nat,
        |k: int| warp_px(s, w, h, c, vx, vy, index_row(w, c, k), index_col(w, c, k), index_channel(c, k)) as i32,
    )
}

/// Warping a grid of in-range samples by an all-zero flow gives the grid back.
pub proof fn lemma_warp_zero_is_identity(s: Seq<i32>, w: int, h: int, c: int)
    requires
        grid_ok(s, w, h, c),
        samples_in_range(s),
    ensures
        warp_seq(s, w, h, c, Seq::new((h * w) as nat, |k: int| 0i32), Seq::new((h * w) as nat, |k: int| 0i32))
            == s,
{
    let z = Seq::new((h * w) as nat, |k: int| 0i32);
    assert forall|k: int| 0 <= k < s.len() implies #[trigger] warp_seq(s, w, h, c, z, z)[k] == s[k] by {
        lemma_grid_position(w, h, c, k);
        let i = index_row(w, c, k);
        let j = index_col(w, c, k);
        let ch = index_channel(c, k);
        lemma_grid_index(i, j, 0, w, h, 1);
        assert(plane_at(z, w, 1, 0, i, j) == 0);
        lemma_bicubic_on_grid(s, w, h, c, ch, i, j);
    }
    assert(warp_seq(s, w, h, c, z, z) =~= s);
}

/// Resamples `img` at every pixel displaced by `flow`; positions outside the image read
/// the nearest border sample.
pub fn warp(img: &ImageBuf, flow: &Flow) -> (r: ImageBuf)
    requires
        img.wf(),
        flow.wf(),
        flow.width == img.width,
        flow.height == img.height,
    ensures
        r.wf(),
        r.same_shape(img),
        forall|i: int, j: int, ch: int|
            0 <= i < img.height && 0 <= j < img.width && 0 <= ch < img.channels ==> #[trigger] r.px(
                i,
                j,
                ch,
            ) == warp_value(img, flow, i, j, ch),
        flow.is_zero() ==> r.samples@ == img.samples@,
        r.samples@ == warp_seq(
            img.samples@,
            img.width as int,
            img.height as int,
            img.channels as int,
            flow.vx@,
            flow.vy@,
        ),
{
    let w = img.width;
    let h = img.height;
    let c = img.channels;
    let mut out: Vec<i32> = Vec::new();
    let mut i: usize = 0;
    assert(grid_index(w as int, c as int, 0, 0, 0) == 0) by (nonlinear_arith);
    while i < h
        invariant
            img.wf(),
            flow.wf(),
            flow.width == w,
            flow.height == h,
            w == img.width,
            h == img.height,
            c == img.channels,
            i <= h,
            out@.len() == grid_index(w as int, c as int, i as int, 0, 0),
            samples_in_range(out@),
            forall|k: int|
                0 <= k < out@.len() ==> #[trigger] out@[k] == warp_value(
                    img,
                    flow,
                    index_row(w as int, c as int, k),
                    index_col(w as int, c as int, k),
                    index_channel(c as int, k),
                ),
        decreases h - i,
    {
        let mut j: usize = 0;
        while j < w
            invariant
                img.wf(),
                flow.wf(),
                flow.width == w,
                flow.height == h,
                w == img.width,
                h == img.height,
                c == img.channels,
                i < h,
                j <= w,
                out@.len() == grid_index(w as int, c as int, i as int, j as int, 0),
                samples_in_range(out@),
                forall|k: int|
                    0 <= k < out@.len() ==> #[trigger] out@[k] == warp_value(
                        img,
                        flow,
                        index_row(w as int, c as int, k),
                        index_col(w as int, c as int, k),
                        index_channel(c as int, k),
                    ),
            decreases w - j,
        {
            let dx = flow.vx_at(i, j);
            let dy = flow.vy_at(i, j);
            let mut ch: usize = 0;
            while ch < c
                invariant
                    img.wf(),
                    flow.wf(),
                    flow.width == w,
                    flow.height == h,
                    w == img.width,
                    h == img.height,
                    c == img.channels,
                    i < h,
                    j < w,
                    ch <= c,
                    dx == flow.dx(i as int, j as int),
                    dy == flow.dy(i as int, j as int),
                    out@.len() == grid_index(w as int, c as int, i as int, j as int, ch as int),
                    samples_in_range(out@),
                    forall|k: int|
                        0 <= k < out@.len() ==> #[trigger] out@[k] == warp_value(
                            img,
                            flow,
                            index_row(w as int, c as int, k),
                            index_col(w as int, c as int, k),
                            index_channel(c as int, k),
                        ),
                decreases c - ch,
            {
                proof {
                    lemma_grid_index(i as int, j as int, ch as int, w as int, h as int, c as int);
                    lemma_grid_decode(w as int, c as int, i as int, j as int, ch as int);
                }
                let v = bicubic_exec(
                    &img.samples,
                    w,
                    h,
                    c,
                    ch,
                    (i as i64) * 256 + dy as i64,
                    (j as i64) * 256 + dx as i64,
                );
                let cl = clamp_exec(v, 0, 65535);
                out.push(cl as i32);
                ch += 1;
            }
            proof {
                assert(grid_index(w as int, c as int, i as int, j as int, c as int) == grid_index(
                    w as int,
                    c as int,
                    i as int,
                    j + 1,
                    0,
                )) by (nonlinear_arith);
            }
            j += 1;
        }
        proof {
            assert(grid_index(w as int, c as int, i as int, w as int, 0) == grid_index(
                w as int,
                c as int,
                i + 1,
                0,
                0,
            )) by (nonlinear_arith);
        }
        i += 1;
    }
    let r = ImageBuf { width: w, height: h, channels: c, samples: out };
    proof {
        assert(grid_index(w as int, c as int, h as int, 0, 0) == h * w * c) by (nonlinear_arith);
        assert(out@ =~= warp_seq(img.samples@, w as int, h as int, c as int, flow.vx@, flow.vy@));
        assert forall|i: int, j: int, ch: int|
            0 <= i < h && 0 <= j < w && 0 <= ch < c implies #[trigger] r.px(i, j, ch)
            == warp_value(img, flow, i, j, ch) by {
            lemma_grid_index(i, j, ch, w as int, h as int, c as int);
            lemma_grid_decode(w as int, c as int, i, j, ch);
            assert(r.samples@[grid_index(w as int, c as int, i, j, ch)] == warp_value(img, flow, i, j, ch));
        }
        if flow.is_zero() {
            assert forall|k: int| 0 <= k < out@.len() implies #[trigger] r.samples@[k] == img.samples@[k] by {
                let i = index_row(w as int, c as int, k);
                let j = index_col(w as int, c as int, k);
                let ch = index_channel(c as int, k);
                lemma_grid_position(w as int, h as int, c as int, k);
                lemma_grid_index(i, j, ch, w as int, h as int, c as int);
                assert(flow.dx(i, j) == 0 && flow.dy(i, j) == 0) by {
                    lemma_grid_index(i, j, 0, w as int, h as int, 1);
                }
                lemma_bicubic_on_grid(img.samples@, w as int, h as int, c as int, ch, i, j);
            }
            assert(r.samples@ =~= img.samples@);
        }
    }
    r
}

/// Source coordinate, in `1 / SUBPIXEL` pixel, of output index `i` when a side of
/// `n_src` samples is rescaled to `n_dst`.
pub open spec fn src_pos(i: int, n_src: int, n_dst: int) -> int {
    i * n_src * 256 / n_dst
}

fn src_pos_exec(i: usize, n_src: usize, n_dst: usize) -> (r: i64)
    requires
        i < n_dst,
        n_src <= MAX_SIDE,
        n_dst <= MAX_SIDE,
    ensures
        r == src_pos(i as int, n_src as int, n_dst as int),
        0 <= r <= n_src * 256,
{
    proof {
        assert(0 <= i * n_src * 256 <= 0x1_0000_0000_0000_0000_0000) by (nonlinear_arith)
            requires
                i < n_dst,
                n_src <= MAX_SIDE,
                n_dst <= MAX_SIDE,
        ;
        assert(i * n_src * 256 / (n_dst as int) <= n_src * 256) by (nonlinear_arith)
            requires
                i < n_dst,
                n_src >= 0,
        ;
        assert(0 <= (i as u64) * (n_src as u64) * 256 <= 0xffff_ffff_ffff_ffff) by (nonlinear_arith)
            requires
                i < n_dst,
                n_src <= MAX_SIDE,
                n_dst <= MAX_SIDE,
        ;
    }
    (((i as u64) * (n_src as u64) * 256) / (n_dst as u64)) as i64
}

/// Sample `(i, j, ch)` of a grid rescaled from `w x h` to `w2 x h2`, clamped to `[lo, hi]`.
pub open spec fn resize_value(
    s: Seq<i32>,
    w: int,
    h: int,
    c: int,
    w2: int,
    h2: int,
    lo: int,
    hi: int,
    i: int,
    j: int,
    ch: int,
) -> int {
    clamp_spec(bicubic(s, w, h, c, ch, src_pos(i, h, h2), src_pos(j, w, w2)), lo, hi)
}

/// Rescales a grid of `w x h` pixels and `c` channels to `w2 x h2` by bicubic interpolation.
pub fn resize_grid(
    s: &Vec<i32>,
    w: usize,
    h: usize,
    c: usize,
    w2: usize,
    h2: usize,
    lo: i32,
    hi: i32,
) -> (r: Vec<i32>)
    requires
        grid_ok(s@, w as int, h as int, c as int),
        w <= MAX_SIDE,
        h <= MAX_SIDE,
        1 <= w2 <= MAX_SIDE,
        1 <= h2 <= MAX_SIDE,
        c <= 3,
        h2 * w2 * c <= usize::MAX,
        lo <= hi,
    ensures
        grid_ok(r@, w2 as int, h2 as int, c as int),
        forall|i: int, j: int, ch: int|
            0 <= i < h2 && 0 <= j < w2 && 0 <= ch < c ==> #[trigger] plane_at(
                r@,
                w2 as int,
                c as int,
                ch,
                i,
                j,
            ) == resize_value(
                s@,
                w as int,
                h as int,
                c as int,
                w2 as int,
                h2 as int,
                lo as int,
                hi as int,
                i,
                j,
                ch,
            ),
{
    let f = |i: usize, j: usize, ch: usize| -> (v: i32)
        requires
            i < h2 && j < w2 && ch < c,
        ensures
            v == resize_value(
                s@,
                w as int,
                h as int,
                c as int,
                w2 as int,
                h2 as int,
                lo as int,
                hi as int,
                i as int,
                j as int,
                ch as int,
            ),
        {
            let yf = src_pos_exec(i, h, h2);
            let xf = src_pos_exec(j, w, w2);
            let v = bicubic_exec(s, w, h, c, ch, yf, xf);
            clamp_exec(v, lo as i64, hi as i64) as i32
        };
    let out = build_grid(w2, h2, c, f);
    proof {
        assert forall|i: int, j: int, ch: int|
            0 <= i < h2 && 0 <= j < w2 && 0 <= ch < c implies #[trigger] plane_at(
                out@,
                w2 as int,
                c as int,
                ch,
                i,
                j,
            ) == resize_value(
                s@,
                w as int,
                h as int,
                c as int,
                w2 as int,
                h2 as int,
                lo as int,
                hi as int,
                i,
                j,
                ch,
            ) by {
            lemma_grid_index(i, j, ch, w2 as int, h2 as int, c as int);
            assert(f.ensures(
                (i as usize, j as usize, ch as usize),
                out@[grid_index(w2 as int, c as int, i, j, ch)],
            ));
        }
    }
    out
}

/// Five-tap binomial smoothing of row `i` around column `j`, weights 1 4 6 4 1.
pub open spec fn smooth_row(s: Seq<i32>, w: int, c: int, ch: int, i: int, j: int) -> int {
    plane_at(s, w, c, ch, i, clamp_index(j - 2, w)) + 4 * plane_at(s, w, c, ch, i, clamp_index(j - 1, w))
        + 6 * plane_at(s, w, c, ch, i, clamp_index(j, w)) + 4 * plane_at(s, w, c, ch, i, clamp_index(j + 1, w))
        + plane_at(s, w, c, ch, i, clamp_index(j + 2, w))
}

/// The separable 5 x 5 binomial (Gaussian) smoothing of sample `(i, j, ch)`, rounded.
pub open spec fn smooth_value(s: Seq<i32>, w: int, h: int, c: int, ch: int, i: int, j: int) -> int {
    (smooth_row(s, w, c, ch, clamp_index(i - 2, h), j) + 4 * smooth_row(s, w, c, ch, clamp_index(i - 1, h), j)
        + 6 * smooth_row(s, w, c, ch, clamp_index(i, h), j) + 4 * smooth_row(s, w, c, ch, clamp_index(i + 1, h), j)
        + smooth_row(s, w, c, ch, clamp_index(i + 2, h), j) + 128) / 256
}

/// The samples of a smoothed grid.
pub open spec fn smooth_seq(s: Seq<i32>, w: int, h: int, c: int) -> Seq<i32> {
    Seq::new(
        (h * w * c) as nat,
        |k: int|
            smooth_value(s, w, h, c, index_channel(c, k), index_row(w, c, k), index_col(w, c, k)) as i32,
    )
}

fn smooth_row_exec(img: &ImageBuf, i: i64, j: i64, ch: usize) -> (r: i64)
    requires
        img.wf(),
        ch < img.channels,
        -4 <= i <= MAX_SIDE + 4,
        -4 <= j <= MAX_SIDE + 4,
    ensures
        r == smooth_row(
            img.samples@,
            img.width as int,
            img.channels as int,
            ch as int,
            clamp_index(i as int, img.height as int),
            j as int,
        ),
        0 <= r <= 16 * MAX_INTENSITY,
{
    let v0 = img.sample_clamped(i, j - 2, ch) as i64;
    let v1 = img.sample_clamped(i, j - 1, ch) as i64;
    let v2 = img.sample_clamped(i, j, ch) as i64;
    let v3 = img.sample_clamped(i, j + 1, ch) as i64;
    let v4 = img.sample_clamped(i, j + 2, ch) as i64;
    v0 + 4 * v1 + 6 * v2 + 4 * v3 + v4
}

/// Smooths every channel with a 5 x 5 binomial kernel; borders repeat the edge sample.
pub fn smooth(img: &ImageBuf) -> (r: ImageBuf)
    requires
        img.wf(),
    ensures
        r.wf(),
        r.same_shape(img),
        r.samples@ == smooth_seq(img.samples@, img.width as int, img.height as int, img.channels as int),
{
    let w = img.width;
    let h = img.height;
    let c = img.channels;
    let f = |i: usize, j: usize, ch: usize| -> (v: i32)
        requires
            i < h && j < w && ch < c,
        ensures
            v == smooth_value(img.samples@, w as int, h as int, c as int, ch as int, i as int, j as int),
            0 <= v <= MAX_INTENSITY,
        {
            let ii = i as i64;
            let jj = j as i64;
            let r0 = smooth_row_exec(img, ii - 2, jj, ch);
            let r1 = smooth_row_exec(img, ii - 1, jj, ch);
            let r2 = smooth_row_exec(img, ii, jj, ch);
            let r3 = smooth_row_exec(img, ii + 1, jj, ch);
            let r4 = smooth_row_exec(img, ii + 2, jj, ch);
            ((r0 + 4 * r1 + 6 * r2 + 4 * r3 + r4 + 128) / 256) as i32
        };
    let n = img.samples.len();
    let out = build_grid(w, h, c, f);
    let r = ImageBuf { width: w, height: h, channels: c, samples: out };
    proof {
        assert forall|k: int| 0 <= k < out@.len() implies #[trigger] out@[k]
            == smooth_seq(img.samples@, w as int, h as int, c as int)[k] && 0 <= out@[k] <= MAX_INTENSITY by {
            lemma_grid_position(w as int, h as int, c as int, k);
            let i = index_row(w as int, c as int, k);
            let j = index_col(w as int, c as int, k);
            let ch = index_channel(c as int, k);
            assert(f.ensures((i as usize, j as usize, ch as usize), out@[grid_index(w as int, c as int, i, j, ch)]));
        }
        assert(out@ =~= smooth_seq(img.samples@, w as int, h as int, c as int));
    }
    r
}

/// The luminance of the three-channel samples `s` of `n` pixels, weights 0.299, 0.587
/// and 0.114, rounded.
pub open spec fn luma_seq(s: Seq<i32>, n: int) -> Seq<i32> {
    Seq::new(
        n as nat,
        |k: int| ((299 * s[3 * k] + 587 * s[3 * k + 1] + 114 * s[3 * k + 2] + 500) / 1000) as i32,
    )
}

/// `dst` is `src` rescaled to the size of `dst`.
pub open spec fn is_resize_of(src: ImageBuf, dst: ImageBuf) -> bool {
    &&& dst.channels == src.channels
    &&& forall|i: int, j: int, ch: int|
        0 <= i < dst.height && 0 <= j < dst.width && 0 <= ch < dst.channels ==> #[trigger] dst.px(
            i,
            j,
            ch,
        ) == resize_value(
            src.samples@,
            src.width as int,
            src.height as int,
            src.channels as int,
            dst.width as int,
            dst.height as int,
            0,
            MAX_INTENSITY as int,
            i,
            j,
            ch,
        )
}

proof fn lemma_resize_constant(a: ImageBuf, b: ImageBuf, v: int)
    requires
        a.wf(),
        b.wf(),
        is_resize_of(a, b),
        forall|k: int| 0 <= k < a.samples@.len() ==> #[trigger] a.samples@[k] == v,
    ensures
        forall|k: int| 0 <= k < b.samples@.len() ==> #[trigger] b.samples@[k] == v,
{
    lemma_grid_index(0, 0, 0, a.width as int, a.height as int, a.channels as int);
    assert(a.samples@[0] == v);
    assert(0 <= v <= MAX_INTENSITY);
    assert forall|k: int| 0 <= k < b.samples@.len() implies #[trigger] b.samples@[k] == v by {
        lemma_grid_position(b.width as int, b.height as int, b.channels as int, k);
        let i = index_row(b.width as int, b.channels as int, k);
        let j = index_col(b.width as int, b.channels as int, k);
        let ch = index_channel(b.channels as int, k);
        assert(b.px(i, j, ch) == b.samples@[k]);
        lemma_bicubic_constant(
            a.samples@,
            a.width as int,
            a.height as int,
            a.channels as int,
            ch,
            src_pos(i, a.height as int, b.height as int),
            src_pos(j, a.width as int, b.width as int),
            v,
        );
    }
}

/// Resizing a constant image to any size and back to its own gives it back unchanged:
/// the interpolation weights sum to one.
pub proof fn lemma_resize_round_trip_constant(a: ImageBuf, b: ImageBuf, r: ImageBuf, v: int)
    requires
        a.wf(),
        b.wf(),
        r.wf(),
        is_resize_of(a, b),
        is_resize_of(b, r),
        r.width == a.width,
        r.height == a.height,
        forall|k: int| 0 <= k < a.samples@.len() ==> #[trigger] a.samples@[k] == v,
    ensures
        r.samples@ == a.samples@,
{
    lemma_resize_constant(a, b, v);
    lemma_resize_constant(b, r, v);
    assert(r.samples@ =~= a.samples@);
}

impl ImageBuf {
    /// The image reduced to a single luminance channel; a one-channel image is copied.
    pub fn to_luminance(&self) -> (r: ImageBuf)
        requires
            self.wf(),
        ensures
            r.wf(),
            r.width == self.width,
            r.height == self.height,
            r.channels == 1,
            self.channels == 1 ==> r.samples@ == self.samples@,
            self.channels == 3 ==> r.samples@ == luma_seq(
                self.samples@,
                self.height * self.width,
            ),
    {
        if self.channels == 1 {
            return self.copy();
        }
        let len = self.samples.len();
        let n = len / 3;
        proof {
            assert(self.height * self.width * 3 == 3 * (self.height * self.width)) by (nonlinear_arith);
        }
        let mut out: Vec<i32> = Vec::new();
        let mut k: usize = 0;
        while k < n
            invariant
                self.wf(),
                self.channels == 3,
                n == self.height * self.width,
                self.samples@.len() == 3 * n,
                len == 3 * n,
                k <= n,
                out@.len() == k,
                samples_in_range(out@),
                forall|m: int|
                    0 <= m < k ==> #[trigger] out@[m] == luma_seq(self.samples@, n as int)[m],
            decreases n - k,
        {
            let r = self.samples[3 * k] as i64;
            let g = self.samples[3 * k + 1] as i64;
            let b = self.samples[3 * k + 2] as i64;
            out.push(((299 * r + 587 * g + 114 * b + 500) / 1000) as i32);
            k += 1;
        }
        proof {
            assert(out@ =~= luma_seq(self.samples@, n as int));
            assert(n * 1 == n);
        }
        ImageBuf { width: self.width, height: self.height, channels: 1, samples: out }
    }

    /// Rescales the image to `new_width x new_height` by bicubic interpolation.
    pub fn resize(&self, new_width: usize, new_height: usize) -> (r: ImageBuf)
        requires
            self.wf(),
            1 <= new_width <= MAX_SIDE,
            1 <= new_height <= MAX_SIDE,
            new_height * new_width * self.channels <= usize::MAX,
        ensures
            r.wf(),
            r.width == new_width,
            r.height == new_height,
            r.channels == self.channels,
            is_resize_of(*self, r),
            forall|i: int, j: int, ch: int|
                0 <= i < new_height && 0 <= j < new_width && 0 <= ch < self.channels ==> #[trigger] r.px(
                    i,
                    j,
                    ch,
                ) == resize_value(
                    self.samples@,
                    self.width as int,
                    self.height as int,
                    self.channels as int,
                    new_width as int,
                    new_height as int,
                    0,
                    MAX_INTENSITY as int,
                    i,
                    j,
                    ch,
                ),
    {
        let out = resize_grid(
            &self.samples,
            self.width,
            self.height,
            self.channels,
            new_width,
            new_height,
            0,
            MAX_INTENSITY,
        );
        let r = ImageBuf { width: new_width, height: new_height, channels: self.channels, samples: out };
        proof {
            assert forall|k: int| 0 <= k < out@.len() implies 0 <= #[trigger] out@[k] <= MAX_INTENSITY by {
                lemma_grid_position(new_width as int, new_height as int, self.channels as int, k);
                let i = index_row(new_width as int, self.channels as int, k);
                let j = index_col(new_width as int, self.channels as int, k);
                let ch = index_channel(self.channels as int, k);
                assert(plane_at(out@, new_width as int, self.channels as int, ch, i, j) == out@[k]);
            }
        }
        r
    }
}

} // verus!
