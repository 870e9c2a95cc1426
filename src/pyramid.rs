use vstd::prelude::*;
use crate::params::{FlowError, Fraction};
use crate::interp::{index_channel, index_col, index_row, lemma_grid_position};
use crate::raster::{resize_value, smooth, smooth_seq, ImageBuf, MAX_INTENSITY, MAX_SIDE};

verus! {

/// Length of a side after one downsampling step: `floor(n * ratio)`.
pub open spec fn next_side(n: int, ratio: Fraction) -> int {
    n * (ratio.num as int) / (ratio.den as int)
}

/// A level of `w x h` pixels is followed by another one.
pub open spec fn has_next_level(w: int, h: int, ratio: Fraction, min_width: int) -> bool {
    &&& ratio.is_proper()
    &&& next_side(w, ratio) >= min_width
    &&& next_side(h, ratio) >= min_width
    &&& next_side(w, ratio) < w
}

/// Number of levels of the pyramid over a `w x h` image; a function of the size alone.
pub open spec fn level_count(w: int, h: int, ratio: Fraction, min_width: int) -> nat
    decreases w,
{
    if w >= 1 && min_width >= 1 && has_next_level(w, h, ratio, min_width) {
        1 + level_count(next_side(w, ratio), next_side(h, ratio), ratio, min_width)
    } else {
        1
    }
}

/// `next` is `prev` smoothed, then rescaled by `ratio`.
#[verifier::opaque]
pub open spec fn is_reduction(prev: ImageBuf, next: ImageBuf, ratio: Fraction) -> bool {
    &&& next.width == next_side(prev.width as int, ratio)
    &&& next.height == next_side(prev.height as int, ratio)
    &&& next.channels == prev.channels
    &&& forall|i: int, j: int, ch: int|
        0 <= i < next.height && 0 <= j < next.width && 0 <= ch < next.channels ==> #[trigger] next.px(
            i,
            j,
            ch,
        ) == resize_value(
            smooth_seq(prev.samples@, prev.width as int, prev.height as int, prev.channels as int),
            prev.width as int,
            prev.height as int,
            prev.channels as int,
            next.width as int,
            next.height as int,
            0,
            MAX_INTENSITY as int,
            i,
            j,
            ch,
        )
}

/// A side shrinks strictly at every step, so the pyramid is finite.
pub proof fn lemma_next_side_shrinks(n: int, ratio: Fraction)
    requires
        n >= 1,
        ratio.is_proper(),
    ensures
        0 <= next_side(n, ratio) < n,
{
    assert(0 <= n * (ratio.num as int) / (ratio.den as int) < n) by (nonlinear_arith)
        requires
            n >= 1,
            0 < ratio.num < ratio.den,
    ;
}

/// Two reductions of images with the same size and samples have the same size and
/// samples.
proof fn lemma_reduction_unique(p1: ImageBuf, p2: ImageBuf, n1: ImageBuf, n2: ImageBuf, ratio: Fraction)
    requires
        p1.wf(),
        p2.wf(),
        n1.wf(),
        n2.wf(),
        p2.same_shape(&p1),
        is_reduction(p1, n1, ratio),
        is_reduction(p2, n2, ratio),
    ensures
        n2.same_shape(&n1),
        p1.samples@ == p2.samples@ ==> n1.samples@ == n2.samples@,
{
    reveal(is_reduction);
    if p1.samples@ == p2.samples@ {
        let w = n1.width as int;
        let h = n1.height as int;
        let c = n1.channels as int;
        assert forall|k: int| 0 <= k < n1.samples@.len() implies #[trigger] n1.samples@[k]
            == n2.samples@[k] by {
            lemma_grid_position(w, h, c, k);
            let i = index_row(w, c, k);
            let j = index_col(w, c, k);
            let ch = index_channel(c, k);
            assert(n1.px(i, j, ch) == n2.px(i, j, ch));
        }
        assert(n1.samples@ =~= n2.samples@);
    }
}

/// Pyramids built over two images of the same size have the same number of levels and
/// the same size at every level; over two equal images they are equal.
pub proof fn lemma_pyramids_agree(l1: Seq<ImageBuf>, l2: Seq<ImageBuf>, ratio: Fraction, k: int)
    requires
        l1.len() == l2.len(),
        0 <= k < l1.len(),
        l2[0].same_shape(&l1[0]),
        forall|m: int| 0 <= m < l1.len() ==> (#[trigger] l1[m]).wf(),
        forall|m: int| 0 <= m < l2.len() ==> (#[trigger] l2[m]).wf(),
        forall|m: int| 1 <= m < l1.len() ==> is_reduction(l1[m - 1], #[trigger] l1[m], ratio),
        forall|m: int| 1 <= m < l2.len() ==> is_reduction(l2[m - 1], #[trigger] l2[m], ratio),
    ensures
        l2[k].same_shape(&l1[k]),
        l1[0].samples@ == l2[0].samples@ ==> l1[k].samples@ == l2[k].samples@,
    decreases k,
{
    if k > 0 {
        lemma_pyramids_agree(l1, l2, ratio, k - 1);
        lemma_reduction_unique(l1[k - 1], l2[k - 1], l1[k], l2[k], ratio);
    }
}

/// One step down the pyramid: smooths `prev`, then rescales it to `nw x nh`.
fn reduce(prev: &ImageBuf, ratio: Fraction, nw: usize, nh: usize) -> (r: ImageBuf)
    requires
        prev.wf(),
        nw == next_side(prev.width as int, ratio),
        nh == next_side(prev.height as int, ratio),
        1 <= nw <= prev.width,
        1 <= nh <= prev.height,
    ensures
        r.wf(),
        r.width == nw,
        r.height == nh,
        is_reduction(*prev, r, ratio),
{
    let n = prev.samples.len();
    proof {
        assert(nh * nw * prev.channels <= prev.height * prev.width * prev.channels) by (nonlinear_arith)
            requires
                nh <= prev.height,
                nw <= prev.width,
        ;
    }
    let smoothed = smooth(prev);
    let next = smoothed.resize(nw, nh);
    proof {
        reveal(is_reduction);
    }
    next
}

/// `levels` is the pyramid of `img`: level 0 is `img`, each further level is the
/// previous one smoothed and rescaled by `ratio`, and there are `level_count` levels.
pub open spec fn is_pyramid(img: ImageBuf, levels: Seq<ImageBuf>, ratio: Fraction, min_width: int) -> bool {
    &&& levels.len() == level_count(img.width as int, img.height as int, ratio, min_width)
    &&& levels[0].same_shape(&img)
    &&& levels[0].samples@ == img.samples@
    &&& forall|k: int| 0 <= k < levels.len() ==> (#[trigger] levels[k]).wf()
    &&& forall|k: int| 1 <= k < levels.len() ==> is_reduction(levels[k - 1], #[trigger] levels[k], ratio)
    &&& forall|k: int|
        1 <= k < levels.len() ==> (#[trigger] levels[k]).width >= min_width && levels[k].height >= min_width
}

/// In a pyramid every level past the first is at least `min_width` wide, and the
/// number of levels depends on the size of the image alone.
pub proof fn lemma_pyramid_shape(
    img1: ImageBuf,
    img2: ImageBuf,
    l1: Seq<ImageBuf>,
    l2: Seq<ImageBuf>,
    ratio: Fraction,
    min_width: int,
)
    requires
        is_pyramid(img1, l1, ratio, min_width),
        is_pyramid(img2, l2, ratio, min_width),
        img2.same_shape(&img1),
    ensures
        forall|k: int| 1 <= k < l1.len() ==> (#[trigger] l1[k]).width >= min_width,
        l1.len() == l2.len(),
{
}

/// Builds the pyramid of `img`: level 0 is `img`, each further level is the previous
/// one smoothed and rescaled by `ratio`, and construction stops before a side would
/// fall below `min_width`.
pub fn build_pyramid(img: &ImageBuf, ratio: Fraction, min_width: i32) -> (r: Result<
    Vec<ImageBuf>,
    FlowError,
>)
    requires
        img.wf(),
    ensures
        r is Ok <==> ratio.is_proper() && min_width >= 1,
        r is Err ==> r == Err::<Vec<ImageBuf>, FlowError>(FlowError::InvalidDimensions),
        r matches Ok(levels) ==> is_pyramid(*img, levels@, ratio, min_width as int),
{
    if ratio.num == 0 || ratio.num >= ratio.den || min_width < 1 {
        return Err(FlowError::InvalidDimensions);
    }
    let mut levels: Vec<ImageBuf> = Vec::new();
    levels.push(img.copy());
    let ghost total = level_count(img.width as int, img.height as int, ratio, min_width as int);
    loop
        invariant
            total == level_count(img.width as int, img.height as int, ratio, min_width as int),
            ratio.is_proper(),
            min_width >= 1,
            levels@.len() >= 1,
            levels@[0].same_shape(img),
            levels@[0].samples@ == img.samples@,
            forall|k: int| 0 <= k < levels@.len() ==> (#[trigger] levels@[k]).wf(),
            forall|k: int|
                1 <= k < levels@.len() ==> is_reduction(levels@[k - 1], #[trigger] levels@[k], ratio),
            forall|k: int|
                1 <= k < levels@.len() ==> (#[trigger] levels@[k]).width >= min_width
                    && levels@[k].height >= min_width,
            total == levels@.len() - 1 + level_count(
                levels@.last().width as int,
                levels@.last().height as int,
                ratio,
                min_width as int,
            ),
        ensures
            levels@.len() == total,
            levels@.len() >= 1,
            levels@[0].same_shape(img),
            levels@[0].samples@ == img.samples@,
            forall|k: int| 0 <= k < levels@.len() ==> (#[trigger] levels@[k]).wf(),
            forall|k: int|
                1 <= k < levels@.len() ==> is_reduction(levels@[k - 1], #[trigger] levels@[k], ratio),
            forall|k: int|
                1 <= k < levels@.len() ==> (#[trigger] levels@[k]).width >= min_width
                    && levels@[k].height >= min_width,
        decreases levels@.last().width,
    {
        let last = levels.len() - 1;
        let w = levels[last].width;
        let h = levels[last].height;
        let c = levels[last].channels;
        proof {
            lemma_next_side_shrinks(w as int, ratio);
            lemma_next_side_shrinks(h as int, ratio);
            assert(0 <= (w as u64) * (ratio.num as u64) <= 0x100_0000_0000_0000) by (nonlinear_arith)
                requires
                    w <= MAX_SIDE,
                    ratio.num <= 0xffff_ffff,
            ;
            assert(0 <= (h as u64) * (ratio.num as u64) <= 0x100_0000_0000_0000) by (nonlinear_arith)
                requires
                    h <= MAX_SIDE,
                    ratio.num <= 0xffff_ffff,
            ;
        }
        let nw = ((w as u64) * (ratio.num as u64) / (ratio.den as u64)) as usize;
        let nh = ((h as u64) * (ratio.num as u64) / (ratio.den as u64)) as usize;
        if nw < min_width as usize || nh < min_width as usize {
            assert(level_count(w as int, h as int, ratio, min_width as int) == 1);
            assert(levels@.last() == levels@[last as int]);
            assert(levels@.len() == total);
            return Ok(levels);
        }
        assert(level_count(w as int, h as int, ratio, min_width as int) == 1 + level_count(
            nw as int,
            nh as int,
            ratio,
            min_width as int,
        ));
        let next = reduce(&levels[last], ratio, nw, nh);
        let ghost prev = levels@[last as int];
        levels.push(next);
        proof {
            assert(levels@[last as int] == prev);
            assert(is_reduction(prev, next, ratio));
        }
    }
}

} // verus!
