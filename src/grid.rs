use vstd::prelude::*;
use crate::interp::{grid_index, grid_ok, index_channel, index_col, index_row, lemma_grid_decode, lemma_grid_index};

verus! {

/// Fills a row-major grid of `h` rows, `w` columns and `c` channels with `f(i, j, ch)`.
pub fn build_grid<F: Fn(usize, usize, usize) -> i32>(w: usize, h: usize, c: usize, f: F) -> (r: Vec<i32>)
    requires
        1 <= w,
        1 <= h,
        1 <= c,
        h * w * c <= usize::MAX,
        forall|i: usize, j: usize, ch: usize|
            i < h && j < w && ch < c ==> #[trigger] f.requires((i, j, ch)),
    ensures
        grid_ok(r@, w as int, h as int, c as int),
        forall|i: usize, j: usize, ch: usize|
            i < h && j < w && ch < c ==> #[trigger] f.ensures(
                (i, j, ch),
                r@[grid_index(w as int, c as int, i as int, j as int, ch as int)],
            ),
{
    let mut out: Vec<i32> = Vec::new();
    let mut i: usize = 0;
    assert(grid_index(w as int, c as int, 0, 0, 0) == 0) by (nonlinear_arith);
    while i < h
        invariant
            1 <= w,
            1 <= c,
            h * w * c <= usize::MAX,
            i <= h,
            forall|i: usize, j: usize, ch: usize|
                i < h && j < w && ch < c ==> #[trigger] f.requires((i, j, ch)),
            out@.len() == grid_index(w as int, c as int, i as int, 0, 0),
            forall|k: int|
                0 <= k < out@.len() ==> f.ensures(
                    (
                        index_row(w as int, c as int, k) as usize,
                        index_col(w as int, c as int, k) as usize,
                        index_channel(c as int, k) as usize,
                    ),
                    #[trigger] out@[k],
                ),
        decreases h - i,
    {
        let mut j: usize = 0;
        while j < w
            invariant
                1 <= w,
                1 <= c,
                h * w * c <= usize::MAX,
                i < h,
                j <= w,
                forall|i: usize, j: usize, ch: usize|
                    i < h && j < w && ch < c ==> #[trigger] f.requires((i, j, ch)),
                out@.len() == grid_index(w as int, c as int, i as int, j as int, 0),
                forall|k: int|
                    0 <= k < out@.len() ==> f.ensures(
                        (
                            index_row(w as int, c as int, k) as usize,
                            index_col(w as int, c as int, k) as usize,
                            index_channel(c as int, k) as usize,
                        ),
                        #[trigger] out@[k],
                    ),
            decreases w - j,
        {
            let mut ch: usize = 0;
            while ch < c
                invariant
                    1 <= w,
                    1 <= c,
                    h * w * c <= usize::MAX,
                    i < h,
                    j < w,
                    ch <= c,
                    forall|i: usize, j: usize, ch: usize|
                        i < h && j < w && ch < c ==> #[trigger] f.requires((i, j, ch)),
                    out@.len() == grid_index(w as int, c as int, i as int, j as int, ch as int),
                    forall|k: int|
                        0 <= k < out@.len() ==> f.ensures(
                            (
                                index_row(w as int, c as int, k) as usize,
                                index_col(w as int, c as int, k) as usize,
                                index_channel(c as int, k) as usize,
                            ),
                            #[trigger] out@[k],
                        ),
                decreases c - ch,
            {
                proof {
                    lemma_grid_index(i as int, j as int, ch as int, w as int, h as int, c as int);
                    lemma_grid_decode(w as int, c as int, i as int, j as int, ch as int);
                }
                let v = f(i, j, ch);
                out.push(v);
                ch += 1;
            }
            proof {
                assert(grid_index(w as int, c as int, i as int, j as int, c as int) == grid_index(
                    w as int,
                    c as int,
                    i as int,
                    j + 1,
                    0,
                )) by (nonlinear_arith);
            }
            j += 1;
        }
        proof {
            assert(grid_index(w as int, c as int, i as int, w as int, 0) == grid_index(
                w as int,
                c as int,
                i + 1,
                0,
                0,
            )) by (nonlinear_arith);
        }
        i += 1;
    }
    proof {
        assert(grid_index(w as int, c as int, h as int, 0, 0) == h * w * c) by (nonlinear_arith);
        assert forall|i: usize, j: usize, ch: usize|
            i < h && j < w && ch < c implies #[trigger] f.ensures(
                (i, j, ch),
                out@[grid_index(w as int, c as int, i as int, j as int, ch as int)],
            ) by {
            lemma_grid_index(i as int, j as int, ch as int, w as int, h as int, c as int);
            lemma_grid_decode(w as int, c as int, i as int, j as int, ch as int);
            let k = grid_index(w as int, c as int, i as int, j as int, ch as int);
            assert(f.ensures(
                (
                    index_row(w as int, c as int, k) as usize,
                    index_col(w as int, c as int, k) as usize,
                    index_channel(c as int, k) as usize,
                ),
                out@[k],
            ));
        }
    }
    out
}

} // verus!
