use vstd::prelude::*;

use vstd::arithmetic::div_mod::{
    lemma_div_pos_is_pos, lemma_fundamental_div_mod_converse, lemma_mod_pos_bound,
    lemma_multiply_divide_lt,
};

use crate::gradient::{clamp_coord, edge_at, edge_map, sample, sobel};
use crate::image::{widen_i16, widen_u8};

verus! {

/// Row `y` of a `w`-wide map starts `w` samples after row `y - 1`.
pub proof fn lemma_row_step(y: int, w: int)
    ensures
        (y + 1) * w == y * w + w,
        (y - 1) * w == y * w - w,
{
    assert((y + 1) * w == y * w + w) by (nonlinear_arith);
    assert((y - 1) * w == y * w - w) by (nonlinear_arith);
}

/// A pixel inside a `w` by `h` image has a row-major index inside the map,
/// and that index names the pixel back.
pub proof fn lemma_pixel_index(x: int, y: int, w: int, h: int)
    requires
        0 <= x < w,
        0 <= y < h,
    ensures
        0 <= y * w + x < w * h,
        (y * w + x) % w == x,
        (y * w + x) / w == y,
{
    assert(0 <= y * w + x < w * h) by (nonlinear_arith)
        requires
            0 <= x < w,
            0 <= y < h,
    ;
    lemma_fundamental_div_mod_converse(y * w + x, w, y, x);
}

/// Every row-major index of a `w` by `h` map names a pixel inside it.
pub proof fn lemma_index_pixel(i: int, w: int, h: int)
    requires
        0 <= w,
        0 <= h,
        0 <= i < w * h,
    ensures
        0 < w,
        0 < h,
        0 <= i % w < w,
        0 <= i / w < h,
{
    assert(0 < w && 0 < h) by (nonlinear_arith)
        requires
            0 <= w,
            0 <= h,
            0 < w * h,
    ;
    lemma_mod_pos_bound(i, w);
    lemma_div_pos_is_pos(i, w);
    lemma_multiply_divide_lt(i, w, h);
}

/// Sobel edge map of a `width` by `height` intensity map, gathering the
/// clamped 3x3 window of every pixel directly.
pub fn detect_edges(intens: &[u8], width: usize, height: usize) -> (r: Vec<i16>)
    requires
        intens@.len() == width * height,
    ensures
        widen_i16(r@) == edge_map(widen_u8(intens@), width as int, height as int),
{
    let ghost v = widen_u8(intens@);
    let ghost e = edge_map(v, width as int, height as int);
    let len: usize = intens.len();
    let mut out: Vec<i16> = Vec::with_capacity(len);
    let mut y: usize = 0;
    let mut curr_off: usize = 0;
    while y < height
        invariant
            len == intens@.len() == width * height,
            v == widen_u8(intens@),
            e == edge_map(v, width as int, height as int),
            y <= height,
            curr_off == y * width,
            out@.len() == curr_off,
            forall|k: int| 0 <= k < out@.len() ==> out@[k] as int == e[k],
        decreases height - y,
    {
        proof {
            lemma_row_step(y as int, width as int);
            assert(curr_off + width <= len) by (nonlinear_arith)
                requires
                    curr_off == y * width,
                    y < height,
                    len == width * height,
            ;
        }
        let prev_off: usize = if y == 0 {
            curr_off
        } else {
            curr_off - width
        };
        let next_off: usize = if y + 1 == height {
            curr_off
        } else {
            curr_off + width
        };
        assert(prev_off == clamp_coord(y - 1, height as int) * width);
        assert(next_off == clamp_coord(y + 1, height as int) * width);
        assert(prev_off + width <= len && next_off + width <= len) by (nonlinear_arith)
            requires
                prev_off == clamp_coord(y - 1, height as int) * width,
                next_off == clamp_coord(y + 1, height as int) * width,
                0 <= clamp_coord(y - 1, height as int) < height,
                0 <= clamp_coord(y + 1, height as int) < height,
                len == width * height,
        ;
        let mut x: usize = 0;
        while x < width
            invariant
                len == intens@.len() == width * height,
                v == widen_u8(intens@),
                e == edge_map(v, width as int, height as int),
                y < height,
                curr_off == y * width,
                curr_off + width <= len,
                prev_off == clamp_coord(y - 1, height as int) * width,
                next_off == clamp_coord(y + 1, height as int) * width,
                prev_off + width <= len,
                next_off + width <= len,
                x <= width,
                out@.len() == curr_off + x,
                forall|k: int| 0 <= k < out@.len() ==> out@[k] as int == e[k],
            decreases width - x,
        {
            let left: usize = if x == 0 {
                0
            } else {
                x - 1
            };
            let right: usize = if x + 1 == width {
                x
            } else {
                x + 1
            };
            let value = sobel(
                intens[prev_off + left] as i16,
                intens[prev_off + x] as i16,
                intens[prev_off + right] as i16,
                intens[curr_off + left] as i16,
                intens[curr_off + right] as i16,
                intens[next_off + left] as i16,
                intens[next_off + x] as i16,
                intens[next_off + right] as i16,
            );
            proof {
                let (w, h) = (width as int, height as int);
                assert(left == clamp_coord(x - 1, w));
                assert(right == clamp_coord(x + 1, w));
                assert(x == clamp_coord(x as int, w));
                assert(curr_off == clamp_coord(y as int, h) * w);
                lemma_pixel_index(x as int, y as int, w, h);
                assert(value as int == edge_at(v, w, h, x as int, y as int));
                assert(e[curr_off + x] == edge_at(v, w, h, x as int, y as int));
            }
            out.push(value);
            x = x + 1;
        }
        y = y + 1;
        curr_off = curr_off + width;
    }
    proof {
        assert(y * width == width * height) by (nonlinear_arith)
            requires
                y == height,
        ;
        assert(widen_i16(out@) =~= e);
    }
    out
}

} // verus!
