use vstd::prelude::*;

use crate::direct::{lemma_index_pixel, lemma_pixel_index, lemma_row_step};
use crate::gradient::{clamp_coord, edge_map, grad_x_at, grad_y_at, magnitude, sample};
use crate::image::{widen_i16, Image};

verus! {

/// Vertical 3-tap convolution at `(col, row)`: `z` weighs the row above,
/// `y` the pixel itself and `x` the row below, rows clamped to the image.
pub open spec fn conv_v_at(v: Seq<int>, w: int, h: int, col: int, row: int, x: int, y: int, z: int) -> int {
    z * sample(v, w, h, col, row - 1) + y * sample(v, w, h, col, row) + x * sample(v, w, h, col, row + 1)
}

/// Horizontal 3-tap convolution at `(col, row)`: `z` weighs the left
/// neighbour, `y` the pixel itself and `x` the right neighbour, columns
/// clamped to the image.
pub open spec fn conv_h_at(v: Seq<int>, w: int, h: int, col: int, row: int, x: int, y: int, z: int) -> int {
    z * sample(v, w, h, col - 1, row) + y * sample(v, w, h, col, row) + x * sample(v, w, h, col + 1, row)
}

/// A whole `w` by `h` map convolved vertically with `(z, y, x)`.
pub open spec fn conv_vertical(v: Seq<int>, w: int, h: int, x: int, y: int, z: int) -> Seq<int> {
    Seq::new((w * h) as nat, |i: int| conv_v_at(v, w, h, i % w, i / w, x, y, z))
}

/// A whole `w` by `h` map convolved horizontally with `(z, y, x)`.
pub open spec fn conv_horizontal(v: Seq<int>, w: int, h: int, x: int, y: int, z: int) -> Seq<int> {
    Seq::new((w * h) as nat, |i: int| conv_h_at(v, w, h, i % w, i / w, x, y, z))
}

/// Horizontal gradient map of the separable formulation: smooth vertically
/// with `(1, 2, 1)`, then difference horizontally (right minus left).
pub open spec fn separable_grad_x(v: Seq<int>, w: int, h: int) -> Seq<int> {
    conv_horizontal(conv_vertical(v, w, h, 1, 2, 1), w, h, 1, 0, -1)
}

/// Vertical gradient map of the separable formulation: difference
/// vertically (below minus above), then smooth horizontally with `(1, 2, 1)`.
pub open spec fn separable_grad_y(v: Seq<int>, w: int, h: int) -> Seq<int> {
    conv_horizontal(conv_vertical(v, w, h, 1, 0, -1), w, h, 1, 2, 1)
}

/// Edge map of the separable formulation.
pub open spec fn separable_edge_map(v: Seq<int>, w: int, h: int) -> Seq<int> {
    Seq::new(
        (w * h) as nat,
        |i: int| magnitude(separable_grad_x(v, w, h)[i], separable_grad_y(v, w, h)[i]),
    )
}

/// Every sample of `s` lies in `[lo, hi]`.
pub open spec fn samples_within(s: Seq<int>, lo: int, hi: int) -> bool {
    forall|i: int| 0 <= i < s.len() ==> lo <= #[trigger] s[i] <= hi
}

/// The clamped sample of a non-empty map is one of its samples, so it
/// lies within any bounds that all of them meet.
pub proof fn lemma_sample_within(v: Seq<int>, w: int, h: int, col: int, row: int, lo: int, hi: int)
    requires
        0 < w,
        0 < h,
        v.len() == w * h,
        samples_within(v, lo, hi),
    ensures
        lo <= sample(v, w, h, col, row) <= hi,
{
    lemma_pixel_index(clamp_coord(col, w), clamp_coord(row, h), w, h);
}

/// Reading a convolved map at a clamped position is convolving at the
/// clamped position.
proof fn lemma_sample_conv_v(v: Seq<int>, w: int, h: int, col: int, row: int, x: int, y: int, z: int)
    requires
        0 < w,
        0 < h,
    ensures
        sample(conv_vertical(v, w, h, x, y, z), w, h, col, row) == conv_v_at(
            v,
            w,
            h,
            clamp_coord(col, w),
            clamp_coord(row, h),
            x,
            y,
            z,
        ),
{
    lemma_pixel_index(clamp_coord(col, w), clamp_coord(row, h), w, h);
}

/// The two 1-D passes reproduce the 3x3 Sobel responses at every pixel.
pub proof fn lemma_separable_grads(v: Seq<int>, w: int, h: int, col: int, row: int)
    requires
        0 <= col < w,
        0 <= row < h,
    ensures
        conv_h_at(conv_vertical(v, w, h, 1, 2, 1), w, h, col, row, 1, 0, -1) == grad_x_at(
            v,
            w,
            h,
            col,
            row,
        ),
        conv_h_at(conv_vertical(v, w, h, 1, 0, -1), w, h, col, row, 1, 2, 1) == grad_y_at(
            v,
            w,
            h,
            col,
            row,
        ),
{
    lemma_sample_conv_v(v, w, h, col - 1, row, 1, 2, 1);
    lemma_sample_conv_v(v, w, h, col + 1, row, 1, 2, 1);
    lemma_sample_conv_v(v, w, h, col - 1, row, 1, 0, -1);
    lemma_sample_conv_v(v, w, h, col, row, 1, 0, -1);
    lemma_sample_conv_v(v, w, h, col + 1, row, 1, 0, -1);
}

/// The separable and the direct formulation of the edge detector agree on
/// every intensity map of every shape.
pub proof fn lemma_separable_agrees_with_direct(v: Seq<int>, w: int, h: int)
    requires
        0 <= w,
        0 <= h,
        v.len() == w * h,
    ensures
        separable_edge_map(v, w, h) == edge_map(v, w, h),
{
    let s = separable_edge_map(v, w, h);
    let e = edge_map(v, w, h);
    assert forall|i: int| 0 <= i < s.len() implies s[i] == e[i] by {
        let (col, row) = (i % w, i / w);
        lemma_index_pixel(i, w, h);
        lemma_separable_grads(v, w, h, col, row);
    }
    assert(s =~= e);
}

/// Absolute value.
pub open spec fn abs_int(v: int) -> int {
    if v < 0 {
        -v
    } else {
        v
    }
}

/// The kernel `(z, y, x)` applied to any three samples of `s` cannot leave
/// `i16`: the weights' absolute sum times every sample's magnitude fits.
pub open spec fn pass_fits_i16(s: Seq<int>, x: int, y: int, z: int) -> bool {
    forall|k: int|
        0 <= k < s.len() ==> (abs_int(x) + abs_int(y) + abs_int(z)) * abs_int(#[trigger] s[k])
            <= i16::MAX
}

/// A weighted sum whose weights' absolute sum times each sample's magnitude
/// fits in `i16` fits in `i16` itself.
proof fn lemma_weighted_sum_fits(x: int, y: int, z: int, a: int, b: int, c: int)
    requires
        (abs_int(x) + abs_int(y) + abs_int(z)) * abs_int(a) <= i16::MAX,
        (abs_int(x) + abs_int(y) + abs_int(z)) * abs_int(b) <= i16::MAX,
        (abs_int(x) + abs_int(y) + abs_int(z)) * abs_int(c) <= i16::MAX,
    ensures
        i16::MIN <= z * a <= i16::MAX,
        i16::MIN <= y * b <= i16::MAX,
        i16::MIN <= x * c <= i16::MAX,
        i16::MIN <= z * a + y * b <= i16::MAX,
        i16::MIN <= z * a + y * b + x * c <= i16::MAX,
{
    let (ax, ay, az) = (abs_int(x), abs_int(y), abs_int(z));
    let (aa, ab, ac) = (abs_int(a), abs_int(b), abs_int(c));
    let m = if aa >= ab && aa >= ac {
        aa
    } else if ab >= ac {
        ab
    } else {
        ac
    };
    assert((ax + ay + az) * m <= i16::MAX);
    assert(abs_int(z * a) <= az * m) by (nonlinear_arith)
        requires
            az == abs_int(z),
            aa == abs_int(a),
            0 <= aa <= m,
    ;
    assert(abs_int(y * b) <= ay * m) by (nonlinear_arith)
        requires
            ay == abs_int(y),
            ab == abs_int(b),
            0 <= ab <= m,
    ;
    assert(abs_int(x * c) <= ax * m) by (nonlinear_arith)
        requires
            ax == abs_int(x),
            ac == abs_int(c),
            0 <= ac <= m,
    ;
    assert((ax + ay + az) * m == ax * m + ay * m + az * m) by (nonlinear_arith);
}

/// Convolves a map vertically with the 3-tap kernel `(z, y, x)`: `z`
/// weighs the row above, `y` the pixel, `x` the row below, with the first
/// and last rows replicated beyond the image.
pub fn convolve_1x3(img: &Image<i16>, x: i16, y: i16, z: i16) -> (r: Image<i16>)
    requires
        img.wf(),
        pass_fits_i16(widen_i16(img.data@), x as int, y as int, z as int),
    ensures
        r.wf(),
        r.width == img.width,
        r.height == img.height,
        widen_i16(r.data@) == conv_vertical(
            widen_i16(img.data@),
            img.width as int,
            img.height as int,
            x as int,
            y as int,
            z as int,
        ),
{
    let ghost v = widen_i16(img.data@);
    let ghost out_spec = conv_vertical(v, img.width as int, img.height as int, x as int, y as int, z as int);
    let width: usize = img.width();
    let height: usize = img.height();
    let len: usize = img.size();
    let mut out: Vec<i16> = Vec::with_capacity(len);
    let mut row: usize = 0;
    let mut curr_off: usize = 0;
    while row < height
        invariant
            img.wf(),
            width == img.width,
            height == img.height,
            len == img.data@.len() == width * height,
            v == widen_i16(img.data@),
            out_spec == conv_vertical(v, width as int, height as int, x as int, y as int, z as int),
            pass_fits_i16(v, x as int, y as int, z as int),
            row <= height,
            curr_off == row * width,
            out@.len() == curr_off,
            forall|k: int| 0 <= k < out@.len() ==> out@[k] as int == out_spec[k],
        decreases height - row,
    {
        proof {
            lemma_row_step(row as int, width as int);
            assert(curr_off + width <= len) by (nonlinear_arith)
                requires
                    curr_off == row * width,
                    row < height,
                    len == width * height,
            ;
        }
        let prev_off: usize = if row == 0 {
            curr_off
        } else {
            curr_off - width
        };
        let next_off: usize = if row + 1 == height {
            curr_off
        } else {
            curr_off + width
        };
        assert(prev_off == clamp_coord(row - 1, height as int) * width);
        assert(next_off == clamp_coord(row + 1, height as int) * width);
        assert(prev_off + width <= len && next_off + width <= len) by (nonlinear_arith)
            requires
                prev_off == clamp_coord(row - 1, height as int) * width,
                next_off == clamp_coord(row + 1, height as int) * width,
                0 <= clamp_coord(row - 1, height as int) < height,
                0 <= clamp_coord(row + 1, height as int) < height,
                len == width * height,
        ;
        let mut col: usize = 0;
        while col < width
            invariant
                img.wf(),
                width == img.width,
                height == img.height,
                len == img.data@.len() == width * height,
                v == widen_i16(img.data@),
                out_spec == conv_vertical(v, width as int, height as int, x as int, y as int, z as int),
                pass_fits_i16(v, x as int, y as int, z as int),
                row < height,
                curr_off == row * width,
                curr_off + width <= len,
                prev_off == clamp_coord(row - 1, height as int) * width,
                next_off == clamp_coord(row + 1, height as int) * width,
                prev_off + width <= len,
                next_off + width <= len,
                col <= width,
                out@.len() == curr_off + col,
                forall|k: int| 0 <= k < out@.len() ==> out@[k] as int == out_spec[k],
            decreases width - col,
        {
            let a: i16 = img.data[prev_off + col];
            let b: i16 = img.data[curr_off + col];
            let c: i16 = img.data[next_off + col];
            proof {
                assert(v[prev_off + col] == a && v[curr_off + col] == b && v[next_off + col] == c);
                lemma_weighted_sum_fits(x as int, y as int, z as int, a as int, b as int, c as int);
            }
            let value: i16 = ((z as i64) * (a as i64) + (y as i64) * (b as i64) + (x as i64) * (c as i64)) as i16;
            proof {
                let (w, h) = (width as int, height as int);
                assert(col == clamp_coord(col as int, w));
                assert(curr_off == clamp_coord(row as int, h) * w);
                lemma_pixel_index(col as int, row as int, w, h);
                assert(out_spec[curr_off + col] == conv_v_at(v, w, h, col as int, row as int, x as int, y as int, z as int));
            }
            out.push(value);
            col = col + 1;
        }
        row = row + 1;
        curr_off = curr_off + width;
    }
    proof {
        assert(row * width == width * height) by (nonlinear_arith)
            requires
                row == height,
        ;
        assert(widen_i16(out@) =~= out_spec);
    }
    Image { data: out, width: img.width, height: img.height }
}

/// Convolves a map horizontally with the 3-tap kernel `(z, y, x)`: `z`
/// weighs the left neighbour, `y` the pixel, `x` the right neighbour, with
/// the first and last columns replicated beyond the image. Each row is
/// swept once with a sliding window, so every sample is read once.
pub fn convolve_3x1(img: &Image<i16>, x: i16, y: i16, z: i16) -> (r: Image<i16>)
    requires
        img.wf(),
        pass_fits_i16(widen_i16(img.data@), x as int, y as int, z as int),
    ensures
        r.wf(),
        r.width == img.width,
        r.height == img.height,
        widen_i16(r.data@) == conv_horizontal(
            widen_i16(img.data@),
            img.width as int,
            img.height as int,
            x as int,
            y as int,
            z as int,
        ),
{
    let ghost v = widen_i16(img.data@);
    let ghost out_spec = conv_horizontal(v, img.width as int, img.height as int, x as int, y as int, z as int);
    let width: usize = img.width();
    let height: usize = img.height();
    let len: usize = img.size();
    let mut out: Vec<i16> = Vec::with_capacity(len);
    let mut row: usize = 0;
    let mut offset: usize = 0;
    while row < height
        invariant
            img.wf(),
            width == img.width,
            height == img.height,
            len == img.data@.len() == width * height,
            v == widen_i16(img.data@),
            out_spec == conv_horizontal(v, width as int, height as int, x as int, y as int, z as int),
            pass_fits_i16(v, x as int, y as int, z as int),
            row <= height,
            offset == row * width,
            out@.len() == offset,
            forall|k: int| 0 <= k < out@.len() ==> out@[k] as int == out_spec[k],
        decreases height - row,
    {
        proof {
            lemma_row_step(row as int, width as int);
            assert(offset + width <= len) by (nonlinear_arith)
                requires
                    offset == row * width,
                    row < height,
                    len == width * height,
            ;
        }
        if width > 0 {
            let last: usize = width - 1;
            let mut a: i16 = img.data[offset];
            let mut b: i16 = a;
            let mut c: i16 = img.data[offset + if last > 0 { 1 } else { 0 }];
            let mut col: usize = 0;
            while col < width
                invariant
                    img.wf(),
                    width == img.width,
                    height == img.height,
                    len == img.data@.len() == width * height,
                    v == widen_i16(img.data@),
                    out_spec == conv_horizontal(v, width as int, height as int, x as int, y as int, z as int),
                    pass_fits_i16(v, x as int, y as int, z as int),
                    row < height,
                    offset == row * width,
                    offset + width <= len,
                    last + 1 == width,
                    col <= width,
                    col < width ==> a == v[offset + clamp_coord(col - 1, width as int)],
                    col < width ==> b == v[offset + col],
                    col < width ==> c == v[offset + clamp_coord(col + 1, width as int)],
                    out@.len() == offset + col,
                    forall|k: int| 0 <= k < out@.len() ==> out@[k] as int == out_spec[k],
                decreases width - col,
            {
                proof {
                    lemma_weighted_sum_fits(x as int, y as int, z as int, a as int, b as int, c as int);
                }
                let value: i16 = ((z as i64) * (a as i64) + (y as i64) * (b as i64) + (x as i64) * (c as i64)) as i16;
                proof {
                    let (w, h) = (width as int, height as int);
                    assert(offset == clamp_coord(row as int, h) * w);
                    assert(col == clamp_coord(col as int, w));
                    lemma_pixel_index(col as int, row as int, w, h);
                    assert(out_spec[offset + col] == conv_h_at(v, w, h, col as int, row as int, x as int, y as int, z as int));
                }
                out.push(value);
                a = b;
                b = c;
                let ahead: usize = if col + 1 < last {
                    col + 2
                } else {
                    last
                };
                c = img.data[offset + ahead];
                col = col + 1;
            }
        }
        row = row + 1;
        offset = offset + width;
    }
    proof {
        assert(row * width == width * height) by (nonlinear_arith)
            requires
                row == height,
        ;
        assert(widen_i16(out@) =~= out_spec);
    }
    Image { data: out, width: img.width, height: img.height }
}

} // verus!
