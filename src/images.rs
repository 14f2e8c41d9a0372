use vstd::prelude::*;

use crate::direct::lemma_index_pixel;
use crate::gradient::{edge_map, magnitude, round_sqrt};
use crate::image::{widen_i16, widen_u8, EnergyError, Image};
use crate::luminance::{intens_from_rgba, intensity_map};
use crate::normalize::{gray_rgba, normalize, normalized_bytes, vec_to_grayscale_rgba};
use crate::separable::{
    conv_horizontal, conv_vertical, convolve_1x3, convolve_3x1, lemma_sample_within,
    abs_int, lemma_separable_agrees_with_direct, pass_fits_i16, samples_within, separable_edge_map, separable_grad_x,
    separable_grad_y,
};

verus! {

/// The intensity map of an image, one byte per pixel.
pub struct IntensityImage(pub Image<u8>);

/// The Sobel edge map of an image, one gradient magnitude per pixel.
pub struct EdgeImage(pub Image<i16>);

/// Copies a byte image into a signed 16-bit one.
fn widen(img: &Image<u8>) -> (r: Image<i16>)
    requires
        img.wf(),
    ensures
        r.wf(),
        r.width == img.width,
        r.height == img.height,
        widen_i16(r.data@) == widen_u8(img.data@),
{
    let n: usize = img.data.len();
    let mut data: Vec<i16> = Vec::with_capacity(n);
    let mut i: usize = 0;
    while i < n
        invariant
            n == img.data@.len(),
            i <= n,
            data@.len() == i,
            forall|k: int| 0 <= k < i ==> data@[k] as int == img.data@[k] as int,
        decreases n - i,
    {
        data.push(img.data[i] as i16);
        i = i + 1;
    }
    assert(widen_i16(data@) =~= widen_u8(img.data@));
    Image { data, width: img.width, height: img.height }
}

/// Combines the two gradient maps into rounded magnitudes.
fn magnitudes(grad_x: &Vec<i16>, grad_y: &Vec<i16>) -> (r: Vec<i16>)
    requires
        grad_x@.len() == grad_y@.len(),
        samples_within(widen_i16(grad_x@), -1020, 1020),
        samples_within(widen_i16(grad_y@), -1020, 1020),
    ensures
        r@.len() == grad_x@.len(),
        forall|i: int|
            0 <= i < r@.len() ==> r@[i] as int == magnitude(
                grad_x@[i] as int,
                grad_y@[i] as int,
            ),
{
    let n: usize = grad_x.len();
    let mut out: Vec<i16> = Vec::with_capacity(n);
    let mut i: usize = 0;
    while i < n
        invariant
            n == grad_x@.len() == grad_y@.len(),
            samples_within(widen_i16(grad_x@), -1020, 1020),
            samples_within(widen_i16(grad_y@), -1020, 1020),
            i <= n,
            out@.len() == i,
            forall|k: int|
                0 <= k < i ==> out@[k] as int == magnitude(grad_x@[k] as int, grad_y@[k] as int),
        decreases n - i,
    {
        let gx: i32 = grad_x[i] as i32;
        let gy: i32 = grad_y[i] as i32;
        assert(widen_i16(grad_x@)[i as int] == gx && widen_i16(grad_y@)[i as int] == gy);
        assert(0 <= gx * gx <= 1020 * 1020) by (nonlinear_arith)
            requires
                -1020 <= gx <= 1020,
        ;
        assert(0 <= gy * gy <= 1020 * 1020) by (nonlinear_arith)
            requires
                -1020 <= gy <= 1020,
        ;
        let squared: u32 = (gx * gx + gy * gy) as u32;
        let value: u32 = round_sqrt(squared);
        assert(value <= 2001) by (nonlinear_arith)
            requires
                value * value <= squared + value,
                squared <= 2 * 1020 * 1020,
        ;
        out.push(value as i16);
        i = i + 1;
    }
    out
}

impl IntensityImage {
    /// Builds the intensity image of a `width` by `height` RGBA buffer, or
    /// reports `ShapeMismatch` when the buffer is not `4 * width * height` long.
    pub fn new(rgba: &[u8], width: u32, height: u32) -> (r: Result<IntensityImage, EnergyError>)
        ensures
            rgba@.len() == 4 * (width * height) <==> r is Ok,
            r is Err ==> r == Err::<IntensityImage, EnergyError>(EnergyError::ShapeMismatch),
            r matches Ok(img) ==> {
                &&& img.0.wf()
                &&& img.0.width == width
                &&& img.0.height == height
                &&& img.0.data@ == intensity_map(rgba@)
            },
    {
        match intens_from_rgba(rgba, width, height) {
            Ok(img) => Ok(IntensityImage(img)),
            Err(e) => Err(e),
        }
    }

    /// Sobel edge map of the image, by the separable formulation: two
    /// vertical passes, `(1, 2, 1)` smoothing and `(1, 0, -1)` differencing,
    /// each followed by the complementary horizontal pass.
    pub fn detect_edges(&self) -> (r: EdgeImage)
        requires
            self.0.wf(),
        ensures
            r.0.wf(),
            r.0.width == self.0.width,
            r.0.height == self.0.height,
            widen_i16(r.0.data@) == separable_edge_map(
                widen_u8(self.0.data@),
                self.0.width as int,
                self.0.height as int,
            ),
            widen_i16(r.0.data@) == edge_map(
                widen_u8(self.0.data@),
                self.0.width as int,
                self.0.height as int,
            ),
    {
        let img = &self.0;
        let ghost (w, h) = (img.width as int, img.height as int);
        let ghost v = widen_u8(img.data@);
        let wide = widen(img);
        assert(samples_within(v, 0, 255));
        assert(pass_fits_i16(v, 1, 2, 1) && pass_fits_i16(v, 1, 0, -1)) by {
            assert(abs_int(1) + abs_int(2) + abs_int(1) == 4);
            assert(abs_int(1) + abs_int(0) + abs_int(-1) == 2);
        }
        let smoothed = convolve_1x3(&wide, 1, 2, 1);
        let differenced = convolve_1x3(&wide, 1, 0, -1);
        proof {
            let sm = conv_vertical(v, w, h, 1, 2, 1);
            let df = conv_vertical(v, w, h, 1, 0, -1);
            assert forall|i: int| 0 <= i < sm.len() implies 0 <= #[trigger] sm[i] <= 1020 by {
                lemma_index_pixel(i, w, h);
                lemma_sample_within(v, w, h, i % w, i / w - 1, 0, 255);
                lemma_sample_within(v, w, h, i % w, i / w, 0, 255);
                lemma_sample_within(v, w, h, i % w, i / w + 1, 0, 255);
            }
            assert forall|i: int| 0 <= i < df.len() implies -255 <= #[trigger] df[i] <= 255 by {
                lemma_index_pixel(i, w, h);
                lemma_sample_within(v, w, h, i % w, i / w - 1, 0, 255);
                lemma_sample_within(v, w, h, i % w, i / w + 1, 0, 255);
            }
            assert(samples_within(sm, 0, 1020));
            assert(samples_within(df, -255, 255));
            assert(pass_fits_i16(sm, 1, 0, -1) && pass_fits_i16(df, 1, 2, 1)) by {
                assert(abs_int(1) + abs_int(2) + abs_int(1) == 4);
                assert(abs_int(1) + abs_int(0) + abs_int(-1) == 2);
            }
        }
        let grad_x = convolve_3x1(&smoothed, 1, 0, -1);
        let grad_y = convolve_3x1(&differenced, 1, 2, 1);
        proof {
            let sm = conv_vertical(v, w, h, 1, 2, 1);
            let df = conv_vertical(v, w, h, 1, 0, -1);
            let gx = separable_grad_x(v, w, h);
            let gy = separable_grad_y(v, w, h);
            assert(gx == conv_horizontal(sm, w, h, 1, 0, -1));
            assert(gy == conv_horizontal(df, w, h, 1, 2, 1));
            assert forall|i: int| 0 <= i < gx.len() implies -1020 <= #[trigger] gx[i] <= 1020 by {
                lemma_index_pixel(i, w, h);
                lemma_sample_within(sm, w, h, i % w - 1, i / w, 0, 1020);
                lemma_sample_within(sm, w, h, i % w + 1, i / w, 0, 1020);
            }
            assert forall|i: int| 0 <= i < gy.len() implies -1020 <= #[trigger] gy[i] <= 1020 by {
                lemma_index_pixel(i, w, h);
                lemma_sample_within(df, w, h, i % w - 1, i / w, -255, 255);
                lemma_sample_within(df, w, h, i % w, i / w, -255, 255);
                lemma_sample_within(df, w, h, i % w + 1, i / w, -255, 255);
            }
            assert(samples_within(widen_i16(grad_x.data@), -1020, 1020));
            assert(samples_within(widen_i16(grad_y.data@), -1020, 1020));
        }
        let data = magnitudes(&grad_x.data, &grad_y.data);
        proof {
            let gx = separable_grad_x(v, w, h);
            let gy = separable_grad_y(v, w, h);
            assert forall|i: int| 0 <= i < data@.len() implies grad_x.data@[i] as int == gx[i]
                && grad_y.data@[i] as int == gy[i] by {
                assert(widen_i16(grad_x.data@)[i] == gx[i]);
                assert(widen_i16(grad_y.data@)[i] == gy[i]);
            }
            assert(widen_i16(data@) =~= separable_edge_map(v, w, h));
            lemma_separable_agrees_with_direct(v, w, h);
        }
        EdgeImage(Image { data, width: img.width, height: img.height })
    }
}

impl EdgeImage {
    /// Opaque gray RGBA rendering of the edge map, min-max rescaled onto
    /// `[0, 255]`.
    pub fn to_rgba(&self) -> (r: Vec<u8>)
        requires
            4 * self.0.data@.len() <= usize::MAX,
        ensures
            r@ == gray_rgba(normalized_bytes(widen_i16(self.0.data@))),
    {
        let bytes = normalize(&self.0.data);
        vec_to_grayscale_rgba(&bytes)
    }
}

} // verus!
