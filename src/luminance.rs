use vstd::prelude::*;

use crate::image::{is_rgba_shape, rgba_shape_matches, EnergyError, Image};

verus! {

/// Luminance of one pixel: `0.30 R + 0.59 G + 0.11 B`, rounded to the
/// nearest integer (halves upward). The weights sum to one, so the result
/// is always a byte.
pub open spec fn luma(r: u8, g: u8, b: u8) -> int {
    (30 * r + 59 * g + 11 * b + 50) / 100
}

/// The intensity map of an RGBA buffer: the luminance of each 4-byte pixel,
/// alpha ignored.
pub open spec fn intensity_map(rgba: Seq<u8>) -> Seq<u8> {
    Seq::new(
        (rgba.len() / 4) as nat,
        |i: int| luma(rgba[4 * i], rgba[4 * i + 1], rgba[4 * i + 2]) as u8,
    )
}

/// Reduces a `width` by `height` RGBA buffer to one intensity byte per pixel.
pub fn compute_intens(rgba_data: &[u8], width: usize, height: usize) -> (r: Vec<u8>)
    requires
        is_rgba_shape(rgba_data@.len() as int, width as int, height as int),
    ensures
        r@ == intensity_map(rgba_data@),
        r@.len() == width * height,
{
    let len: usize = rgba_data.len();
    let n: usize = len / 4;
    let mut out: Vec<u8> = Vec::with_capacity(n);
    let mut i: usize = 0;
    while i < n
        invariant
            len == rgba_data@.len(),
            n == rgba_data@.len() / 4,
            4 * n <= rgba_data@.len(),
            i <= n,
            out@.len() == i,
            forall|k: int| 0 <= k < i ==> out@[k] == intensity_map(rgba_data@)[k],
        decreases n - i,
    {
        let j: usize = 4 * i;
        let r: u32 = rgba_data[j] as u32;
        let g: u32 = rgba_data[j + 1] as u32;
        let b: u32 = rgba_data[j + 2] as u32;
        let value: u32 = (30 * r + 59 * g + 11 * b + 50) / 100;
        out.push(value as u8);
        i = i + 1;
    }
    assert(out@ =~= intensity_map(rgba_data@));
    out
}

/// Builds the intensity image of a `width` by `height` RGBA buffer, or
/// reports `ShapeMismatch` when the buffer is not `4 * width * height` long.
pub fn intens_from_rgba(rgba_data: &[u8], width: u32, height: u32) -> (r: Result<Image<u8>, EnergyError>)
    ensures
        is_rgba_shape(rgba_data@.len() as int, width as int, height as int) <==> r is Ok,
        r is Err ==> r == Err::<Image<u8>, EnergyError>(EnergyError::ShapeMismatch),
        r matches Ok(img) ==> {
            &&& img.wf()
            &&& img.width == width
            &&& img.height == height
            &&& img.data@ == intensity_map(rgba_data@)
        },
{
    if !rgba_shape_matches(rgba_data.len(), width, height) {
        return Err(EnergyError::ShapeMismatch);
    }
    let data = compute_intens(rgba_data, width as usize, height as usize);
    Ok(Image { data, width, height })
}

/// Luminance never leaves the byte range.
pub proof fn lemma_luma_is_byte(r: u8, g: u8, b: u8)
    ensures
        0 <= luma(r, g, b) <= 255,
{
}

/// The intensity map of a `width` by `height` RGBA buffer has one sample
/// per pixel, and every sample is the pixel's luminance itself, which is
/// a byte: nothing is truncated.
pub proof fn lemma_intensity_map_shape(rgba: Seq<u8>, width: int, height: int)
    requires
        is_rgba_shape(rgba.len() as int, width, height),
    ensures
        intensity_map(rgba).len() == width * height,
        forall|i: int|
            0 <= i < width * height ==> {
                &&& 0 <= luma(rgba[4 * i], rgba[4 * i + 1], rgba[4 * i + 2]) <= 255
                &&& #[trigger] intensity_map(rgba)[i] as int == luma(
                    rgba[4 * i],
                    rgba[4 * i + 1],
                    rgba[4 * i + 2],
                )
            },
{
    assert forall|i: int| 0 <= i < width * height implies {
        &&& 0 <= luma(rgba[4 * i], rgba[4 * i + 1], rgba[4 * i + 2]) <= 255
        &&& #[trigger] intensity_map(rgba)[i] as int == luma(rgba[4 * i], rgba[4 * i + 1], rgba[4 * i + 2])
    } by {
        lemma_luma_is_byte(rgba[4 * i], rgba[4 * i + 1], rgba[4 * i + 2]);
    }
}

} // verus!
