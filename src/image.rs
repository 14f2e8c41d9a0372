use vstd::prelude::*;

verus! {

/// Why building or carving an image failed.
#[derive(Debug, Clone, Copy, PartialEq, Eq, Structural)]
pub enum EnergyError {
    /// The RGBA buffer's length is not `4 * width * height`.
    ShapeMismatch,
    /// A carve target is larger than the source in some dimension.
    InvalidTargetSize,
}

/// A single-channel image: one sample per pixel, row-major, top row first.
pub struct Image<T> {
    pub data: Vec<T>,
    pub width: u32,
    pub height: u32,
}

impl<T> Image<T> {
    /// Every image carries exactly `width * height` samples.
    pub open spec fn wf(&self) -> bool {
        self.data@.len() == self.width * self.height
    }

    pub fn size(&self) -> (r: usize)
        ensures
            r == self.data@.len(),
    {
        self.data.len()
    }

    pub fn width(&self) -> (r: usize)
        ensures
            r == self.width,
    {
        self.width as usize
    }

    pub fn height(&self) -> (r: usize)
        ensures
            r == self.height,
    {
        self.height as usize
    }
}

/// The samples of a byte buffer as mathematical integers.
pub open spec fn widen_u8(s: Seq<u8>) -> Seq<int> {
    s.map_values(|b: u8| b as int)
}

/// The samples of a signed 16-bit buffer as mathematical integers.
pub open spec fn widen_i16(s: Seq<i16>) -> Seq<int> {
    s.map_values(|v: i16| v as int)
}

/// Is `len` the sample count of a `width` by `height` RGBA buffer?
pub open spec fn is_rgba_shape(len: int, width: int, height: int) -> bool {
    len == 4 * (width * height)
}

/// Tests whether `len` bytes form an RGBA buffer of `width` by `height` pixels,
/// without overflowing on any dimensions.
pub fn rgba_shape_matches(len: usize, width: u32, height: u32) -> (r: bool)
    ensures
        r == is_rgba_shape(len as int, width as int, height as int),
{
    assert((width as u64) * (height as u64) <= u32::MAX * u32::MAX) by (nonlinear_arith)
        requires
            width <= u32::MAX,
            height <= u32::MAX,
    ;
    let size: u64 = (width as u64) * (height as u64);
    let quads: u64 = (len / 4) as u64;
    len % 4 == 0 && quads == size
}

} // verus!
