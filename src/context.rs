use vstd::prelude::*;

use crate::direct::detect_edges;
use crate::gradient::edge_map;
use crate::image::{is_rgba_shape, rgba_shape_matches, widen_i16, widen_u8, EnergyError};
use crate::luminance::{compute_intens, intensity_map};

verus! {

/// One image on its way to seam carving: the RGBA pixels, and the intensity
/// and edge maps derived from them once, at construction.
pub struct CarvingContext {
    rgba: Vec<u8>,
    intens: Vec<u8>,
    edges: Vec<i16>,
    width: u32,
    height: u32,
}

impl CarvingContext {
    /// The RGBA pixels the context was built from.
    pub closed spec fn rgba_view(&self) -> Seq<u8> {
        self.rgba@
    }

    /// The intensity map, one byte per pixel.
    pub closed spec fn intens_view(&self) -> Seq<u8> {
        self.intens@
    }

    /// The edge map, one gradient magnitude per pixel.
    pub closed spec fn edges_view(&self) -> Seq<i16> {
        self.edges@
    }

    /// Width of the image in pixels.
    pub closed spec fn width_view(&self) -> nat {
        self.width as nat
    }

    /// Height of the image in pixels.
    pub closed spec fn height_view(&self) -> nat {
        self.height as nat
    }

    /// All three buffers describe the same `width` by `height` image, and
    /// the derived maps are those of the pixels.
    #[verifier::type_invariant]
    spec fn consistent(&self) -> bool {
        &&& is_rgba_shape(self.rgba@.len() as int, self.width as int, self.height as int)
        &&& self.intens@ == intensity_map(self.rgba@)
        &&& self.intens@.len() == self.width * self.height
        &&& widen_i16(self.edges@) == edge_map(
            widen_u8(self.intens@),
            self.width as int,
            self.height as int,
        )
    }

    /// Builds the context of a `width` by `height` RGBA buffer, computing its
    /// intensity and edge maps, or reports `ShapeMismatch` when the buffer is
    /// not `4 * width * height` long.
    pub fn new(rgba: Vec<u8>, width: u32, height: u32) -> (r: Result<CarvingContext, EnergyError>)
        ensures
            is_rgba_shape(rgba@.len() as int, width as int, height as int) <==> r is Ok,
            r is Err ==> r == Err::<CarvingContext, EnergyError>(EnergyError::ShapeMismatch),
            r matches Ok(ctx) ==> {
                &&& ctx.rgba_view() == rgba@
                &&& ctx.width_view() == width
                &&& ctx.height_view() == height
                &&& ctx.intens_view() == intensity_map(rgba@)
                &&& widen_i16(ctx.edges_view()) == edge_map(
                    widen_u8(intensity_map(rgba@)),
                    width as int,
                    height as int,
                )
            },
    {
        if !rgba_shape_matches(rgba.len(), width, height) {
            return Err(EnergyError::ShapeMismatch);
        }
        let intens = compute_intens(rgba.as_slice(), width as usize, height as usize);
        let edges = detect_edges(intens.as_slice(), width as usize, height as usize);
        Ok(CarvingContext { rgba, intens, edges, width, height })
    }

    /// Read-only access to the intensity map.
    pub fn intens(&self) -> (r: &Vec<u8>)
        ensures
            r@ == self.intens_view(),
    {
        &self.intens
    }

    /// Read-only access to the edge map.
    pub fn edges(&self) -> (r: &Vec<i16>)
        ensures
            r@ == self.edges_view(),
    {
        &self.edges
    }

    /// Entry point of seam removal towards a `width` by `height` target.
    /// A target larger than the image in either dimension is refused with
    /// `InvalidTargetSize`; otherwise no seam is removed yet and the pixels
    /// come back unchanged.
    pub fn carve(&self, width: u32, height: u32) -> (r: Result<Vec<u8>, EnergyError>)
        ensures
            (width <= self.width_view() && height <= self.height_view()) <==> r is Ok,
            r is Err ==> r == Err::<Vec<u8>, EnergyError>(EnergyError::InvalidTargetSize),
            r matches Ok(pixels) ==> pixels@ == self.rgba_view(),
    {
        if width > self.width || height > self.height {
            return Err(EnergyError::InvalidTargetSize);
        }
        let pixels = self.rgba.clone();
        assert(pixels@ =~= self.rgba@);
        Ok(pixels)
    }
}

} // verus!
