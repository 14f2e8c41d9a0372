use vstd::prelude::*;

use vstd::slice::slice_subrange;

use crate::direct::{detect_edges as detect_edges_of_bytes, lemma_row_step};
use crate::gradient::edge_map;
use crate::image::{widen_i16, widen_u8, EnergyError};
use crate::luminance::{intens_from_rgba, intensity_map};

verus! {

/// A per-pixel energy map: one signed sample per pixel, row-major.
pub struct EnergyMap {
    energy: Vec<i16>,
    width: u32,
    height: u32,
}

/// Every sample of `s` is a byte-range intensity.
pub open spec fn is_intensity_seq(s: Seq<i16>) -> bool {
    forall|i: int| 0 <= i < s.len() ==> 0 <= #[trigger] s[i] <= 255
}

impl EnergyMap {
    /// The samples, row-major.
    pub closed spec fn energy_view(&self) -> Seq<i16> {
        self.energy@
    }

    /// Width of the map in pixels.
    pub closed spec fn width_view(&self) -> nat {
        self.width as nat
    }

    /// Height of the map in pixels.
    pub closed spec fn height_view(&self) -> nat {
        self.height as nat
    }

    /// A map always holds exactly `width * height` samples.
    #[verifier::type_invariant]
    spec fn shaped(&self) -> bool {
        self.energy@.len() == self.width * self.height
    }

    /// An all-zero map of `width` by `height` pixels.
    pub fn new(width: u32, height: u32) -> (r: EnergyMap)
        requires
            width * height <= usize::MAX,
        ensures
            r.width_view() == width,
            r.height_view() == height,
            r.energy_view() == Seq::new((width * height) as nat, |i: int| 0i16),
    {
        let n: usize = (width as usize) * (height as usize);
        let energy: Vec<i16> = vec![0i16; n];
        assert(energy@ =~= Seq::new((width * height) as nat, |i: int| 0i16));
        EnergyMap { energy, width, height }
    }

    /// Wraps `width * height` samples, row-major, as a map.
    pub fn from_vec(energy: Vec<i16>, width: u32, height: u32) -> (r: EnergyMap)
        requires
            energy@.len() == width * height,
        ensures
            r.width_view() == width,
            r.height_view() == height,
            r.energy_view() == energy@,
    {
        EnergyMap { energy, width, height }
    }

    /// Number of samples, one per pixel.
    pub fn len(&self) -> (r: usize)
        ensures
            r == self.energy_view().len(),
            r == self.width_view() * self.height_view(),
    {
        proof {
            use_type_invariant(self);
        }
        self.energy.len()
    }

    /// Width in pixels.
    pub fn width(&self) -> (r: usize)
        ensures
            r == self.width_view(),
    {
        self.width as usize
    }

    /// Height in pixels.
    pub fn height(&self) -> (r: usize)
        ensures
            r == self.height_view(),
    {
        self.height as usize
    }

    /// The samples of row `y`.
    pub fn row(&self, y: usize) -> (r: &[i16])
        requires
            y < self.height_view(),
        ensures
            r@ == self.energy_view().subrange(
                y * self.width_view(),
                (y + 1) * self.width_view(),
            ),
    {
        proof {
            use_type_invariant(self);
            lemma_row_step(y as int, self.width as int);
            assert((y + 1) * self.width <= self.width * self.height) by (nonlinear_arith)
                requires
                    y < self.height,
            ;
        }
        let len: usize = self.energy.len();
        let w: usize = self.width as usize;
        assert(w * y + w <= len) by (nonlinear_arith)
            requires
                (y + 1) * w <= len,
        ;
        slice_subrange(self.energy.as_slice(), w * y, w * y + w)
    }
}

impl Default for EnergyMap {
    /// The empty map of zero by zero pixels.
    fn default() -> (r: EnergyMap)
        ensures
            r.width_view() == 0,
            r.height_view() == 0,
            r.energy_view() == Seq::<i16>::empty(),
    {
        let energy: Vec<i16> = Vec::new();
        assert(energy@ =~= Seq::<i16>::empty());
        EnergyMap { energy, width: 0, height: 0 }
    }
}

/// The energy map of a `width` by `height` RGBA buffer: the intensity of
/// each pixel. Reports `ShapeMismatch` when the buffer is not
/// `4 * width * height` long.
pub fn rgba_to_energy(rgba: &[u8], width: u32, height: u32) -> (r: Result<EnergyMap, EnergyError>)
    ensures
        rgba@.len() == 4 * (width * height) <==> r is Ok,
        r is Err ==> r == Err::<EnergyMap, EnergyError>(EnergyError::ShapeMismatch),
        r matches Ok(map) ==> {
            &&& map.width_view() == width
            &&& map.height_view() == height
            &&& widen_i16(map.energy_view()) == widen_u8(intensity_map(rgba@))
            &&& is_intensity_seq(map.energy_view())
        },
{
    let img = match intens_from_rgba(rgba, width, height) {
        Ok(img) => img,
        Err(e) => {
            return Err(e);
        },
    };
    let n: usize = img.data.len();
    let mut energy: Vec<i16> = Vec::with_capacity(n);
    let mut i: usize = 0;
    while i < n
        invariant
            n == img.data@.len(),
            i <= n,
            energy@.len() == i,
            forall|k: int| 0 <= k < i ==> energy@[k] as int == img.data@[k] as int,
        decreases n - i,
    {
        energy.push(img.data[i] as i16);
        i = i + 1;
    }
    assert(widen_i16(energy@) =~= widen_u8(img.data@));
    Ok(EnergyMap { energy, width, height })
}

/// The Sobel edge map of an intensity energy map, of the same shape.
pub fn detect_edges(energy: EnergyMap) -> (r: EnergyMap)
    requires
        is_intensity_seq(energy.energy_view()),
    ensures
        r.width_view() == energy.width_view(),
        r.height_view() == energy.height_view(),
        widen_i16(r.energy_view()) == edge_map(
            widen_i16(energy.energy_view()),
            energy.width_view() as int,
            energy.height_view() as int,
        ),
{
    proof {
        use_type_invariant(&energy);
    }
    let n: usize = energy.energy.len();
    let mut bytes: Vec<u8> = Vec::with_capacity(n);
    let mut i: usize = 0;
    while i < n
        invariant
            n == energy.energy@.len(),
            is_intensity_seq(energy.energy@),
            i <= n,
            bytes@.len() == i,
            forall|k: int| 0 <= k < i ==> bytes@[k] as int == energy.energy@[k] as int,
        decreases n - i,
    {
        let sample: i16 = energy.energy[i];
        assert(0 <= energy.energy@[i as int] <= 255);
        bytes.push(sample as u8);
        i = i + 1;
    }
    assert(widen_u8(bytes@) =~= widen_i16(energy.energy@));
    let edges = detect_edges_of_bytes(bytes.as_slice(), energy.width as usize, energy.height as usize);
    assert(edges@.len() == widen_i16(edges@).len());
    EnergyMap { energy: edges, width: energy.width, height: energy.height }
}

} // verus!
