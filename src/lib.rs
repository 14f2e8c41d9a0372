//! Energy maps for content-aware image resizing: RGBA pixels are reduced
//! to luminance, the luminance to Sobel gradient magnitudes with
//! edge-clamped neighbourhoods, and either map can be rescaled into an
//! opaque gray RGBA image for display. All arithmetic is exact integer
//! arithmetic.
pub mod image;
pub mod luminance;
pub mod gradient;
pub mod direct;
pub mod separable;
pub mod normalize;
pub mod images;
pub mod context;
pub mod energy;

pub use context::CarvingContext;
pub use energy::{rgba_to_energy, EnergyMap};
pub use gradient::sobel;
pub use image::{EnergyError, Image};
pub use images::{EdgeImage, IntensityImage};
