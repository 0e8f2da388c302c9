//! Size-capped image normalisation: decode an encoded raster image, scale it
//! so that its longer side matches a requested length, and re-encode it as PNG.

pub mod binary64;
pub mod codec;
pub mod error;
pub mod pipeline;
pub mod scale;

pub use error::ResizeError;
pub use pipeline::{resize_image, DecodedImage, ResizeResult};
pub use scale::{compute_target, TargetGeometry};
