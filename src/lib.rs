//! Image filters over RGBA8 pixel buffers and the host logic that applies
//! them through a fixed filter interface.

pub mod blur;
pub mod error;
pub mod filter;
pub mod mirror;
pub mod params;

pub use error::ProcessorError;
pub use filter::process_image;
