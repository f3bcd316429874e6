//! Core of a real-time pixel pipeline: temporal frame deltas, spatial
//! convolution, and an HSV-domain analogue of both, over 8-bit RGBA rasters.
//!
//! The library is pure computation. Obtaining frames from a capture surface
//! and presenting buffers on a display surface are left to the caller.

use vstd::prelude::*;

pub mod colorspace;
pub mod convolve;
pub mod delta;
pub mod frame;
pub mod pipeline;
pub mod roundtrip;

pub use colorspace::Hsva;
pub use colorspace::HsvaFrame;
pub use convolve::ChannelMask;
pub use convolve::Kernel;
pub use frame::FrameBuffer;
pub use pipeline::Pipeline;

verus! {

/// Failure modes of the pipeline's fallible operations.
#[derive(Clone, Copy, Debug, PartialEq, Eq, Structural)]
pub enum PixelError {
    /// A raw byte buffer does not hold `width * height * 4` bytes.
    InvalidLength,
    /// A kernel weight sequence is not a square with an odd side.
    InvalidKernel,
}

} // verus!
