//! Image processing on interleaved sample buffers: pixel access, rotations,
//! grayscale reduction, convolution, histograms, an editing session with undo,
//! and the byte-level codec steps around them.
pub mod ascii;
pub mod codec;
pub mod convolve;
pub mod histogram;
pub mod layout;
pub mod raster;
pub mod session;
pub mod text;
pub mod transform;
