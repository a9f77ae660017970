//! Color quantization and error-diffusion dithering over in-memory image
//! buffers, for bounded-integer channel values.
//!
//! The buffer is a flat, row-major sequence of channel values with an explicit
//! shape. A quantizer reduces each channel value to one of a fixed number of
//! evenly spaced levels; the error-diffusion engine walks the buffer in raster
//! order, quantizes each value in place, and redistributes the residual error
//! to not-yet-visited neighbors according to a diffusion kernel, with exact
//! rational weights and saturating accumulation.

pub mod dithering;
pub mod enums;
pub mod objects;
pub mod quantize;
pub mod svec;
