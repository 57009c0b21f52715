//! A reduced-palette image pipeline: a raw 24-bit bottom-up bitmap codec, a
//! nearest-palette-color matcher, an error-diffusion dithering engine driven
//! by a configurable weight kernel, and an ordered (threshold-matrix)
//! dithering engine.

pub mod bmp;
pub mod bytesle;
pub mod dither;
