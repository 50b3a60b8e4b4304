//! Stencil-based image watermarking core.
//!
//! A binary stencil (the watermark shape) is tiled across a canvas at a
//! configurable spacing and integer magnification; every ink pixel of the
//! stencil is expanded into a scale-by-scale block of canvas coordinates,
//! and each touched pixel is brightened by a bounded random amount that an
//! unverified caller may further attenuate before it is applied.
//!
//! Everything with algorithmic content is verified here: the coordinate
//! generator, the tile grid, the canvas clipping, and the integer brightening
//! rule. Image decoding/encoding, noise-field evaluation (floating point) and
//! configuration persistence are left to the surrounding application.

pub mod config;
pub mod modulate;
pub mod walker;
pub mod watermark;
