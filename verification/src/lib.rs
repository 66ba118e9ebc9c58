//! Verified core of a Mandelbrot rasteriser: the packed pixel format, the
//! escape-time iteration, the partition of an image into row bands and the
//! repacking of a device texture. Floating-point kernels and device I/O are
//! supplied by the caller.

pub mod band;
pub mod cpu;
pub mod escape;
pub mod gpu;
pub mod pixel;
pub mod resolution;
