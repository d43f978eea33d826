//! The exact part of a small ray caster: pixel colour types, a fixed-size
//! raster and its serialisers (plain bitmap, binary pixmap and a compact
//! lossless run/index/delta stream), and the integer decisions of a scene.
pub mod pixel;
pub mod pnm;
pub mod qoi;
pub mod decode;
pub mod image;
pub mod scene;

pub use image::Image;
pub use pixel::{Pixel, Rgb, Rgba};
