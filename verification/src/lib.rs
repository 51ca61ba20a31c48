//! A software-rasterized 2D surface-compositing library: packed ARGB
//! colors, a `Surface` capability for any addressable pixel grid, and a
//! blit engine that copies or scales rectangular regions between surfaces
//! with clipping and per-pixel alpha-key transparency. Every operation
//! carries a contract over the `GridView` model of its surfaces, and the
//! contracts are machine-checked.

pub mod blit;
pub mod color;
pub mod config;
pub mod image;
pub mod surface;
pub mod vec2;

pub use blit::{blit, blit_same_size, blit_scale};
pub use color::Color;
pub use config::Config;
pub use image::Image;
pub use surface::{GridView, Surface};
pub use vec2::{ivec2, IVec2};
