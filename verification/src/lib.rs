//! An in-memory RGBA pixel buffer with a software rasterizer: a render target
//! for 2-D drawing that needs no window and no GPU.
//!
//! # Conventions
//!
//! * A [`buffer::PixelBuffer`] holds its pixels row by row, four bytes each in
//!   the order red, green, blue, alpha, without padding. Alpha is straight.
//! * A [`color::Color`] has normalized channels of eight bits: `255` stands
//!   for `1.0`. Compositing is "over": every channel becomes
//!   `src * srcA + dst * (1 - srcA)`, rounded to the nearest byte.
//! * Coordinates are fixed-point numbers that count 1/256 of a pixel, and the
//!   factors of a [`geometry::Transform`] count 1/65536. What leaves the range
//!   of 32 bits saturates.
//! * A pixel is covered by a shape if its centre lies inside the shape. Nothing
//!   is anti-aliased. A polygon's inside is decided by the even-odd rule. A
//!   centre that lies exactly on the left or the upper side of a rectangle is
//!   inside it, one on the right or the lower side is not.
//! * Every drawing operation of the [`raster::Rasterizer`] changes only pixels
//!   of the active clip region, and either draws the whole primitive or, where
//!   it refuses the primitive, nothing.

pub mod blit;
pub mod buffer;
pub mod cache;
pub mod color;
pub mod coverage;
pub mod decimal;
pub mod error;
pub mod fixed;
pub mod geometry;
pub mod glyph;
pub mod line;
pub mod raster;
pub mod texture;
pub mod typeset;

pub use crate::buffer::PixelBuffer;
pub use crate::cache::GlyphCache;
pub use crate::color::Color;
pub use crate::error::Error;
pub use crate::geometry::{ClipRegion, Point, Transform};
pub use crate::glyph::{Font, GlyphEntry, GlyphError, GlyphKey};
pub use crate::raster::{DrawError, Rasterizer};
pub use crate::texture::{TextureHandle, UploadError};
