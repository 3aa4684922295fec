//! Pixel formats, per-pixel accessors and blend modes.
pub mod blending;
pub mod channel;
pub mod color;
pub mod pixel;
