//! Pixel-art document model: colour channels, pixel buffers, stencils,
//! blocked layouts, byte chains, document nodes and commands, and the
//! binary document format.
pub mod canvas;
pub mod cli;
pub mod collections;
pub mod color;
pub mod document;
pub mod editor;
pub mod text;
