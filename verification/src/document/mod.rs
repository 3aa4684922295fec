//! The document model: colour components, nodes and the commands that
//! change them, patches, canvas vocabulary and the binary document format.
pub mod canvas;
pub mod chunked;
pub mod color;
pub mod command;
pub mod document;
pub mod file;
pub mod group;
pub mod label;
pub mod math;
pub mod node;
pub mod note;
pub mod parser;
pub mod part;
pub mod partition;
pub mod patch;
pub mod revert;
pub mod writer;
