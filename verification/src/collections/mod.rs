//! Bit masks, braille rendering of masks, blocked row-major layouts and
//! chains of byte buffers.
pub mod mask;
pub mod braille;
pub mod blocked_row_major;
pub mod byteschain;
