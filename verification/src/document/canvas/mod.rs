//! Canvas vocabulary: blend and compose modes, interpolation, flip axes
//! and the errors canvas operations report.
use vstd::prelude::*;

pub mod blend;
pub mod canvas;
pub mod interpolation;

verus! {

/// Why combining canvases failed.
#[derive(Debug, Clone, Copy, PartialEq, Eq, Structural)]
pub enum CanvasError {
    ComponentMismatch,
    SizeMismatch,
}

impl CanvasError {
    /// What went wrong, in words.
    pub fn to_string(&self) -> (r: String)
        ensures
            r@ == match *self {
                CanvasError::ComponentMismatch => "Component mismatch."@,
                CanvasError::SizeMismatch => "Size mismatch."@,
            },
    {
        match self {
            CanvasError::ComponentMismatch => "Component mismatch.".to_owned(),
            CanvasError::SizeMismatch => "Size mismatch.".to_owned(),
        }
    }
}

} // verus!
