use vstd::prelude::*;
use crate::canvas::rect::Rect;
use crate::document::canvas::canvas::FlipAxis;
use crate::document::canvas::interpolation::Interpolation;
use crate::document::color::Channel;
use crate::document::math::{Extent2, Uuid};

verus! {

/// Give a canvas node other colour components.
#[derive(Debug, Clone, Copy, PartialEq, Eq, Structural)]
pub struct SetComponentsCommand {
    pub target: Uuid,
    pub channels: Channel,
}

/// Resample a canvas to a size.
#[derive(Debug, Clone, Copy, PartialEq, Eq, Structural)]
pub struct ResizeCommand {
    pub target: Uuid,
    pub size: Extent2,
    pub interpolation: Interpolation,
}

/// Keep a region of a canvas.
#[derive(Debug, Clone, Copy, PartialEq, Eq, Structural)]
pub struct CropCommand {
    pub target: Uuid,
    pub region: Rect,
}

/// Mirror a canvas.
#[derive(Debug, Clone, Copy, PartialEq, Eq, Structural)]
pub struct FlipCommand {
    pub target: Uuid,
    pub axis: FlipAxis,
}

} // verus!
