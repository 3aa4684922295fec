//! Rectangles, sparse pixel stencils, sampling modes and canvas errors.
use vstd::prelude::*;
use vstd::std_specs::convert::FromSpecImpl;
use crate::color::channel::{ChannelError, channel_error_text};

pub mod canvas;
pub mod rect;
pub mod sampling;
pub mod stencil;

verus! {

/// Why a canvas operation failed.
#[derive(Debug, Clone, Copy, PartialEq, Eq, Structural)]
pub enum CanvasError {
    ChannelError(ChannelError),
}

impl From<ChannelError> for CanvasError {
    fn from(value: ChannelError) -> (r: CanvasError) {
        CanvasError::ChannelError(value)
    }
}

impl FromSpecImpl<ChannelError> for CanvasError {
    open spec fn obeys_from_spec() -> bool {
        true
    }

    open spec fn from_spec(value: ChannelError) -> CanvasError {
        CanvasError::ChannelError(value)
    }
}

impl CanvasError {
    /// What went wrong, in words.
    pub fn to_string(&self) -> (r: String)
        ensures
            r@ == match *self {
                CanvasError::ChannelError(e) => channel_error_text(e),
            },
    {
        match self {
            CanvasError::ChannelError(e) => e.to_string(),
        }
    }
}

} // verus!
