use vstd::prelude::*;

verus! {

/// Why a canvas operation failed.
#[derive(Debug, Clone, Copy, PartialEq, Eq, Structural)]
pub enum CanvasError {
    ChannelMismatch,
    RegionNotContained,
}

/// The axis a canvas is mirrored about.
#[derive(Debug, Clone, Copy, PartialEq, Eq, Structural)]
pub enum FlipAxis {
    Horizontal,
    Vertical,
    Both,
}

impl CanvasError {
    /// What went wrong, in words.
    pub fn to_string(&self) -> (r: String)
        ensures
            r@ == match *self {
                CanvasError::ChannelMismatch => "Channel mismatch."@,
                CanvasError::RegionNotContained => "Region not contained in this Canvas"@,
            },
    {
        match self {
            CanvasError::ChannelMismatch => "Channel mismatch.".to_owned(),
            CanvasError::RegionNotContained => "Region not contained in this Canvas".to_owned(),
        }
    }
}

} // verus!
