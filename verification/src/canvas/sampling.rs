use vstd::prelude::*;
use vstd::std_specs::convert::FromSpecImpl;
use crate::color::channel::{ChannelError, channel_error_text};

verus! {

/// How a canvas is read between pixel centres.
#[derive(Debug, Clone, Copy, PartialEq, Eq, Structural)]
pub enum Sampling {
    Nearest,
    Bilinear,
}

/// Why a sample could not be taken.
#[derive(Debug, Clone, Copy, PartialEq, Eq, Structural)]
pub enum SamplingError {
    ChannelError(ChannelError),
    OutOfBounds,
    Empty,
}

impl From<ChannelError> for SamplingError {
    fn from(value: ChannelError) -> (r: SamplingError) {
        SamplingError::ChannelError(value)
    }
}

impl FromSpecImpl<ChannelError> for SamplingError {
    open spec fn obeys_from_spec() -> bool {
        true
    }

    open spec fn from_spec(value: ChannelError) -> SamplingError {
        SamplingError::ChannelError(value)
    }
}

impl SamplingError {
    /// What went wrong, in words; a position out of bounds and an empty
    /// position read alike.
    pub fn to_string(&self) -> (r: String)
        ensures
            r@ == match *self {
                SamplingError::ChannelError(e) => channel_error_text(e),
                _ => "Position is out of bounds"@,
            },
    {
        match self {
            SamplingError::ChannelError(e) => e.to_string(),
            SamplingError::OutOfBounds => "Position is out of bounds".to_owned(),
            SamplingError::Empty => "Position is out of bounds".to_owned(),
        }
    }
}

} // verus!
