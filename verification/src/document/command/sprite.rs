use vstd::prelude::*;
use crate::document::color::Channel;
use crate::document::math::Uuid;

verus! {

/// Give a sprite other colour channels.
#[derive(Debug, Clone, Copy, PartialEq, Eq, Structural)]
pub struct SetChannelsCommand {
    pub target: Uuid,
    pub channels: Channel,
}

} // verus!
