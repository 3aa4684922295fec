use vstd::prelude::*;
use crate::color::blending::Factor;

verus! {

/// How a front colour mixes with a back colour.
#[derive(Debug, Clone, Copy, PartialEq, Eq, Structural)]
pub enum Blend {
    Normal,
    Multiply,
    Screen,
    Overlay,
    Darken,
    Lighten,
    ColorDodge,
    ColorBurn,
    HardLight,
    SoftLight,
    Difference,
    Exclusion,
}

impl Default for Blend {
    fn default() -> (r: Self)
        ensures
            r == Blend::Normal,
    {
        Blend::Normal
    }
}

/// Porter-Duff operators: how the coverage of front and back combine.
#[derive(Debug, Clone, Copy, PartialEq, Eq, Structural)]
pub enum Compose {
    Clear,
    Copy,
    Destination,
    SourceOver,
    DestinationOver,
    SourceIn,
    DestinationIn,
    SourceOut,
    DestinationOut,
    SourceAtop,
    DestinationAtop,
    XOR,
    Lighter,
}

/// The weights of front and back under each operator, as the SVG
/// compositing specification tabulates them.
pub open spec fn compose_factors(op: Compose) -> (Factor, Factor) {
    match op {
        Compose::Clear => (Factor::Zero, Factor::Zero),
        Compose::Copy => (Factor::One, Factor::Zero),
        Compose::Destination => (Factor::Zero, Factor::One),
        Compose::SourceOver => (Factor::One, Factor::OneMinusFrontAlpha),
        Compose::DestinationOver => (Factor::OneMinusBackAlpha, Factor::One),
        Compose::SourceIn => (Factor::BackAlpha, Factor::Zero),
        Compose::DestinationIn => (Factor::Zero, Factor::FrontAlpha),
        Compose::SourceOut => (Factor::OneMinusBackAlpha, Factor::Zero),
        Compose::DestinationOut => (Factor::Zero, Factor::OneMinusFrontAlpha),
        Compose::SourceAtop => (Factor::BackAlpha, Factor::OneMinusFrontAlpha),
        Compose::DestinationAtop => (Factor::OneMinusBackAlpha, Factor::FrontAlpha),
        Compose::XOR => (Factor::OneMinusBackAlpha, Factor::OneMinusFrontAlpha),
        Compose::Lighter => (Factor::One, Factor::One),
    }
}

impl Compose {
    /// The weights of the front and the back colour under this operator.
    pub fn factors(&self) -> (r: (Factor, Factor))
        ensures
            r == compose_factors(*self),
    {
        match self {
            Compose::Clear => (Factor::Zero, Factor::Zero),
            Compose::Copy => (Factor::One, Factor::Zero),
            Compose::Destination => (Factor::Zero, Factor::One),
            Compose::SourceOver => (Factor::One, Factor::OneMinusFrontAlpha),
            Compose::DestinationOver => (Factor::OneMinusBackAlpha, Factor::One),
            Compose::SourceIn => (Factor::BackAlpha, Factor::Zero),
            Compose::DestinationIn => (Factor::Zero, Factor::FrontAlpha),
            Compose::SourceOut => (Factor::OneMinusBackAlpha, Factor::Zero),
            Compose::DestinationOut => (Factor::Zero, Factor::OneMinusFrontAlpha),
            Compose::SourceAtop => (Factor::BackAlpha, Factor::OneMinusFrontAlpha),
            Compose::DestinationAtop => (Factor::OneMinusBackAlpha, Factor::FrontAlpha),
            Compose::XOR => (Factor::OneMinusBackAlpha, Factor::OneMinusFrontAlpha),
            Compose::Lighter => (Factor::One, Factor::One),
        }
    }
}

} // verus!
