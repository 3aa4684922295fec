use vstd::prelude::*;

verus! {

/// How a front colour mixes with a back colour.
#[derive(Debug, Clone, Copy, PartialEq, Eq, Structural)]
pub enum Blending {
    Normal,
    Multiply,
    Screen,
    Overlay,
    Darken,
    Lighten,
    ColorDodge,
    ColorBurn,
    HardLight,
    SoftLight,
    Difference,
    Exclusion,
}

impl Default for Blending {
    fn default() -> (r: Self)
        ensures
            r == Blending::Normal,
    {
        Blending::Normal
    }
}

/// Porter-Duff operators: how the coverage of front and back combine.
#[derive(Debug, Clone, Copy, PartialEq, Eq, Structural)]
pub enum Compositing {
    Clear,
    Copy,
    Destination,
    SourceOver,
    DestinationOver,
    SourceIn,
    DestinationIn,
    SourceOut,
    DestinationOut,
    SourceAtop,
    DestinationAtop,
    XOR,
    Lighter,
}

impl Default for Compositing {
    fn default() -> (r: Self)
        ensures
            r == Compositing::Lighter,
    {
        Compositing::Lighter
    }
}

/// A Porter-Duff weight, in terms of the front alpha `fa` and the back
/// alpha `ba`.
#[derive(Debug, Clone, Copy, PartialEq, Eq, Structural)]
pub enum Factor {
    Zero,
    One,
    FrontAlpha,
    BackAlpha,
    OneMinusFrontAlpha,
    OneMinusBackAlpha,
}

/// The weights of front and back under each operator, as the SVG
/// compositing specification tabulates them.
pub open spec fn spec_factors(op: Compositing) -> (Factor, Factor) {
    match op {
        Compositing::Clear => (Factor::Zero, Factor::Zero),
        Compositing::Copy => (Factor::One, Factor::Zero),
        Compositing::Destination => (Factor::Zero, Factor::One),
        Compositing::SourceOver => (Factor::One, Factor::OneMinusFrontAlpha),
        Compositing::DestinationOver => (Factor::OneMinusBackAlpha, Factor::One),
        Compositing::SourceIn => (Factor::BackAlpha, Factor::Zero),
        Compositing::DestinationIn => (Factor::Zero, Factor::FrontAlpha),
        Compositing::SourceOut => (Factor::OneMinusBackAlpha, Factor::Zero),
        Compositing::DestinationOut => (Factor::Zero, Factor::OneMinusFrontAlpha),
        Compositing::SourceAtop => (Factor::BackAlpha, Factor::OneMinusFrontAlpha),
        Compositing::DestinationAtop => (Factor::OneMinusBackAlpha, Factor::FrontAlpha),
        Compositing::XOR => (Factor::OneMinusBackAlpha, Factor::OneMinusFrontAlpha),
        Compositing::Lighter => (Factor::One, Factor::One),
    }
}

impl Compositing {
    /// The weights of the front and the back colour under this operator.
    pub fn factors(&self) -> (r: (Factor, Factor))
        ensures
            r == spec_factors(*self),
    {
        match self {
            Compositing::Clear => (Factor::Zero, Factor::Zero),
            Compositing::Copy => (Factor::One, Factor::Zero),
            Compositing::Destination => (Factor::Zero, Factor::One),
            Compositing::SourceOver => (Factor::One, Factor::OneMinusFrontAlpha),
            Compositing::DestinationOver => (Factor::OneMinusBackAlpha, Factor::One),
            Compositing::SourceIn => (Factor::BackAlpha, Factor::Zero),
            Compositing::DestinationIn => (Factor::Zero, Factor::FrontAlpha),
            Compositing::SourceOut => (Factor::OneMinusBackAlpha, Factor::Zero),
            Compositing::DestinationOut => (Factor::Zero, Factor::OneMinusFrontAlpha),
            Compositing::SourceAtop => (Factor::BackAlpha, Factor::OneMinusFrontAlpha),
            Compositing::DestinationAtop => (Factor::OneMinusBackAlpha, Factor::FrontAlpha),
            Compositing::XOR => (Factor::OneMinusBackAlpha, Factor::OneMinusFrontAlpha),
            Compositing::Lighter => (Factor::One, Factor::One),
        }
    }
}

} // verus!
