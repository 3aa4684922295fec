use vstd::prelude::*;

verus! {

/// How a canvas is sampled between pixel centres.
#[derive(Debug, Clone, Copy, PartialEq, Eq, Structural)]
pub enum Interpolation {
    Nearest,
    Bilinear,
}

} // verus!
