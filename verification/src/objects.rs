//! One diffusion target: a position relative to the current pixel, carrying
//! the share of the quantization error it receives as an exact rational
//! `divisor / dividend`.

use vstd::prelude::*;

verus! {

/// A relative diffusion target. The error share it receives is the rational
/// `divisor / dividend`; keeping the pair exact avoids repeated rounding in
/// the integer pipeline. A valid offset has `dividend != 0`.
#[derive(Debug, Clone, Copy)]
pub struct Offset {
    pub x: isize,
    pub y: isize,
    pub divisor: u8,
    pub dividend: u8,
}

impl Offset {
    /// The relative position and the rational weight, as one tuple.
    pub fn get_other(&self) -> (r: (isize, isize, u8, u8))
        ensures
            r == (self.x, self.y, self.divisor, self.dividend),
    {
        (self.x, self.y, self.divisor, self.dividend)
    }
}

} // verus!
