//! The closed catalog of named diffusion kernels. Each kernel resolves to a
//! fixed, ordered list of diffusion offsets; the order defines the
//! accumulation order during a raster-scan pass.

use vstd::prelude::*;
use crate::objects::Offset;

verus! {

/// A named diffusion kernel from the closed catalog.
#[derive(Debug, Clone, Copy)]
pub enum ErrorDitheringEnum {
    FloydSteinberg,
}

/// The Floyd-Steinberg kernel: right 7/16, lower-left 3/16, below 5/16,
/// lower-right 1/16, in that order.
pub open spec fn floyd_steinberg_seq() -> Seq<Offset> {
    seq![
        Offset { x: 1, y: 0, divisor: 7, dividend: 16 },
        Offset { x: -1isize, y: 1, divisor: 3, dividend: 16 },
        Offset { x: 0, y: 1, divisor: 5, dividend: 16 },
        Offset { x: 1, y: 1, divisor: 1, dividend: 16 },
    ]
}

/// Every offset of a well-formed kernel has a nonzero weight denominator and
/// points at most `8` pixels away in either direction.
pub open spec fn kernel_wf(offs: Seq<Offset>) -> bool {
    forall|k: int|
        0 <= k < offs.len() ==> {
            &&& #[trigger] offs[k].dividend >= 1
            &&& -8 <= offs[k].x <= 8
            &&& -8 <= offs[k].y <= 8
        }
}

impl ErrorDitheringEnum {
    /// The offsets this kernel distributes error over, in diffusion order.
    pub open spec fn spec_distribution(&self) -> Seq<Offset> {
        match *self {
            ErrorDitheringEnum::FloydSteinberg => floyd_steinberg_seq(),
        }
    }

    /// Resolves the named kernel to its offset table.
    pub fn distribution(&self) -> (r: Vec<Offset>)
        ensures
            r@ == self.spec_distribution(),
            kernel_wf(r@),
    {
        match *self {
            ErrorDitheringEnum::FloydSteinberg => {
                let mut offs: Vec<Offset> = Vec::new();
                offs.push(Offset { x: 1, y: 0, divisor: 7, dividend: 16 });
                offs.push(Offset { x: -1, y: 1, divisor: 3, dividend: 16 });
                offs.push(Offset { x: 0, y: 1, divisor: 5, dividend: 16 });
                offs.push(Offset { x: 1, y: 1, divisor: 1, dividend: 16 });
                proof {
                    assert(offs@ =~= floyd_steinberg_seq());
                }
                offs
            },
        }
    }
}

} // verus!
